//! Decoder for the script values that carry the match settings. The relay
//! reads them for the lobby listing only and never writes any. All integers
//! are little-endian.

use vstd::prelude::*;

use crate::utils;

verus! {

pub const TAG_VOID: u8 = 0x00;
pub const TAG_NULL: u8 = 0x01;
pub const TAG_ARRAY: u8 = 0x02;
pub const TAG_OBJECT: u8 = 0x03;
pub const TAG_STRING: u8 = 0x04;
pub const TAG_INT: u8 = 0x05;
pub const TAG_DOUBLE: u8 = 0x06;
pub const TAG_BOOLEAN: u8 = 0x07;
pub const TAG_PRIOR_OBJECT: u8 = 0x08;
pub const TAG_TYPED_ARRAY: u8 = 0x09;
pub const TAG_ARRAY_BUFFER: u8 = 0x0a;
pub const TAG_OBJECT_PROTOTYPE: u8 = 0x0b;
pub const TAG_OBJECT_NUMBER: u8 = 0x0c;
pub const TAG_OBJECT_STRING: u8 = 0x0d;
pub const TAG_OBJECT_BOOLEAN: u8 = 0x0e;
pub const TAG_OBJECT_MAP: u8 = 0x0f;
pub const TAG_OBJECT_SET: u8 = 0x10;

/// Real settings never nest this deep, so what does is hostile or corrupt.
pub const MAX_DEPTH: usize = 64;

/// Bounds how many values a decoding may produce. Naming an earlier value
/// again costs what decoding it cost, and so does the copy kept for that, so a
/// small packet of such names cannot grow without limit.
pub const MAX_NODES: u64 = 100_000;

/// The same bound, in bytes of strings and buffers.
pub const MAX_BYTES: u64 = 1_048_576;

/// Why settings could not be decoded.
#[derive(Debug, Clone, Copy, PartialEq, Eq, Structural)]
pub enum ScriptValueError {
    Truncated,
    UnknownTag(u8),
    /// The layout behind this tag is ambiguous, so it is refused.
    Unsupported(u8),
    BadBoolean(u8),
    /// The number names no value that is already complete.
    BadBackref(u32),
    TooDeep,
    TooLarge,
    TrailingBytes(usize),
}

/// One decoded value. Numbers that are not whole are kept as the bits of
/// their double-precision form. Properties keep the order of the wire.
#[derive(Debug, PartialEq)]
pub enum ScriptValue {
    Undefined,
    Null,
    Bool(bool),
    Int(i32),
    Double(u64),
    String(String),
    Array { length: u32, props: Vec<(String, ScriptValue)> },
    Object(Vec<(String, ScriptValue)>),
    NumberObject(u64),
    StringObject(String),
    BooleanObject(bool),
    Mapping(Vec<(ScriptValue, ScriptValue)>),
    Collection(Vec<ScriptValue>),
    TypedArray { element_type: u8, offset: u32, length: u32, buffer: Box<ScriptValue> },
    ArrayBuffer(Vec<u8>),
}

/// What a [`ScriptValue`] is.
pub enum Script {
    Undefined,
    Null,
    Bool(bool),
    Int(i32),
    Double(u64),
    String(Seq<char>),
    Array { length: u32, props: Seq<(Seq<char>, Script)> },
    Object(Seq<(Seq<char>, Script)>),
    NumberObject(u64),
    StringObject(Seq<char>),
    BooleanObject(bool),
    Mapping(Seq<(Script, Script)>),
    Collection(Seq<Script>),
    TypedArray { element_type: u8, offset: u32, length: u32, buffer: Box<Script> },
    ArrayBuffer(Seq<u8>),
}

/// What a value is.
pub open spec fn script(v: ScriptValue) -> Script
    decreases v,
{
    match v {
        ScriptValue::Undefined => Script::Undefined,
        ScriptValue::Null => Script::Null,
        ScriptValue::Bool(b) => Script::Bool(b),
        ScriptValue::Int(n) => Script::Int(n),
        ScriptValue::Double(bits) => Script::Double(bits),
        ScriptValue::String(s) => Script::String(s@),
        ScriptValue::Array { length, props } => Script::Array {
            length,
            props: script_props(props@),
        },
        ScriptValue::Object(props) => Script::Object(script_props(props@)),
        ScriptValue::NumberObject(bits) => Script::NumberObject(bits),
        ScriptValue::StringObject(s) => Script::StringObject(s@),
        ScriptValue::BooleanObject(b) => Script::BooleanObject(b),
        ScriptValue::Mapping(entries) => Script::Mapping(script_pairs(entries@)),
        ScriptValue::Collection(entries) => Script::Collection(script_list(entries@)),
        ScriptValue::TypedArray { element_type, offset, length, buffer } => Script::TypedArray {
            element_type,
            offset,
            length,
            buffer: Box::new(script(*buffer)),
        },
        ScriptValue::ArrayBuffer(bytes) => Script::ArrayBuffer(bytes@),
    }
}

/// What properties are.
pub open spec fn script_props(s: Seq<(String, ScriptValue)>) -> Seq<(Seq<char>, Script)>
    decreases s,
{
    if s.len() == 0 {
        Seq::empty()
    } else {
        script_props(s.drop_last()).push((s.last().0@, script(s.last().1)))
    }
}

/// What the entries of a mapping are.
pub open spec fn script_pairs(s: Seq<(ScriptValue, ScriptValue)>) -> Seq<(Script, Script)>
    decreases s,
{
    if s.len() == 0 {
        Seq::empty()
    } else {
        script_pairs(s.drop_last()).push((script(s.last().0), script(s.last().1)))
    }
}

/// What the entries of a collection are.
pub open spec fn script_list(s: Seq<ScriptValue>) -> Seq<Script>
    decreases s,
{
    if s.len() == 0 {
        Seq::empty()
    } else {
        script_list(s.drop_last()).push(script(s.last()))
    }
}

impl View for ScriptValue {
    type V = Script;

    open spec fn view(&self) -> Script {
        script(*self)
    }
}

pub proof fn lemma_props_len(s: Seq<(String, ScriptValue)>)
    ensures
        script_props(s).len() == s.len(),
        forall|i: int|
            0 <= i < s.len() ==> #[trigger] script_props(s)[i] == (s[i].0@, script(s[i].1)),
    decreases s.len(),
{
    if s.len() > 0 {
        lemma_props_len(s.drop_last());
    }
}

// ---------------------------------------------------------------------------
// What decoding does.

/// What a value cost to produce.
pub struct Weight {
    pub nodes: nat,
    pub bytes: nat,
}

impl Weight {
    pub open spec fn plus(self, other: Weight) -> Weight {
        Weight { nodes: self.nodes + other.nodes, bytes: self.bytes + other.bytes }
    }

    /// What was added since an earlier reading.
    pub open spec fn since(self, start: Weight) -> Weight {
        Weight {
            nodes: (self.nodes - start.nodes) as nat,
            bytes: (self.bytes - start.bytes) as nat,
        }
    }
}

/// How far a decoding has come.
pub struct Progress {
    pub pos: int,
    /// The values that can be named again, in the order in which they began;
    /// none while a value is not complete. The first is number 1.
    pub refs: Seq<Option<(Script, Weight)>>,
    /// What the value being built has cost.
    pub tree: Weight,
    /// All that was ever charged.
    pub spent: Weight,
}

/// The value and where the decoding stands after it, or what is wrong.
pub type Step<T> = Result<(T, Progress), ScriptValueError>;

/// Charges what does not belong to the value being built.
pub open spec fn charged_copy(st: Progress, cost: Weight) -> Result<Progress, ScriptValueError> {
    let spent = st.spent.plus(cost);
    if spent.nodes > MAX_NODES || spent.bytes > MAX_BYTES {
        Err(ScriptValueError::TooLarge)
    } else {
        Ok(Progress { spent, ..st })
    }
}

/// Charges what belongs to the value being built.
pub open spec fn charged(st: Progress, cost: Weight) -> Result<Progress, ScriptValueError> {
    charged_copy(Progress { tree: st.tree.plus(cost), ..st }, cost)
}

/// The next byte.
pub open spec fn next_u8(b: Seq<u8>, st: Progress) -> Step<u8> {
    if st.pos >= b.len() {
        Err(ScriptValueError::Truncated)
    } else {
        Ok((b[st.pos], Progress { pos: st.pos + 1, ..st }))
    }
}

/// The next `n` bytes.
pub open spec fn next_bytes(b: Seq<u8>, st: Progress, n: int) -> Step<Seq<u8>> {
    if st.pos + n > b.len() {
        Err(ScriptValueError::Truncated)
    } else {
        Ok((b.subrange(st.pos, st.pos + n), Progress { pos: st.pos + n, ..st }))
    }
}

/// The next 32-bit number.
pub open spec fn next_u32(b: Seq<u8>, st: Progress) -> Step<u32> {
    if st.pos + 4 > b.len() {
        Err(ScriptValueError::Truncated)
    } else {
        Ok((utils::le32_at(b, st.pos), Progress { pos: st.pos + 4, ..st }))
    }
}

/// The 64-bit pattern whose little-endian bytes stand at `pos`.
pub open spec fn le64_at(b: Seq<u8>, pos: int) -> u64 {
    (utils::le32_at(b, pos) + utils::le32_at(b, pos + 4) * 0x1_0000_0000) as u64
}

/// The next double-precision number, as its bits.
pub open spec fn next_double(b: Seq<u8>, st: Progress) -> Step<u64> {
    if st.pos + 8 > b.len() {
        Err(ScriptValueError::Truncated)
    } else {
        Ok((le64_at(b, st.pos), Progress { pos: st.pos + 8, ..st }))
    }
}

/// The next string: a flag that is not zero where each character is one byte,
/// the length in characters, and the characters, which are charged.
pub open spec fn next_string(b: Seq<u8>, st: Progress) -> Step<Seq<char>> {
    match next_u8(b, st) {
        Err(e) => Err(e),
        Ok((flag, st)) => match next_u32(b, st) {
            Err(e) => Err(e),
            Ok((len, st)) => {
                let size = if flag != 0 {
                    len as nat
                } else {
                    2 * len as nat
                };
                match next_bytes(b, st, size as int) {
                    Err(e) => Err(e),
                    Ok((bytes, st)) => match charged(st, Weight { nodes: 0, bytes: size }) {
                        Err(e) => Err(e),
                        Ok(st) => Ok((utils::script_text(flag != 0, bytes), st)),
                    },
                }
            },
        },
    }
}

/// A number is set aside for the value that begins.
pub open spec fn reserved(st: Progress) -> Progress {
    Progress { refs: st.refs.push(None), ..st }
}

/// The value that began as number `n + 1` is complete: from now on it can be
/// named, and the copy kept for that is charged.
pub open spec fn completed(st: Progress, start: Weight, n: int, value: Script) -> Step<Script> {
    let cost = st.tree.since(start);
    match charged_copy(st, cost) {
        Err(e) => Err(e),
        Ok(st) => Ok((value, Progress { refs: st.refs.update(n, Some((value, cost))), ..st })),
    }
}

/// The next value.
pub open spec fn next_value(b: Seq<u8>, st: Progress, depth: nat) -> Step<Script>
    decreases 65 - depth, 1nat, 0nat,
{
    if depth > MAX_DEPTH {
        Err(ScriptValueError::TooDeep)
    } else {
        let start = st.tree;
        match charged(st, Weight { nodes: 1, bytes: 0 }) {
            Err(e) => Err(e),
            Ok(st) => match next_u8(b, st) {
                Err(e) => Err(e),
                Ok((tag, st)) => if tag == TAG_ARRAY || tag == TAG_OBJECT || tag == TAG_TYPED_ARRAY
                    || tag == TAG_ARRAY_BUFFER || tag == TAG_OBJECT_MAP || tag == TAG_OBJECT_SET {
                    match payload(b, reserved(st), tag, depth) {
                        Err(e) => Err(e),
                        Ok((value, after)) => completed(after, start, st.refs.len() as int, value),
                    }
                } else {
                    simple(b, st, tag)
                },
            },
        }
    }
}

/// A boolean of either kind.
pub open spec fn next_bool(b: Seq<u8>, st: Progress) -> Step<bool> {
    match next_u8(b, st) {
        Err(e) => Err(e),
        Ok((x, st)) => if x == 0 {
            Ok((false, st))
        } else if x == 1 {
            Ok((true, st))
        } else {
            Err(ScriptValueError::BadBoolean(x))
        },
    }
}

/// What follows the tag of a value that cannot be named again.
pub open spec fn simple(b: Seq<u8>, st: Progress, tag: u8) -> Step<Script> {
    if tag == TAG_VOID {
        Ok((Script::Undefined, st))
    } else if tag == TAG_NULL {
        Ok((Script::Null, st))
    } else if tag == TAG_BOOLEAN {
        match next_bool(b, st) {
            Err(e) => Err(e),
            Ok((x, st)) => Ok((Script::Bool(x), st)),
        }
    } else if tag == TAG_OBJECT_BOOLEAN {
        match next_bool(b, st) {
            Err(e) => Err(e),
            Ok((x, st)) => Ok((Script::BooleanObject(x), st)),
        }
    } else if tag == TAG_INT {
        match next_u32(b, st) {
            Err(e) => Err(e),
            Ok((x, st)) => Ok((Script::Int(utils::word_i32(x)), st)),
        }
    } else if tag == TAG_PRIOR_OBJECT {
        match next_u32(b, st) {
            Err(e) => Err(e),
            // A value that is not complete cannot be named: it would hold
            // itself.
            Ok((n, st)) => if 1 <= n <= st.refs.len() && st.refs[n - 1] is Some {
                let (value, cost) = st.refs[n - 1]->0;
                match charged(st, cost) {
                    Err(e) => Err(e),
                    Ok(st) => Ok((value, st)),
                }
            } else {
                Err(ScriptValueError::BadBackref(n))
            },
        }
    } else if tag == TAG_DOUBLE {
        match next_double(b, st) {
            Err(e) => Err(e),
            Ok((x, st)) => Ok((Script::Double(x), st)),
        }
    } else if tag == TAG_OBJECT_NUMBER {
        match next_double(b, st) {
            Err(e) => Err(e),
            Ok((x, st)) => Ok((Script::NumberObject(x), st)),
        }
    } else if tag == TAG_STRING {
        match next_string(b, st) {
            Err(e) => Err(e),
            Ok((x, st)) => Ok((Script::String(x), st)),
        }
    } else if tag == TAG_OBJECT_STRING {
        match next_string(b, st) {
            Err(e) => Err(e),
            Ok((x, st)) => Ok((Script::StringObject(x), st)),
        }
    } else if tag == TAG_OBJECT_PROTOTYPE {
        Err(ScriptValueError::Unsupported(TAG_OBJECT_PROTOTYPE))
    } else {
        Err(ScriptValueError::UnknownTag(tag))
    }
}

/// What follows the tag of a value that can be named again.
pub open spec fn payload(b: Seq<u8>, st: Progress, tag: u8, depth: nat) -> Step<Script>
    decreases 65 - depth, 0nat, 0x1_0000_0000nat,
{
    if depth > MAX_DEPTH {
        Err(ScriptValueError::TooDeep)
    } else if tag == TAG_ARRAY {
        match next_u32(b, st) {
            Err(e) => Err(e),
            Ok((length, st)) => match next_u32(b, st) {
                Err(e) => Err(e),
                Ok((n, st)) => match next_props(b, st, n as nat, depth) {
                    Err(e) => Err(e),
                    Ok((props, st)) => Ok((Script::Array { length, props }, st)),
                },
            },
        }
    } else if tag == TAG_OBJECT {
        match next_u32(b, st) {
            Err(e) => Err(e),
            Ok((n, st)) => match next_props(b, st, n as nat, depth) {
                Err(e) => Err(e),
                Ok((props, st)) => Ok((Script::Object(props), st)),
            },
        }
    } else if tag == TAG_TYPED_ARRAY {
        match next_u8(b, st) {
            Err(e) => Err(e),
            Ok((element_type, st)) => match next_u32(b, st) {
                Err(e) => Err(e),
                Ok((offset, st)) => match next_u32(b, st) {
                    Err(e) => Err(e),
                    Ok((length, st)) => match next_value(b, st, depth + 1) {
                        Err(e) => Err(e),
                        Ok((buffer, st)) => Ok(
                            (
                                Script::TypedArray {
                                    element_type,
                                    offset,
                                    length,
                                    buffer: Box::new(buffer),
                                },
                                st,
                            ),
                        ),
                    },
                },
            },
        }
    } else if tag == TAG_ARRAY_BUFFER {
        match next_u32(b, st) {
            Err(e) => Err(e),
            Ok((n, st)) => match next_bytes(b, st, n as int) {
                Err(e) => Err(e),
                Ok((bytes, st)) => match charged(st, Weight { nodes: 0, bytes: n as nat }) {
                    Err(e) => Err(e),
                    Ok(st) => Ok((Script::ArrayBuffer(bytes), st)),
                },
            },
        }
    } else if tag == TAG_OBJECT_MAP {
        match next_u32(b, st) {
            Err(e) => Err(e),
            Ok((n, st)) => match next_pairs(b, st, n as nat, depth) {
                Err(e) => Err(e),
                Ok((entries, st)) => Ok((Script::Mapping(entries), st)),
            },
        }
    } else {
        match next_u32(b, st) {
            Err(e) => Err(e),
            Ok((n, st)) => match next_list(b, st, n as nat, depth) {
                Err(e) => Err(e),
                Ok((entries, st)) => Ok((Script::Collection(entries), st)),
            },
        }
    }
}

/// The next `n` properties: each a name and a value one level deeper.
pub open spec fn next_props(b: Seq<u8>, st: Progress, n: nat, depth: nat) -> Step<
    Seq<(Seq<char>, Script)>,
>
    decreases 65 - depth, 0nat, n,
{
    if n == 0 || depth > MAX_DEPTH {
        Ok((Seq::empty(), st))
    } else {
        match next_string(b, st) {
            Err(e) => Err(e),
            Ok((key, st)) => match next_value(b, st, depth + 1) {
                Err(e) => Err(e),
                Ok((value, st)) => match next_props(b, st, (n - 1) as nat, depth) {
                    Err(e) => Err(e),
                    Ok((rest, st)) => Ok((seq![(key, value)] + rest, st)),
                },
            },
        }
    }
}

/// The next `n` entries of a mapping, one level deeper.
pub open spec fn next_pairs(b: Seq<u8>, st: Progress, n: nat, depth: nat) -> Step<
    Seq<(Script, Script)>,
>
    decreases 65 - depth, 0nat, n,
{
    if n == 0 || depth > MAX_DEPTH {
        Ok((Seq::empty(), st))
    } else {
        match next_value(b, st, depth + 1) {
            Err(e) => Err(e),
            Ok((key, st)) => match next_value(b, st, depth + 1) {
                Err(e) => Err(e),
                Ok((value, st)) => match next_pairs(b, st, (n - 1) as nat, depth) {
                    Err(e) => Err(e),
                    Ok((rest, st)) => Ok((seq![(key, value)] + rest, st)),
                },
            },
        }
    }
}

/// The next `n` entries of a collection, one level deeper.
pub open spec fn next_list(b: Seq<u8>, st: Progress, n: nat, depth: nat) -> Step<Seq<Script>>
    decreases 65 - depth, 0nat, n,
{
    if n == 0 || depth > MAX_DEPTH {
        Ok((Seq::empty(), st))
    } else {
        match next_value(b, st, depth + 1) {
            Err(e) => Err(e),
            Ok((value, st)) => match next_list(b, st, (n - 1) as nat, depth) {
                Err(e) => Err(e),
                Ok((rest, st)) => Ok((seq![value] + rest, st)),
            },
        }
    }
}

/// Where a decoding starts.
pub open spec fn fresh() -> Progress {
    Progress {
        pos: 0,
        refs: Seq::empty(),
        tree: Weight { nodes: 0, bytes: 0 },
        spent: Weight { nodes: 0, bytes: 0 },
    }
}

/// The one value that a packet holds.
pub open spec fn decoded(b: Seq<u8>) -> Result<Script, ScriptValueError> {
    match next_value(b, fresh(), 0) {
        Err(e) => Err(e),
        Ok((value, st)) => if st.pos == b.len() {
            Ok(value)
        } else {
            Err(ScriptValueError::TrailingBytes((b.len() - st.pos) as usize))
        },
    }
}

// ---------------------------------------------------------------------------
// The decoder.

fn copy_value(v: &ScriptValue) -> (r: ScriptValue)
    ensures
        r@ == v@,
    decreases v,
{
    match v {
        ScriptValue::Undefined => ScriptValue::Undefined,
        ScriptValue::Null => ScriptValue::Null,
        ScriptValue::Bool(b) => ScriptValue::Bool(*b),
        ScriptValue::Int(n) => ScriptValue::Int(*n),
        ScriptValue::Double(bits) => ScriptValue::Double(*bits),
        ScriptValue::String(s) => ScriptValue::String(s.clone()),
        ScriptValue::Array { length, props } => ScriptValue::Array {
            length: *length,
            props: copy_props(props),
        },
        ScriptValue::Object(props) => ScriptValue::Object(copy_props(props)),
        ScriptValue::NumberObject(bits) => ScriptValue::NumberObject(*bits),
        ScriptValue::StringObject(s) => ScriptValue::StringObject(s.clone()),
        ScriptValue::BooleanObject(b) => ScriptValue::BooleanObject(*b),
        ScriptValue::Mapping(entries) => ScriptValue::Mapping(copy_pairs(entries)),
        ScriptValue::Collection(entries) => ScriptValue::Collection(copy_list(entries)),
        ScriptValue::TypedArray { element_type, offset, length, buffer } => {
            let copy = copy_value(buffer);
            ScriptValue::TypedArray {
                element_type: *element_type,
                offset: *offset,
                length: *length,
                buffer: Box::new(copy),
            }
        },
        ScriptValue::ArrayBuffer(bytes) => ScriptValue::ArrayBuffer(
            vstd::slice::slice_to_vec(bytes.as_slice()),
        ),
    }
}

fn copy_props(s: &Vec<(String, ScriptValue)>) -> (r: Vec<(String, ScriptValue)>)
    ensures
        script_props(r@) == script_props(s@),
    decreases s,
{
    let mut out: Vec<(String, ScriptValue)> = Vec::new();
    let mut i: usize = 0;
    while i < s.len()
        invariant
            i <= s@.len(),
            script_props(out@) == script_props(s@.take(i as int)),
        decreases s@.len() - i,
    {
        let value = copy_value(&s[i].1);
        let ghost before = out@;
        out.push((s[i].0.clone(), value));
        assert(out@.drop_last() =~= before);
        assert(s@.take(i + 1).drop_last() =~= s@.take(i as int));
        i += 1;
    }
    assert(s@.take(i as int) =~= s@);
    out
}

fn copy_pairs(s: &Vec<(ScriptValue, ScriptValue)>) -> (r: Vec<(ScriptValue, ScriptValue)>)
    ensures
        script_pairs(r@) == script_pairs(s@),
    decreases s,
{
    let mut out: Vec<(ScriptValue, ScriptValue)> = Vec::new();
    let mut i: usize = 0;
    while i < s.len()
        invariant
            i <= s@.len(),
            script_pairs(out@) == script_pairs(s@.take(i as int)),
        decreases s@.len() - i,
    {
        let key = copy_value(&s[i].0);
        let value = copy_value(&s[i].1);
        let ghost before = out@;
        out.push((key, value));
        assert(out@.drop_last() =~= before);
        assert(s@.take(i + 1).drop_last() =~= s@.take(i as int));
        i += 1;
    }
    assert(s@.take(i as int) =~= s@);
    out
}

fn copy_list(s: &Vec<ScriptValue>) -> (r: Vec<ScriptValue>)
    ensures
        script_list(r@) == script_list(s@),
    decreases s,
{
    let mut out: Vec<ScriptValue> = Vec::new();
    let mut i: usize = 0;
    while i < s.len()
        invariant
            i <= s@.len(),
            script_list(out@) == script_list(s@.take(i as int)),
        decreases s@.len() - i,
    {
        let value = copy_value(&s[i]);
        let ghost before = out@;
        out.push(value);
        assert(out@.drop_last() =~= before);
        assert(s@.take(i + 1).drop_last() =~= s@.take(i as int));
        i += 1;
    }
    assert(s@.take(i as int) =~= s@);
    out
}

impl Clone for ScriptValue {
    fn clone(&self) -> (r: Self)
        ensures
            r@ == self@,
    {
        copy_value(self)
    }
}

/// What a decoded value cost to produce, in the two units that are bounded: a
/// chain of small containers shows in the nodes, a chain of names for one
/// large string shows in the bytes.
#[derive(Debug, Clone, Copy, PartialEq, Eq, Structural)]
struct Cost {
    nodes: u64,
    bytes: u64,
}

impl Cost {
    spec fn weight(self) -> Weight {
        Weight { nodes: self.nodes as nat, bytes: self.bytes as nat }
    }

    spec fn within(self, other: Cost) -> bool {
        self.nodes <= other.nodes && self.bytes <= other.bytes
    }

    spec fn bounded(self) -> bool {
        self.nodes <= MAX_NODES && self.bytes <= MAX_BYTES
    }

    fn plus(self, other: Cost) -> (r: Cost)
        requires
            self.bounded(),
            other.nodes <= 0x1_0000_0000,
            other.bytes <= 0x2_0000_0000,
        ensures
            r.weight() == self.weight().plus(other.weight()),
            self.within(r),
    {
        Cost { nodes: self.nodes + other.nodes, bytes: self.bytes + other.bytes }
    }

    fn since(self, start: Cost) -> (r: Cost)
        requires
            start.within(self),
        ensures
            r.weight() == self.weight().since(start.weight()),
            r.within(self),
    {
        Cost { nodes: self.nodes - start.nodes, bytes: self.bytes - start.bytes }
    }
}

spec fn kept(o: Option<(ScriptValue, Cost)>) -> Option<(Script, Weight)> {
    match o {
        None => None,
        Some((value, cost)) => Some((value@, cost.weight())),
    }
}

struct Decoder<'a> {
    data: &'a [u8],
    pos: usize,
    refs: Vec<Option<(ScriptValue, Cost)>>,
    tree: Cost,
    spent: Cost,
}

impl<'a> View for Decoder<'a> {
    type V = Progress;

    closed spec fn view(&self) -> Progress {
        Progress {
            pos: self.pos as int,
            refs: self.refs@.map_values(|o: Option<(ScriptValue, Cost)>| kept(o)),
            tree: self.tree.weight(),
            spent: self.spent.weight(),
        }
    }
}

impl<'a> Decoder<'a> {
    spec fn wf(self) -> bool {
        &&& self.pos <= self.data@.len()
        &&& self.spent.bounded()
        &&& self.tree.within(self.spent)
        &&& self.refs@.len() <= self.spent.nodes
        &&& forall|i: int|
            0 <= i < self.refs@.len() ==> (#[trigger] self.refs@[i] matches Some((_, cost))
                ==> cost.bounded())
    }

    /// Nothing that was reached is given up.
    spec fn follows(self, earlier: Self) -> bool {
        &&& self.data == earlier.data
        &&& self.wf()
        &&& earlier.tree.within(self.tree)
        &&& earlier.refs@.len() <= self.refs@.len()
    }

    fn new(data: &'a [u8]) -> (r: Self)
        ensures
            r.data == data,
            r.wf(),
            r@ == fresh(),
    {
        let r = Decoder {
            data,
            pos: 0,
            refs: Vec::new(),
            tree: Cost { nodes: 0, bytes: 0 },
            spent: Cost { nodes: 0, bytes: 0 },
        };
        assert(r@.refs =~= Seq::empty());
        r
    }

    fn charge_copy(&mut self, cost: Cost) -> (r: Result<(), ScriptValueError>)
        requires
            old(self).spent.bounded(),
            cost.nodes <= 0x1_0000_0000,
            cost.bytes <= 0x2_0000_0000,
        ensures
            match r {
                Ok(_) => {
                    &&& charged_copy(old(self)@, cost.weight()) == Ok::<_, ScriptValueError>(
                        final(self)@,
                    )
                    &&& final(self).spent.bounded()
                },
                Err(e) => charged_copy(old(self)@, cost.weight()) == Err::<Progress, _>(e),
            },
            final(self).data == old(self).data,
            final(self).pos == old(self).pos,
            final(self).refs == old(self).refs,
            final(self).tree == old(self).tree,
            final(self).spent.weight() == old(self).spent.weight().plus(cost.weight()),
    {
        self.spent = self.spent.plus(cost);
        if self.spent.nodes > MAX_NODES || self.spent.bytes > MAX_BYTES {
            return Err(ScriptValueError::TooLarge);
        }
        Ok(())
    }

    fn charge(&mut self, cost: Cost) -> (r: Result<(), ScriptValueError>)
        requires
            old(self).wf(),
            cost.nodes <= 0x1_0000_0000,
            cost.bytes <= 0x2_0000_0000,
        ensures
            match r {
                Ok(_) => {
                    &&& charged(old(self)@, cost.weight()) == Ok::<_, ScriptValueError>(
                        final(self)@,
                    )
                    &&& final(self).follows(*old(self))
                },
                Err(e) => charged(old(self)@, cost.weight()) == Err::<Progress, _>(e),
            },
            final(self).refs == old(self).refs,
            final(self).spent.weight() == old(self).spent.weight().plus(cost.weight()),
    {
        self.tree = self.tree.plus(cost);
        self.charge_copy(cost)
    }

    fn take_node(&mut self) -> (r: Result<(), ScriptValueError>)
        requires
            old(self).wf(),
        ensures
            match r {
                Ok(_) => {
                    &&& charged(old(self)@, Weight { nodes: 1, bytes: 0 }) == Ok::<
                        _,
                        ScriptValueError,
                    >(final(self)@)
                    &&& final(self).follows(*old(self))
                    &&& final(self).refs@.len() < final(self).spent.nodes
                },
                Err(e) => charged(old(self)@, Weight { nodes: 1, bytes: 0 }) == Err::<Progress, _>(e),
            },
    {
        self.charge(Cost { nodes: 1, bytes: 0 })
    }

    fn read_u8(&mut self) -> (r: Result<u8, ScriptValueError>)
        requires
            old(self).wf(),
        ensures
            match r {
                Ok(x) => {
                    &&& next_u8(old(self).data@, old(self)@) == Ok::<_, ScriptValueError>(
                        (x, final(self)@),
                    )
                    &&& final(self).follows(*old(self))
                    &&& final(self).refs == old(self).refs
                    &&& final(self).spent == old(self).spent
                },
                Err(e) => next_u8(old(self).data@, old(self)@) == Err::<(u8, Progress), _>(e),
            },
    {
        if self.pos >= self.data.len() {
            return Err(ScriptValueError::Truncated);
        }
        let x: u8 = self.data[self.pos];
        self.pos = self.pos + 1;
        Ok(x)
    }

    fn read_u32(&mut self) -> (r: Result<u32, ScriptValueError>)
        requires
            old(self).wf(),
        ensures
            match r {
                Ok(x) => {
                    &&& next_u32(old(self).data@, old(self)@) == Ok::<_, ScriptValueError>(
                        (x, final(self)@),
                    )
                    &&& final(self).follows(*old(self))
                    &&& final(self).refs == old(self).refs
                    &&& final(self).spent == old(self).spent
                },
                Err(e) => next_u32(old(self).data@, old(self)@) == Err::<(u32, Progress), _>(e),
            },
    {
        if self.data.len() - self.pos < 4 {
            return Err(ScriptValueError::Truncated);
        }
        let at: usize = self.pos;
        let d = self.data;
        let x: u32 = d[at] as u32 + d[at + 1] as u32 * 0x100 + d[at + 2] as u32 * 0x1_0000 + d[at
            + 3] as u32 * 0x100_0000;
        self.pos = at + 4;
        Ok(x)
    }

    fn read_double(&mut self) -> (r: Result<u64, ScriptValueError>)
        requires
            old(self).wf(),
        ensures
            match r {
                Ok(x) => {
                    &&& next_double(old(self).data@, old(self)@) == Ok::<_, ScriptValueError>(
                        (x, final(self)@),
                    )
                    &&& final(self).follows(*old(self))
                },
                Err(e) => next_double(old(self).data@, old(self)@) == Err::<(u64, Progress), _>(e),
            },
    {
        if self.data.len() - self.pos < 8 {
            return Err(ScriptValueError::Truncated);
        }
        let low: u32 = self.read_u32()?;
        let high: u32 = self.read_u32()?;
        Ok(low as u64 + high as u64 * 0x1_0000_0000)
    }

    fn read_bytes(&mut self, len: usize) -> (r: Result<&'a [u8], ScriptValueError>)
        requires
            old(self).wf(),
        ensures
            match r {
                Ok(x) => {
                    &&& next_bytes(old(self).data@, old(self)@, len as int) == Ok::<
                        _,
                        ScriptValueError,
                    >((x@, final(self)@))
                    &&& final(self).follows(*old(self))
                },
                Err(e) => next_bytes(old(self).data@, old(self)@, len as int) == Err::<
                    (Seq<u8>, Progress),
                    _,
                >(e),
            },
    {
        if self.data.len() - self.pos < len {
            return Err(ScriptValueError::Truncated);
        }
        let end: usize = self.pos + len;
        let bytes = vstd::slice::slice_subrange(self.data, self.pos, end);
        self.pos = end;
        Ok(bytes)
    }

    fn read_string(&mut self) -> (r: Result<String, ScriptValueError>)
        requires
            old(self).wf(),
        ensures
            match r {
                Ok(x) => {
                    &&& next_string(old(self).data@, old(self)@) == Ok::<_, ScriptValueError>(
                        (x@, final(self)@),
                    )
                    &&& final(self).follows(*old(self))
                },
                Err(e) => next_string(old(self).data@, old(self)@) == Err::<
                    (Seq<char>, Progress),
                    _,
                >(e),
            },
    {
        let flag: u8 = self.read_u8()?;
        let len: u32 = self.read_u32()?;
        let size: u64 = if flag != 0 {
            len as u64
        } else {
            len as u64 * 2
        };
        if size > (self.data.len() - self.pos) as u64 {
            return Err(ScriptValueError::Truncated);
        }
        let bytes = self.read_bytes(size as usize)?;
        self.charge(Cost { nodes: 0, bytes: size })?;
        Ok(utils::decode_script_text(flag != 0, bytes))
    }

    fn read_bool(&mut self) -> (r: Result<bool, ScriptValueError>)
        requires
            old(self).wf(),
        ensures
            match r {
                Ok(x) => {
                    &&& next_bool(old(self).data@, old(self)@) == Ok::<_, ScriptValueError>(
                        (x, final(self)@),
                    )
                    &&& final(self).follows(*old(self))
                },
                Err(e) => next_bool(old(self).data@, old(self)@) == Err::<(bool, Progress), _>(e),
            },
    {
        let x: u8 = self.read_u8()?;
        if x == 0 {
            Ok(false)
        } else if x == 1 {
            Ok(true)
        } else {
            Err(ScriptValueError::BadBoolean(x))
        }
    }

    /// What follows the tag of a value that cannot be named again.
    fn read_simple(&mut self, tag: u8) -> (r: Result<ScriptValue, ScriptValueError>)
        requires
            old(self).wf(),
        ensures
            match r {
                Ok(x) => {
                    &&& simple(old(self).data@, old(self)@, tag) == Ok::<_, ScriptValueError>(
                        (x@, final(self)@),
                    )
                    &&& final(self).follows(*old(self))
                },
                Err(e) => simple(old(self).data@, old(self)@, tag) == Err::<(Script, Progress), _>(
                    e,
                ),
            },
    {
        match tag {
            TAG_VOID => Ok(ScriptValue::Undefined),
            TAG_NULL => Ok(ScriptValue::Null),
            TAG_BOOLEAN => {
                let x = self.read_bool()?;
                Ok(ScriptValue::Bool(x))
            },
            TAG_OBJECT_BOOLEAN => {
                let x = self.read_bool()?;
                Ok(ScriptValue::BooleanObject(x))
            },
            TAG_INT => {
                let x: u32 = self.read_u32()?;
                Ok(ScriptValue::Int(utils::word_to_i32(x)))
            },
            TAG_PRIOR_OBJECT => self.read_prior(),
            TAG_DOUBLE => {
                let x: u64 = self.read_double()?;
                Ok(ScriptValue::Double(x))
            },
            TAG_OBJECT_NUMBER => {
                let x: u64 = self.read_double()?;
                Ok(ScriptValue::NumberObject(x))
            },
            TAG_STRING => {
                let x = self.read_string()?;
                Ok(ScriptValue::String(x))
            },
            TAG_OBJECT_STRING => {
                let x = self.read_string()?;
                Ok(ScriptValue::StringObject(x))
            },
            TAG_OBJECT_PROTOTYPE => Err(ScriptValueError::Unsupported(TAG_OBJECT_PROTOTYPE)),
            _ => Err(ScriptValueError::UnknownTag(tag)),
        }
    }

    /// An earlier value by its number. It is charged, and found to fit, before
    /// it is copied.
    fn read_prior(&mut self) -> (r: Result<ScriptValue, ScriptValueError>)
        requires
            old(self).wf(),
        ensures
            match r {
                Ok(x) => {
                    &&& simple(old(self).data@, old(self)@, TAG_PRIOR_OBJECT) == Ok::<
                        _,
                        ScriptValueError,
                    >((x@, final(self)@))
                    &&& final(self).follows(*old(self))
                },
                Err(e) => simple(old(self).data@, old(self)@, TAG_PRIOR_OBJECT) == Err::<
                    (Script, Progress),
                    _,
                >(e),
            },
    {
        let n: u32 = self.read_u32()?;
        if n == 0 || n as usize > self.refs.len() {
            return Err(ScriptValueError::BadBackref(n));
        }
        let at: usize = n as usize - 1;
        assert(self@.refs[at as int] == kept(self.refs@[at as int]));
        let cost = match &self.refs[at] {
            Some((_, cost)) => *cost,
            None => return Err(ScriptValueError::BadBackref(n)),
        };
        self.charge(cost)?;
        match &self.refs[at] {
            Some((value, _)) => Ok(copy_value(value)),
            None => {
                assert(false);
                Err(ScriptValueError::BadBackref(n))
            },
        }
    }

    /// The next `n` properties, one level deeper.
    fn read_props(&mut self, n: u32, depth: usize) -> (r: Result<Vec<(String, ScriptValue)>, ScriptValueError>)
        requires
            old(self).wf(),
            depth <= MAX_DEPTH,
        ensures
            match r {
                Ok(x) => {
                    &&& next_props(old(self).data@, old(self)@, n as nat, depth as nat) == Ok::<
                        _,
                        ScriptValueError,
                    >((script_props(x@), final(self)@))
                    &&& final(self).follows(*old(self))
                },
                Err(e) => next_props(old(self).data@, old(self)@, n as nat, depth as nat) == Err::<
                    (Seq<(Seq<char>, Script)>, Progress),
                    _,
                >(e),
            },
        decreases 65 - depth, 0nat,
    {
        let ghost b = self.data@;
        let ghost whole = next_props(b, self@, n as nat, depth as nat);
        let mut out: Vec<(String, ScriptValue)> = Vec::new();
        let mut left: u32 = n;
        proof {
            if let Ok((rest, _)) = whole {
                assert(script_props(out@) + rest =~= rest);
            }
        }
        while left > 0
            invariant
                depth <= MAX_DEPTH,
                b == self.data@,
                b == old(self).data@,
                self.follows(*old(self)),
                whole == next_props(b, old(self)@, n as nat, depth as nat),
                whole == match next_props(b, self@, left as nat, depth as nat) {
                    Ok((rest, st)) => Ok::<(Seq<(Seq<char>, Script)>, Progress), ScriptValueError>(
                        (script_props(out@) + rest, st),
                    ),
                    Err(e) => Err(e),
                },
            decreases left,
        {
            let ghost before = out@;
            let key = self.read_string()?;
            let value = self.read_value(depth + 1)?;
            out.push((key, value));
            left -= 1;
            proof {
                assert(out@.drop_last() =~= before);
                if let Ok((rest, _)) = next_props(b, self@, left as nat, depth as nat) {
                    assert(script_props(before) + (seq![(out@.last().0@, out@.last().1@)] + rest) =~= script_props(out@) + rest);
                }
            }
        }
        assert(script_props(out@) + Seq::<(Seq<char>, Script)>::empty() =~= script_props(out@));
        Ok(out)
    }

    /// The next `n` entries of a mapping, one level deeper.
    fn read_pairs(&mut self, n: u32, depth: usize) -> (r: Result<Vec<(ScriptValue, ScriptValue)>, ScriptValueError>)
        requires
            old(self).wf(),
            depth <= MAX_DEPTH,
        ensures
            match r {
                Ok(x) => {
                    &&& next_pairs(old(self).data@, old(self)@, n as nat, depth as nat) == Ok::<
                        _,
                        ScriptValueError,
                    >((script_pairs(x@), final(self)@))
                    &&& final(self).follows(*old(self))
                },
                Err(e) => next_pairs(old(self).data@, old(self)@, n as nat, depth as nat) == Err::<
                    (Seq<(Script, Script)>, Progress),
                    _,
                >(e),
            },
        decreases 65 - depth, 0nat,
    {
        let ghost b = self.data@;
        let ghost whole = next_pairs(b, self@, n as nat, depth as nat);
        let mut out: Vec<(ScriptValue, ScriptValue)> = Vec::new();
        let mut left: u32 = n;
        proof {
            if let Ok((rest, _)) = whole {
                assert(script_pairs(out@) + rest =~= rest);
            }
        }
        while left > 0
            invariant
                depth <= MAX_DEPTH,
                b == self.data@,
                b == old(self).data@,
                self.follows(*old(self)),
                whole == next_pairs(b, old(self)@, n as nat, depth as nat),
                whole == match next_pairs(b, self@, left as nat, depth as nat) {
                    Ok((rest, st)) => Ok::<(Seq<(Script, Script)>, Progress), ScriptValueError>(
                        (script_pairs(out@) + rest, st),
                    ),
                    Err(e) => Err(e),
                },
            decreases left,
        {
            let ghost before = out@;
            let key = self.read_value(depth + 1)?;
            let value = self.read_value(depth + 1)?;
            out.push((key, value));
            left -= 1;
            proof {
                assert(out@.drop_last() =~= before);
                if let Ok((rest, _)) = next_pairs(b, self@, left as nat, depth as nat) {
                    assert(script_pairs(before) + (seq![(out@.last().0@, out@.last().1@)] + rest) =~= script_pairs(out@) + rest);
                }
            }
        }
        assert(script_pairs(out@) + Seq::<(Script, Script)>::empty() =~= script_pairs(out@));
        Ok(out)
    }

    /// The next `n` entries of a collection, one level deeper.
    fn read_list(&mut self, n: u32, depth: usize) -> (r: Result<Vec<ScriptValue>, ScriptValueError>)
        requires
            old(self).wf(),
            depth <= MAX_DEPTH,
        ensures
            match r {
                Ok(x) => {
                    &&& next_list(old(self).data@, old(self)@, n as nat, depth as nat) == Ok::<
                        _,
                        ScriptValueError,
                    >((script_list(x@), final(self)@))
                    &&& final(self).follows(*old(self))
                },
                Err(e) => next_list(old(self).data@, old(self)@, n as nat, depth as nat) == Err::<
                    (Seq<Script>, Progress),
                    _,
                >(e),
            },
        decreases 65 - depth, 0nat,
    {
        let ghost b = self.data@;
        let ghost whole = next_list(b, self@, n as nat, depth as nat);
        let mut out: Vec<ScriptValue> = Vec::new();
        let mut left: u32 = n;
        proof {
            if let Ok((rest, _)) = whole {
                assert(script_list(out@) + rest =~= rest);
            }
        }
        while left > 0
            invariant
                depth <= MAX_DEPTH,
                b == self.data@,
                b == old(self).data@,
                self.follows(*old(self)),
                whole == next_list(b, old(self)@, n as nat, depth as nat),
                whole == match next_list(b, self@, left as nat, depth as nat) {
                    Ok((rest, st)) => Ok::<(Seq<Script>, Progress), ScriptValueError>(
                        (script_list(out@) + rest, st),
                    ),
                    Err(e) => Err(e),
                },
            decreases left,
        {
            let ghost before = out@;
            let value = self.read_value(depth + 1)?;
            out.push(value);
            left -= 1;
            proof {
                assert(out@.drop_last() =~= before);
                if let Ok((rest, _)) = next_list(b, self@, left as nat, depth as nat) {
                    assert(script_list(before) + (seq![out@.last()@] + rest) =~= script_list(out@) + rest);
                }
            }
        }
        assert(script_list(out@) + Seq::<Script>::empty() =~= script_list(out@));
        Ok(out)
    }

    /// What follows the tag of a value that can be named again.
    fn read_payload(&mut self, tag: u8, depth: usize) -> (r: Result<ScriptValue, ScriptValueError>)
        requires
            old(self).wf(),
            depth <= MAX_DEPTH,
            tag == TAG_ARRAY || tag == TAG_OBJECT || tag == TAG_TYPED_ARRAY || tag
                == TAG_ARRAY_BUFFER || tag == TAG_OBJECT_MAP || tag == TAG_OBJECT_SET,
        ensures
            match r {
                Ok(x) => {
                    &&& payload(old(self).data@, old(self)@, tag, depth as nat) == Ok::<
                        _,
                        ScriptValueError,
                    >((x@, final(self)@))
                    &&& final(self).follows(*old(self))
                },
                Err(e) => payload(old(self).data@, old(self)@, tag, depth as nat) == Err::<
                    (Script, Progress),
                    _,
                >(e),
            },
        decreases 65 - depth, 1nat,
    {
        match tag {
            TAG_ARRAY => {
                let length: u32 = self.read_u32()?;
                let n: u32 = self.read_u32()?;
                let props = self.read_props(n, depth)?;
                Ok(ScriptValue::Array { length, props })
            },
            TAG_OBJECT => {
                let n: u32 = self.read_u32()?;
                let props = self.read_props(n, depth)?;
                Ok(ScriptValue::Object(props))
            },
            TAG_TYPED_ARRAY => {
                let element_type: u8 = self.read_u8()?;
                let offset: u32 = self.read_u32()?;
                let length: u32 = self.read_u32()?;
                let buffer = self.read_value(depth + 1)?;
                Ok(
                    ScriptValue::TypedArray {
                        element_type,
                        offset,
                        length,
                        buffer: Box::new(buffer),
                    },
                )
            },
            TAG_ARRAY_BUFFER => {
                let n: u32 = self.read_u32()?;
                let bytes = self.read_bytes(n as usize)?;
                self.charge(Cost { nodes: 0, bytes: n as u64 })?;
                Ok(ScriptValue::ArrayBuffer(vstd::slice::slice_to_vec(bytes)))
            },
            TAG_OBJECT_MAP => {
                let n: u32 = self.read_u32()?;
                let entries = self.read_pairs(n, depth)?;
                Ok(ScriptValue::Mapping(entries))
            },
            _ => {
                let n: u32 = self.read_u32()?;
                let entries = self.read_list(n, depth)?;
                Ok(ScriptValue::Collection(entries))
            },
        }
    }

    fn reserve_ref(&mut self) -> (r: usize)
        requires
            old(self).wf(),
            old(self).refs@.len() < old(self).spent.nodes,
        ensures
            r == old(self).refs@.len(),
            final(self)@ == reserved(old(self)@),
            final(self).follows(*old(self)),
            final(self).refs@.len() == r + 1,
    {
        let n: usize = self.refs.len();
        self.refs.push(None);
        assert(self@.refs =~= old(self)@.refs.push(None));
        n
    }

    fn fill_ref(&mut self, reference: usize, value: &ScriptValue, start: Cost) -> (r: Result<
        (),
        ScriptValueError,
    >)
        requires
            old(self).wf(),
            reference < old(self).refs@.len(),
            start.within(old(self).tree),
        ensures
            match r {
                Ok(_) => {
                    &&& completed(old(self)@, start.weight(), reference as int, value@) == Ok::<
                        _,
                        ScriptValueError,
                    >((value@, final(self)@))
                    &&& final(self).follows(*old(self))
                },
                Err(e) => completed(old(self)@, start.weight(), reference as int, value@) == Err::<
                    (Script, Progress),
                    _,
                >(e),
            },
    {
        let cost = self.tree.since(start);
        self.charge_copy(cost)?;
        let ghost before = self@.refs;
        self.refs.set(reference, Some((copy_value(value), cost)));
        assert(self@.refs =~= before.update(reference as int, Some((value@, cost.weight()))));
        Ok(())
    }

    fn read_value(&mut self, depth: usize) -> (r: Result<ScriptValue, ScriptValueError>)
        requires
            old(self).wf(),
        ensures
            match r {
                Ok(x) => {
                    &&& next_value(old(self).data@, old(self)@, depth as nat) == Ok::<
                        _,
                        ScriptValueError,
                    >((x@, final(self)@))
                    &&& final(self).follows(*old(self))
                },
                Err(e) => next_value(old(self).data@, old(self)@, depth as nat) == Err::<
                    (Script, Progress),
                    _,
                >(e),
            },
        decreases 65 - depth, 2nat,
    {
        if depth > MAX_DEPTH {
            return Err(ScriptValueError::TooDeep);
        }
        let start = self.tree;
        self.take_node()?;
        let tag: u8 = self.read_u8()?;
        match tag {
            TAG_ARRAY | TAG_OBJECT | TAG_TYPED_ARRAY | TAG_ARRAY_BUFFER | TAG_OBJECT_MAP
            | TAG_OBJECT_SET => {
                let reference: usize = self.reserve_ref();
                let value = self.read_payload(tag, depth)?;
                self.fill_ref(reference, &value, start)?;
                Ok(value)
            },
            _ => self.read_simple(tag),
        }
    }
}

/// The one value that a packet holds.
pub fn decode(bytes: &[u8]) -> (r: Result<ScriptValue, ScriptValueError>)
    ensures
        match r {
            Ok(v) => decoded(bytes@) == Ok::<_, ScriptValueError>(v@),
            Err(e) => decoded(bytes@) == Err::<Script, _>(e),
        },
{
    let mut decoder = Decoder::new(bytes);
    let value = decoder.read_value(0)?;
    let remaining: usize = decoder.data.len() - decoder.pos;
    if remaining != 0 {
        return Err(ScriptValueError::TrailingBytes(remaining));
    }
    Ok(value)
}

// ---------------------------------------------------------------------------
// Looking values up.

/// The first property with this name.
pub open spec fn prop(props: Seq<(Seq<char>, Script)>, key: Seq<char>) -> Option<Script>
    decreases props.len(),
{
    if props.len() == 0 {
        None
    } else if props[0].0 == key {
        Some(props[0].1)
    } else {
        prop(props.drop_first(), key)
    }
}

/// A number as it was written: whole, or the bits of its double-precision
/// form.
#[derive(Debug, Clone, Copy, PartialEq, Eq, Structural)]
pub enum ScriptNumber {
    Int(i32),
    Bits(u64),
}

impl Script {
    /// A property of an object or an array.
    pub open spec fn get(self, key: Seq<char>) -> Option<Script> {
        match self {
            Script::Object(props) => prop(props, key),
            Script::Array { props, .. } => prop(props, key),
            _ => None,
        }
    }

    /// The text of a string of either kind.
    pub open spec fn text(self) -> Option<Seq<char>> {
        match self {
            Script::String(s) => Some(s),
            Script::StringObject(s) => Some(s),
            _ => None,
        }
    }

    /// The number of either kind.
    pub open spec fn number(self) -> Option<ScriptNumber> {
        match self {
            Script::Int(n) => Some(ScriptNumber::Int(n)),
            Script::Double(bits) => Some(ScriptNumber::Bits(bits)),
            Script::NumberObject(bits) => Some(ScriptNumber::Bits(bits)),
            _ => None,
        }
    }

    /// The length an array claims, which says nothing of how many elements it
    /// has.
    pub open spec fn claimed_len(self) -> Option<u32> {
        match self {
            Script::Array { length, .. } => Some(length),
            _ => None,
        }
    }
}

fn find_prop<'a>(props: &'a Vec<(String, ScriptValue)>, key: &str) -> (r: Option<&'a ScriptValue>)
    ensures
        match r {
            Some(v) => prop(script_props(props@), key@) == Some(v@),
            None => prop(script_props(props@), key@) is None,
        },
{
    let ghost all = script_props(props@);
    proof {
        lemma_props_len(props@);
        assert(all.skip(0) =~= all);
    }
    let mut i: usize = 0;
    while i < props.len()
        invariant
            i <= props@.len(),
            all == script_props(props@),
            all.len() == props@.len(),
            forall|j: int|
                0 <= j < all.len() ==> #[trigger] all[j] == (props@[j].0@, script(props@[j].1)),
            prop(all, key@) == prop(all.skip(i as int), key@),
        decreases props@.len() - i,
    {
        assert(all.skip(i as int)[0] == all[i as int]);
        assert(all.skip(i as int).drop_first() =~= all.skip(i + 1));
        if utils::same_text(props[i].0.as_str(), key) {
            return Some(&props[i].1);
        }
        i += 1;
    }
    None
}

impl ScriptValue {
    /// The first property with this name, of an object or an array.
    pub fn get(&self, key: &str) -> (r: Option<&ScriptValue>)
        ensures
            match r {
                Some(v) => self@.get(key@) == Some(v@),
                None => self@.get(key@) is None,
            },
    {
        match self {
            ScriptValue::Object(props) => find_prop(props, key),
            ScriptValue::Array { props, .. } => find_prop(props, key),
            _ => None,
        }
    }

    pub fn as_str(&self) -> (r: Option<&str>)
        ensures
            match r {
                Some(s) => self@.text() == Some(s@),
                None => self@.text() is None,
            },
    {
        match self {
            ScriptValue::String(s) => Some(s.as_str()),
            ScriptValue::StringObject(s) => Some(s.as_str()),
            _ => None,
        }
    }

    /// The number, however it was written.
    pub fn as_number(&self) -> (r: Option<ScriptNumber>)
        ensures
            r == self@.number(),
    {
        match self {
            ScriptValue::Int(n) => Some(ScriptNumber::Int(*n)),
            ScriptValue::Double(bits) => Some(ScriptNumber::Bits(*bits)),
            ScriptValue::NumberObject(bits) => Some(ScriptNumber::Bits(*bits)),
            _ => None,
        }
    }

    pub fn array_len(&self) -> (r: Option<u32>)
        ensures
            r == self@.claimed_len(),
    {
        match self {
            ScriptValue::Array { length, .. } => Some(*length),
            _ => None,
        }
    }

    /// The entry at a position. Positions are property names like any other,
    /// written in decimal.
    pub fn array_get(&self, index: u32) -> (r: Option<&ScriptValue>)
        ensures
            match r {
                Some(v) => self@.get(utils::decimal(index as nat)) == Some(v@),
                None => self@.get(utils::decimal(index as nat)) is None,
            },
    {
        let key = utils::decimal_text(index as u64);
        self.get(key.as_str())
    }
}

// ---------------------------------------------------------------------------
// How large a decoded value can be.

/// How many values a value is made of, itself included.
pub open spec fn nodes(v: Script) -> nat
    decreases v,
{
    match v {
        Script::Array { props, .. } => 1 + nodes_of_props(props),
        Script::Object(props) => 1 + nodes_of_props(props),
        Script::Mapping(entries) => 1 + nodes_of_pairs(entries),
        Script::Collection(entries) => 1 + nodes_of_list(entries),
        Script::TypedArray { buffer, .. } => 1 + nodes(*buffer),
        _ => 1,
    }
}

pub open spec fn nodes_of_props(s: Seq<(Seq<char>, Script)>) -> nat
    decreases s,
{
    if s.len() == 0 {
        0
    } else {
        nodes(s[0].1) + nodes_of_props(s.skip(1))
    }
}

pub open spec fn nodes_of_pairs(s: Seq<(Script, Script)>) -> nat
    decreases s,
{
    if s.len() == 0 {
        0
    } else {
        nodes(s[0].0) + nodes(s[0].1) + nodes_of_pairs(s.skip(1))
    }
}

pub open spec fn nodes_of_list(s: Seq<Script>) -> nat
    decreases s,
{
    if s.len() == 0 {
        0
    } else {
        nodes(s[0]) + nodes_of_list(s.skip(1))
    }
}

/// How many characters and buffer bytes a value holds, names included.
pub open spec fn extent(v: Script) -> nat
    decreases v,
{
    match v {
        Script::String(s) => s.len(),
        Script::StringObject(s) => s.len(),
        Script::Array { props, .. } => extent_of_props(props),
        Script::Object(props) => extent_of_props(props),
        Script::Mapping(entries) => extent_of_pairs(entries),
        Script::Collection(entries) => extent_of_list(entries),
        Script::TypedArray { buffer, .. } => extent(*buffer),
        Script::ArrayBuffer(bytes) => bytes.len(),
        _ => 0,
    }
}

pub open spec fn extent_of_props(s: Seq<(Seq<char>, Script)>) -> nat
    decreases s,
{
    if s.len() == 0 {
        0
    } else {
        s[0].0.len() + extent(s[0].1) + extent_of_props(s.skip(1))
    }
}

pub open spec fn extent_of_pairs(s: Seq<(Script, Script)>) -> nat
    decreases s,
{
    if s.len() == 0 {
        0
    } else {
        extent(s[0].0) + extent(s[0].1) + extent_of_pairs(s.skip(1))
    }
}

pub open spec fn extent_of_list(s: Seq<Script>) -> nat
    decreases s,
{
    if s.len() == 0 {
        0
    } else {
        extent(s[0]) + extent_of_list(s.skip(1))
    }
}

/// Naming an earlier value costs at least what it is, and nothing is in the
/// tree that was not charged.
spec fn priced(st: Progress) -> bool {
    &&& 0 <= st.pos
    &&& st.tree.nodes <= st.spent.nodes <= MAX_NODES
    &&& st.tree.bytes <= st.spent.bytes <= MAX_BYTES
    &&& forall|i: int|
        0 <= i < st.refs.len() ==> (#[trigger] st.refs[i] matches Some((v, cost)) ==> nodes(v)
            <= cost.nodes && extent(v) <= cost.bytes)
}

/// What was decoded between two points costs at least what it is.
spec fn paid(from: Progress, to: Progress, n: nat, size: nat) -> bool {
    &&& priced(to)
    &&& from.refs.len() <= to.refs.len()
    &&& from.tree.nodes + n <= to.tree.nodes
    &&& from.tree.bytes + size <= to.tree.bytes
}

proof fn lemma_utf16_text_len(units: Seq<u16>)
    ensures
        utils::utf16_text(units).len() <= units.len(),
    decreases units.len(),
{
    if units.len() > 0 {
        lemma_utf16_text_len(
            units.skip(
                if utils::pair_first(units) {
                    2
                } else {
                    1
                },
            ),
        );
    }
}

proof fn lemma_string_paid(b: Seq<u8>, st: Progress)
    requires
        priced(st),
    ensures
        next_string(b, st) matches Ok((s, to)) ==> paid(st, to, 0, s.len()),
{
    if let Ok((flag, st1)) = next_u8(b, st) {
        if let Ok((len, st2)) = next_u32(b, st1) {
            let size = if flag != 0 {
                len as nat
            } else {
                2 * len as nat
            };
            if let Ok((bytes, _)) = next_bytes(b, st2, size as int) {
                lemma_utf16_text_len(utils::le_units(bytes));
            }
        }
    }
}

proof fn lemma_simple_paid(b: Seq<u8>, st: Progress, tag: u8)
    requires
        priced(st),
    ensures
        simple(b, st, tag) matches Ok((v, to)) ==> paid(st, to, (nodes(v) - 1) as nat, extent(v)),
        simple(b, st, tag) matches Ok((v, _)) ==> nodes(v) >= 1,
{
    lemma_string_paid(b, st);
    if let Ok((n, st1)) = next_u32(b, st) {
        if 1 <= n <= st1.refs.len() && st1.refs[n - 1] is Some {
            let (v, cost) = st1.refs[n - 1]->0;
            assert(nodes(v) <= cost.nodes && extent(v) <= cost.bytes);
        }
    }
}

proof fn lemma_value_paid(b: Seq<u8>, st: Progress, depth: nat)
    requires
        priced(st),
    ensures
        next_value(b, st, depth) matches Ok((v, to)) ==> paid(st, to, nodes(v), extent(v)),
    decreases 65 - depth, 1nat, 0nat,
{
    if depth <= MAX_DEPTH {
        if let Ok(st1) = charged(st, Weight { nodes: 1, bytes: 0 }) {
            if let Ok((tag, st2)) = next_u8(b, st1) {
                lemma_payload_paid(b, reserved(st2), tag, depth);
                if let Ok((v, after)) = payload(b, reserved(st2), tag, depth) {
                    assert(nodes(v) >= 1);
                    if let Ok((_, to)) = completed(after, st.tree, st2.refs.len() as int, v) {
                        assert(paid(st, to, nodes(v), extent(v)));
                    }
                }
                lemma_simple_paid(b, st2, tag);
            }
        }
    }
}

proof fn lemma_payload_paid(b: Seq<u8>, st: Progress, tag: u8, depth: nat)
    requires
        priced(st),
    ensures
        payload(b, st, tag, depth) matches Ok((v, to)) ==> paid(
            st,
            to,
            (nodes(v) - 1) as nat,
            extent(v),
        ),
    decreases 65 - depth, 0nat, 0x1_0000_0000nat,
{
    if depth <= MAX_DEPTH {
        if let Ok((n, st1)) = next_u32(b, st) {
            lemma_props_paid(b, st1, n as nat, depth);
            lemma_pairs_paid(b, st1, n as nat, depth);
            lemma_list_paid(b, st1, n as nat, depth);
            if let Ok((m, st2)) = next_u32(b, st1) {
                lemma_props_paid(b, st2, m as nat, depth);
            }
        }
        if let Ok((_, st1)) = next_u8(b, st) {
            if let Ok((_, st2)) = next_u32(b, st1) {
                if let Ok((_, st3)) = next_u32(b, st2) {
                    lemma_value_paid(b, st3, depth + 1);
                }
            }
        }
    }
}

proof fn lemma_props_paid(b: Seq<u8>, st: Progress, n: nat, depth: nat)
    requires
        priced(st),
    ensures
        next_props(b, st, n, depth) matches Ok((s, to)) ==> paid(
            st,
            to,
            nodes_of_props(s),
            extent_of_props(s),
        ),
    decreases 65 - depth, 0nat, n,
{
    if n > 0 && depth <= MAX_DEPTH {
        lemma_string_paid(b, st);
        if let Ok((key, st1)) = next_string(b, st) {
            lemma_value_paid(b, st1, depth + 1);
            if let Ok((value, st2)) = next_value(b, st1, depth + 1) {
                lemma_props_paid(b, st2, (n - 1) as nat, depth);
                if let Ok((rest, _)) = next_props(b, st2, (n - 1) as nat, depth) {
                    assert((seq![(key, value)] + rest).skip(1) =~= rest);
                }
            }
        }
    }
}

proof fn lemma_pairs_paid(b: Seq<u8>, st: Progress, n: nat, depth: nat)
    requires
        priced(st),
    ensures
        next_pairs(b, st, n, depth) matches Ok((s, to)) ==> paid(
            st,
            to,
            nodes_of_pairs(s),
            extent_of_pairs(s),
        ),
    decreases 65 - depth, 0nat, n,
{
    if n > 0 && depth <= MAX_DEPTH {
        lemma_value_paid(b, st, depth + 1);
        if let Ok((key, st1)) = next_value(b, st, depth + 1) {
            lemma_value_paid(b, st1, depth + 1);
            if let Ok((value, st2)) = next_value(b, st1, depth + 1) {
                lemma_pairs_paid(b, st2, (n - 1) as nat, depth);
                if let Ok((rest, _)) = next_pairs(b, st2, (n - 1) as nat, depth) {
                    assert((seq![(key, value)] + rest).skip(1) =~= rest);
                }
            }
        }
    }
}

proof fn lemma_list_paid(b: Seq<u8>, st: Progress, n: nat, depth: nat)
    requires
        priced(st),
    ensures
        next_list(b, st, n, depth) matches Ok((s, to)) ==> paid(
            st,
            to,
            nodes_of_list(s),
            extent_of_list(s),
        ),
    decreases 65 - depth, 0nat, n,
{
    if n > 0 && depth <= MAX_DEPTH {
        lemma_value_paid(b, st, depth + 1);
        if let Ok((value, st1)) = next_value(b, st, depth + 1) {
            lemma_list_paid(b, st1, (n - 1) as nat, depth);
            if let Ok((rest, _)) = next_list(b, st1, (n - 1) as nat, depth) {
                assert((seq![value] + rest).skip(1) =~= rest);
            }
        }
    }
}

/// However small the packet, what it decodes to stays within the bounds:
/// naming earlier values again cannot make it larger.
pub proof fn decoded_is_bounded(b: Seq<u8>)
    ensures
        decoded(b) matches Ok(v) ==> nodes(v) <= MAX_NODES && extent(v) <= MAX_BYTES,
{
    lemma_value_paid(b, fresh(), 0);
}

/// Whether a reading of the data up to `q` is the reading of all of it, as far
/// as that comes, and lacks bytes where it comes further.
spec fn cut_short<T>(whole: Step<T>, part: Step<T>, st: Progress, len: int, q: int) -> bool {
    &&& whole matches Ok((_, to)) ==> {
        &&& st.pos <= to.pos <= len
        &&& part == if to.pos <= q {
            whole
        } else {
            Err(ScriptValueError::Truncated)
        }
    }
    &&& part is Ok ==> whole == part
}

proof fn lemma_string_cut(b: Seq<u8>, st: Progress, q: int)
    requires
        0 <= st.pos <= q <= b.len(),
    ensures
        cut_short(next_string(b, st), next_string(b.take(q), st), st, b.len() as int, q),
{
    if let Ok((flag, st1)) = next_u8(b, st) {
        if let Ok((len, st2)) = next_u32(b, st1) {
            let size = if flag != 0 {
                len as int
            } else {
                2 * len
            };
            if st2.pos + size <= q {
                assert(b.take(q).subrange(st2.pos, st2.pos + size) =~= b.subrange(
                    st2.pos,
                    st2.pos + size,
                ));
            }
        }
    }
}

proof fn lemma_simple_cut(b: Seq<u8>, st: Progress, tag: u8, q: int)
    requires
        0 <= st.pos <= q <= b.len(),
    ensures
        cut_short(simple(b, st, tag), simple(b.take(q), st, tag), st, b.len() as int, q),
{
    lemma_string_cut(b, st, q);
}

proof fn lemma_value_cut(b: Seq<u8>, st: Progress, depth: nat, q: int)
    requires
        0 <= st.pos <= q <= b.len(),
    ensures
        cut_short(next_value(b, st, depth), next_value(b.take(q), st, depth), st, b.len() as int, q),
    decreases 65 - depth, 1nat, 0nat,
{
    if depth <= MAX_DEPTH {
        if let Ok(st1) = charged(st, Weight { nodes: 1, bytes: 0 }) {
            if let Ok((tag, st2)) = next_u8(b, st1) {
                let q1 = reach(b, st2, q);
                lemma_payload_cut(b, reserved(st2), tag, depth, q1);
                lemma_simple_cut(b, st2, tag, q1);
            }
        }
    }
}

proof fn lemma_payload_cut(b: Seq<u8>, st: Progress, tag: u8, depth: nat, q: int)
    requires
        0 <= st.pos <= q <= b.len(),
    ensures
        cut_short(
            payload(b, st, tag, depth),
            payload(b.take(q), st, tag, depth),
            st,
            b.len() as int,
            q,
        ),
    decreases 65 - depth, 0nat, 0x1_0000_0001nat,
{
    if depth <= MAX_DEPTH {
        if tag == TAG_ARRAY {
            lemma_array_cut(b, st, tag, depth, q);
        } else if tag == TAG_TYPED_ARRAY {
            lemma_typed_array_cut(b, st, tag, depth, q);
        } else {
            lemma_counted_cut(b, st, tag, depth, q);
        }
    }
}

#[verifier::rlimit(40)]
#[verifier::spinoff_prover]
proof fn lemma_array_cut(b: Seq<u8>, st: Progress, tag: u8, depth: nat, q: int)
    requires
        0 <= st.pos <= q <= b.len(),
        depth <= MAX_DEPTH,
        tag == TAG_ARRAY,
    ensures
        cut_short(
            payload(b, st, tag, depth),
            payload(b.take(q), st, tag, depth),
            st,
            b.len() as int,
            q,
        ),
    decreases 65 - depth, 0nat, 0x1_0000_0000nat,
{
    if let Ok((_, st1)) = next_u32(b, st) {
        if let Ok((m, st2)) = next_u32(b, st1) {
            lemma_props_cut(b, st2, m as nat, depth, reach(b, st2, q));
        }
    }
}

#[verifier::rlimit(40)]
#[verifier::spinoff_prover]
proof fn lemma_typed_array_cut(b: Seq<u8>, st: Progress, tag: u8, depth: nat, q: int)
    requires
        0 <= st.pos <= q <= b.len(),
        depth <= MAX_DEPTH,
        tag == TAG_TYPED_ARRAY,
    ensures
        cut_short(
            payload(b, st, tag, depth),
            payload(b.take(q), st, tag, depth),
            st,
            b.len() as int,
            q,
        ),
    decreases 65 - depth, 0nat, 0x1_0000_0000nat,
{
    if let Ok((_, st1)) = next_u8(b, st) {
        if let Ok((_, st2)) = next_u32(b, st1) {
            if let Ok((_, st3)) = next_u32(b, st2) {
                lemma_value_cut(b, st3, depth + 1, reach(b, st3, q));
            }
        }
    }
}

#[verifier::rlimit(40)]
#[verifier::spinoff_prover]
proof fn lemma_counted_cut(b: Seq<u8>, st: Progress, tag: u8, depth: nat, q: int)
    requires
        0 <= st.pos <= q <= b.len(),
        depth <= MAX_DEPTH,
        tag != TAG_ARRAY,
        tag != TAG_TYPED_ARRAY,
    ensures
        cut_short(
            payload(b, st, tag, depth),
            payload(b.take(q), st, tag, depth),
            st,
            b.len() as int,
            q,
        ),
    decreases 65 - depth, 0nat, 0x1_0000_0000nat,
{
    if let Ok((n, st1)) = next_u32(b, st) {
        let q1 = reach(b, st1, q);
        if tag == TAG_OBJECT {
            lemma_props_cut(b, st1, n as nat, depth, q1);
        } else if tag == TAG_ARRAY_BUFFER {
            if st1.pos + n <= q {
                assert(b.take(q).subrange(st1.pos, st1.pos + n) =~= b.subrange(
                    st1.pos,
                    st1.pos + n,
                ));
            }
        } else if tag == TAG_OBJECT_MAP {
            lemma_pairs_cut(b, st1, n as nat, depth, q1);
        } else {
            lemma_list_cut(b, st1, n as nat, depth, q1);
        }
    }
}

/// Where data ends that reaches as far as a decoding has come.
spec fn reach(b: Seq<u8>, st: Progress, q: int) -> int {
    if st.pos <= q {
        q
    } else {
        b.len() as int
    }
}

proof fn lemma_props_cut(b: Seq<u8>, st: Progress, n: nat, depth: nat, q: int)
    requires
        0 <= st.pos <= q <= b.len(),
    ensures
        cut_short(
            next_props(b, st, n, depth),
            next_props(b.take(q), st, n, depth),
            st,
            b.len() as int,
            q,
        ),
    decreases 65 - depth, 0nat, n,
{
    if n > 0 && depth <= MAX_DEPTH {
        lemma_string_cut(b, st, q);
        if let Ok((_, st1)) = next_string(b, st) {
            lemma_value_cut(b, st1, depth + 1, reach(b, st1, q));
            if let Ok((_, st2)) = next_value(b, st1, depth + 1) {
                lemma_props_cut(b, st2, (n - 1) as nat, depth, reach(b, st2, q));
            }
        }
    }
}

proof fn lemma_pairs_cut(b: Seq<u8>, st: Progress, n: nat, depth: nat, q: int)
    requires
        0 <= st.pos <= q <= b.len(),
    ensures
        cut_short(
            next_pairs(b, st, n, depth),
            next_pairs(b.take(q), st, n, depth),
            st,
            b.len() as int,
            q,
        ),
    decreases 65 - depth, 0nat, n,
{
    if n > 0 && depth <= MAX_DEPTH {
        lemma_value_cut(b, st, depth + 1, q);
        if let Ok((_, st1)) = next_value(b, st, depth + 1) {
            lemma_value_cut(b, st1, depth + 1, reach(b, st1, q));
            if let Ok((_, st2)) = next_value(b, st1, depth + 1) {
                lemma_pairs_cut(b, st2, (n - 1) as nat, depth, reach(b, st2, q));
            }
        }
    }
}

proof fn lemma_list_cut(b: Seq<u8>, st: Progress, n: nat, depth: nat, q: int)
    requires
        0 <= st.pos <= q <= b.len(),
    ensures
        cut_short(
            next_list(b, st, n, depth),
            next_list(b.take(q), st, n, depth),
            st,
            b.len() as int,
            q,
        ),
    decreases 65 - depth, 0nat, n,
{
    if n > 0 && depth <= MAX_DEPTH {
        lemma_value_cut(b, st, depth + 1, q);
        if let Ok((_, st1)) = next_value(b, st, depth + 1) {
            lemma_list_cut(b, st1, (n - 1) as nat, depth, reach(b, st1, q));
        }
    }
}

/// A value fills its packet exactly: whatever follows it is too much, by as
/// many bytes as there are, and no shorter part of it is all there.
pub proof fn values_fill_their_packet(b: Seq<u8>, more: Seq<u8>, q: int)
    requires
        decoded(b) is Ok,
        0 < more.len() <= usize::MAX,
        0 <= q < b.len(),
    ensures
        decoded(b + more) == Err::<Script, _>(
            ScriptValueError::TrailingBytes(more.len() as usize),
        ),
        decoded(b.take(q)) == Err::<Script, _>(ScriptValueError::Truncated),
{
    lemma_value_cut(b, fresh(), 0, q);
    lemma_value_cut(b + more, fresh(), 0, b.len() as int);
    assert((b + more).take(b.len() as int) =~= b);
}

} // verus!
