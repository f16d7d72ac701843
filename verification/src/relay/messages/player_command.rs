use vstd::prelude::*;

use crate::relay::fault::ParseError;
use crate::utils;

verus! {

/// A player's command for a turn. Its own fields are little-endian, as the
/// simulation writes them.
#[derive(Debug, PartialEq)]
pub struct PlayerCommand {
    pub client: u32,
    pub player: i32,
    pub turn: u32,
    pub data: Vec<u8>,
}

/// What [`PlayerCommand`] says.
pub struct PlayerCommandView {
    pub client: u32,
    pub player: i32,
    pub turn: u32,
    pub data: Seq<u8>,
}

impl View for PlayerCommand {
    type V = PlayerCommandView;

    open spec fn view(&self) -> PlayerCommandView {
        PlayerCommandView {
            client: self.client,
            player: self.player,
            turn: self.turn,
            data: self.data@,
        }
    }
}

impl PlayerCommandView {
    /// The bytes on the wire.
    pub open spec fn bytes(self) -> Seq<u8> {
        utils::le32_bytes(self.client) + utils::le32_bytes(utils::i32_word(self.player)) + utils::le32_bytes(self.turn) + self.data
    }

    /// Whether the wire can carry it: what reads back is what was written.
    pub open spec fn fits(self) -> bool {
        true
    }

    /// What a body holds; the data runs to its end.
    pub open spec fn parse(b: Seq<u8>) -> Result<PlayerCommandView, ParseError> {
        match utils::le_u32_at(b, 0, "client") {
            Err(e) => Err(e),
            Ok((client, p1)) => match utils::le_u32_at(b, p1, "player") {
                Err(e) => Err(e),
                Ok((player, p2)) => match utils::le_u32_at(b, p2, "turn") {
                    Err(e) => Err(e),
                    Ok((turn, p3)) => {
                        let data = b.skip(p3);
                        Ok(PlayerCommandView { client, player: utils::word_i32(player), turn, data })
                    },
                },
            },
        }
    }

    /// A body reads back as it was written.
    pub proof fn round_trip(self)
        requires
            self.fits(),
        ensures
            Self::parse(self.bytes()) == Ok::<PlayerCommandView, ParseError>(self),
    {
        let b = self.bytes();
        let e0 = utils::le32_bytes(self.client);
        let e1 = utils::le32_bytes(utils::i32_word(self.player));
        let e2 = utils::le32_bytes(self.turn);
        let e3 = self.data;
        let p0 = 0int;
        let p1 = p0 + e0.len();
        let p2 = p1 + e1.len();
        let p3 = p2 + e2.len();
        assert(utils::le_u32_at(b, p0, "client") == Ok::<_, ParseError>((self.client, p0 + e0.len()))) by {
            assert(self.bytes() =~= Seq::<u8>::empty() + e0 + (e1 + e2 + e3));
            utils::lemma_occurs(Seq::<u8>::empty(), e0, e1 + e2 + e3);
            utils::lemma_le32(b, p0, self.client);
        }
        assert(utils::le_u32_at(b, p1, "player") == Ok::<_, ParseError>((utils::i32_word(self.player), p1 + e1.len()))) by {
            assert(self.bytes() =~= e0 + e1 + (e2 + e3));
            utils::lemma_occurs(e0, e1, e2 + e3);
            utils::lemma_le32(b, p1, utils::i32_word(self.player));
        }
        assert(utils::le_u32_at(b, p2, "turn") == Ok::<_, ParseError>((self.turn, p2 + e2.len()))) by {
            assert(self.bytes() =~= e0 + e1 + e2 + e3);
            utils::lemma_occurs(e0 + e1, e2, e3);
            utils::lemma_le32(b, p2, self.turn);
        }
        assert(b.skip(p3) == self.data) by {
            assert(self.bytes() =~= e0 + e1 + e2 + e3 + Seq::<u8>::empty());
            assert(b.skip(p3) =~= e3);
        }
    }
}

impl Clone for PlayerCommand {
    fn clone(&self) -> (r: Self)
        ensures
            r@ == self@,
    {
        PlayerCommand {
            client: self.client,
            player: self.player,
            turn: self.turn,
            data: vstd::slice::slice_to_vec(self.data.as_slice()),
        }
    }
}

impl PlayerCommand {
    /// Appends the bytes on the wire.
    pub fn write(&self, out: &mut Vec<u8>)
        ensures
            final(out)@ == old(out)@ + self@.bytes(),
    {
        utils::put_le32(out, self.client);
        utils::put_le32(out, utils::i32_to_word(self.player));
        utils::put_le32(out, self.turn);
        utils::put_bytes(out, self.data.as_slice());
        assert(out@ =~= old(out)@ + self@.bytes());
    }

    pub fn to_bytes(&self) -> (r: Vec<u8>)
        ensures
            r@ == self@.bytes(),
    {
        let mut bytes: Vec<u8> = Vec::new();
        self.write(&mut bytes);
        assert(bytes@ =~= self@.bytes());
        bytes
    }

    pub fn from_bytes(buffer: &[u8]) -> (r: Result<Self, ParseError>)
        ensures
            utils::viewed(r) == PlayerCommandView::parse(buffer@),
    {
        let (client, pos) = utils::get_le_u32(buffer, 0, "client")?;
        let (player, pos) = utils::get_le_u32(buffer, pos, "player")?;
        let (turn, pos) = utils::get_le_u32(buffer, pos, "turn")?;
        let data = vstd::slice::slice_to_vec(utils::tail(buffer, pos));
        Ok(PlayerCommand { client, player: utils::word_to_i32(player), turn, data })
    }
}

// ---------------------------------------------------------------------------
// Looking into a command. Its data is a script value; only the command's
// "type" property is of interest, so everything else is skipped unread.

pub const SCRIPT_TYPE_VOID: u8 = 0x00;
pub const SCRIPT_TYPE_NULL: u8 = 0x01;
pub const SCRIPT_TYPE_ARRAY: u8 = 0x02;
pub const SCRIPT_TYPE_OBJECT: u8 = 0x03;
pub const SCRIPT_TYPE_STRING: u8 = 0x04;
pub const SCRIPT_TYPE_INT: u8 = 0x05;
pub const SCRIPT_TYPE_DOUBLE: u8 = 0x06;
pub const SCRIPT_TYPE_BOOLEAN: u8 = 0x07;
pub const SCRIPT_TYPE_BACKREF: u8 = 0x08;
pub const SCRIPT_TYPE_TYPED_ARRAY: u8 = 0x09;
pub const SCRIPT_TYPE_ARRAY_BUFFER: u8 = 0x0a;
pub const SCRIPT_TYPE_OBJECT_PROTOTYPE: u8 = 0x0b;
pub const SCRIPT_TYPE_OBJECT_NUMBER: u8 = 0x0c;
pub const SCRIPT_TYPE_OBJECT_STRING: u8 = 0x0d;
pub const SCRIPT_TYPE_OBJECT_BOOLEAN: u8 = 0x0e;
pub const SCRIPT_TYPE_OBJECT_MAP: u8 = 0x0f;
pub const SCRIPT_TYPE_OBJECT_SET: u8 = 0x10;

/// Commands come from any player, and a stack overflow would take the whole
/// process down, so a deeply nested packet is refused before it recurses that
/// far. Real commands nest only a few levels.
pub const MAX_SKIP_DEPTH: usize = 64;

/// A little-endian number at `pos`, and where it ends.
pub open spec fn script_u32_at(b: Seq<u8>, pos: int) -> Option<(u32, int)> {
    if pos + 4 > b.len() {
        None
    } else {
        Some((utils::le32_at(b, pos), pos + 4))
    }
}

/// A string at `pos`, and where it ends: a flag that is not zero where each
/// character is one byte, the length in characters, and the characters.
pub open spec fn script_string_at(b: Seq<u8>, pos: int) -> Option<(Seq<char>, int)> {
    if pos >= b.len() {
        None
    } else {
        match script_u32_at(b, pos + 1) {
            None => None,
            Some((len, start)) => {
                let end = start + if b[pos] != 0 {
                    len as int
                } else {
                    2 * len
                };
                if end > b.len() {
                    None
                } else {
                    Some((utils::script_text(b[pos] != 0, b.subrange(start, end)), end))
                }
            },
        }
    }
}

/// Where the value at `pos` ends; none where it is malformed, of an unknown
/// type, or nested too deep.
pub open spec fn value_end(b: Seq<u8>, pos: int, depth: nat) -> Option<int>
    decreases 65 - depth, 1nat, 0nat,
{
    if depth > MAX_SKIP_DEPTH || pos >= b.len() {
        None
    } else {
        let tag = b[pos];
        let start = pos + 1;
        if tag == SCRIPT_TYPE_VOID || tag == SCRIPT_TYPE_NULL {
            Some(start)
        } else if tag == SCRIPT_TYPE_BOOLEAN || tag == SCRIPT_TYPE_OBJECT_BOOLEAN {
            fixed_end(b, start, 1)
        } else if tag == SCRIPT_TYPE_INT || tag == SCRIPT_TYPE_BACKREF {
            fixed_end(b, start, 4)
        } else if tag == SCRIPT_TYPE_DOUBLE || tag == SCRIPT_TYPE_OBJECT_NUMBER {
            fixed_end(b, start, 8)
        } else if tag == SCRIPT_TYPE_STRING || tag == SCRIPT_TYPE_OBJECT_STRING {
            match script_string_at(b, start) {
                None => None,
                Some((_, end)) => Some(end),
            }
        } else if tag == SCRIPT_TYPE_OBJECT {
            match script_u32_at(b, start) {
                None => None,
                Some((n, p)) => props_end(b, p, n as nat, depth),
            }
        } else if tag == SCRIPT_TYPE_OBJECT_PROTOTYPE {
            // The name of the prototype comes before what an object holds.
            match script_string_at(b, start) {
                None => None,
                Some((_, q)) => match script_u32_at(b, q) {
                    None => None,
                    Some((n, p)) => props_end(b, p, n as nat, depth),
                },
            }
        } else if tag == SCRIPT_TYPE_ARRAY {
            // The script's length comes before the properties, which are the
            // elements by their index.
            match script_u32_at(b, start) {
                None => None,
                Some((_, q)) => match script_u32_at(b, q) {
                    None => None,
                    Some((n, p)) => props_end(b, p, n as nat, depth),
                },
            }
        } else if tag == SCRIPT_TYPE_TYPED_ARRAY {
            // The element type, the offset and the length come before the
            // buffer.
            match fixed_end(b, start, 9) {
                None => None,
                Some(p) => value_end(b, p, depth + 1),
            }
        } else if tag == SCRIPT_TYPE_ARRAY_BUFFER {
            match script_u32_at(b, start) {
                None => None,
                Some((n, p)) => fixed_end(b, p, n as int),
            }
        } else if tag == SCRIPT_TYPE_OBJECT_MAP {
            match script_u32_at(b, start) {
                None => None,
                Some((n, p)) => values_end(b, p, 2 * n as nat, depth),
            }
        } else if tag == SCRIPT_TYPE_OBJECT_SET {
            match script_u32_at(b, start) {
                None => None,
                Some((n, p)) => values_end(b, p, n as nat, depth),
            }
        } else {
            None
        }
    }
}

/// Where `size` bytes end, if they are there.
pub open spec fn fixed_end(b: Seq<u8>, pos: int, size: int) -> Option<int> {
    if pos + size > b.len() {
        None
    } else {
        Some(pos + size)
    }
}

/// Where `n` properties end: each a name and a value one level deeper.
pub open spec fn props_end(b: Seq<u8>, pos: int, n: nat, depth: nat) -> Option<int>
    decreases 65 - depth, 0nat, n,
{
    if n == 0 {
        Some(pos)
    } else if depth > MAX_SKIP_DEPTH {
        None
    } else {
        match script_string_at(b, pos) {
            None => None,
            Some((_, p)) => match value_end(b, p, depth + 1) {
                None => None,
                Some(q) => props_end(b, q, (n - 1) as nat, depth),
            },
        }
    }
}

/// Where `n` values one level deeper end.
pub open spec fn values_end(b: Seq<u8>, pos: int, n: nat, depth: nat) -> Option<int>
    decreases 65 - depth, 0nat, n,
{
    if n == 0 {
        Some(pos)
    } else if depth > MAX_SKIP_DEPTH {
        None
    } else {
        match value_end(b, pos, depth + 1) {
            None => None,
            Some(q) => values_end(b, q, (n - 1) as nat, depth),
        }
    }
}

/// The "type" among `n` properties from `pos` on. Whatever stands before it
/// must be well-formed, and it must be a plain string.
pub open spec fn type_among(b: Seq<u8>, pos: int, n: nat) -> Option<Seq<char>>
    decreases n,
{
    if n == 0 {
        None
    } else {
        match script_string_at(b, pos) {
            None => None,
            Some((name, p)) => if name == "type"@ {
                if p < b.len() && b[p] == SCRIPT_TYPE_STRING {
                    match script_string_at(b, p + 1) {
                        None => None,
                        Some((text, _)) => Some(text),
                    }
                } else {
                    None
                }
            } else {
                match value_end(b, p, 0) {
                    None => None,
                    Some(q) => type_among(b, q, (n - 1) as nat),
                }
            },
        }
    }
}

/// The type of a command: the "type" property of the object it is.
pub open spec fn command_type(b: Seq<u8>) -> Option<Seq<char>> {
    if b.len() == 0 || b[0] != SCRIPT_TYPE_OBJECT {
        None
    } else {
        match script_u32_at(b, 1) {
            None => None,
            Some((n, p)) => type_among(b, p, n as nat),
        }
    }
}

/// The number at `pos`, which moves past it. Where there is none, `pos` stays.
pub fn read_u32(data: &[u8], pos: &mut usize) -> (r: Option<u32>)
    ensures
        match r {
            Some(x) => script_u32_at(data@, *old(pos) as int) == Some((x, *final(pos) as int)),
            None => script_u32_at(data@, *old(pos) as int) is None && *final(pos) == *old(pos),
        },
        r is Some ==> *final(pos) <= data@.len(),
{
    if *pos > data.len() || data.len() - *pos < 4 {
        return None;
    }
    let at: usize = *pos;
    let x: u32 = data[at] as u32 + data[at + 1] as u32 * 0x100 + data[at + 2] as u32 * 0x1_0000
        + data[at + 3] as u32 * 0x100_0000;
    *pos = at + 4;
    Some(x)
}

/// Where reading a string at `pos` stops that is not all there: before the
/// flag, before the length or before the characters.
pub open spec fn string_stop(b: Seq<u8>, pos: int) -> int {
    if pos >= b.len() {
        pos
    } else {
        match script_u32_at(b, pos + 1) {
            None => pos + 1,
            Some((_, start)) => start,
        }
    }
}

/// The string at `pos`, and where it ends, which `pos` moves to. Where there is
/// none, `pos` moves to what is not there.
pub fn read_script_string(data: &[u8], pos: &mut usize) -> (r: Option<(String, usize)>)
    ensures
        match r {
            Some((s, end)) => {
                &&& script_string_at(data@, *old(pos) as int) == Some((s@, end as int))
                &&& *final(pos) == end
                &&& end <= data@.len()
            },
            None => {
                &&& script_string_at(data@, *old(pos) as int) is None
                &&& *final(pos) == string_stop(data@, *old(pos) as int)
            },
        },
{
    let start: usize = *pos;
    if start >= data.len() {
        return None;
    }
    let latin1 = data[start] != 0;
    *pos = start + 1;
    let len: u32 = match read_u32(data, pos) {
        Some(len) => len,
        None => return None,
    };
    let size: u64 = if latin1 {
        len as u64
    } else {
        len as u64 * 2
    };
    let at: usize = *pos;
    if size > (data.len() - at) as u64 {
        return None;
    }
    let end: usize = at + size as usize;
    let text = utils::decode_script_text(latin1, vstd::slice::slice_subrange(data, at, end));
    *pos = end;
    Some((text, end))
}

fn skip_fixed(data: &[u8], pos: usize, size: usize) -> (r: Option<usize>)
    requires
        pos <= data@.len(),
    ensures
        match r {
            Some(end) => fixed_end(data@, pos as int, size as int) == Some(end as int) && end
                <= data@.len(),
            None => fixed_end(data@, pos as int, size as int) is None,
        },
{
    if data.len() - pos < size {
        None
    } else {
        Some(pos + size)
    }
}

fn skip_props(data: &[u8], pos: usize, n: u32, depth: usize) -> (r: Option<usize>)
    requires
        pos <= data@.len(),
        depth <= MAX_SKIP_DEPTH,
    ensures
        match r {
            Some(end) => props_end(data@, pos as int, n as nat, depth as nat) == Some(end as int)
                && end <= data@.len(),
            None => props_end(data@, pos as int, n as nat, depth as nat) is None,
        },
    decreases 65 - depth, 0nat,
{
    let mut at: usize = pos;
    let mut left: u32 = n;
    while left > 0
        invariant
            at <= data@.len(),
            depth <= MAX_SKIP_DEPTH,
            props_end(data@, pos as int, n as nat, depth as nat) == props_end(
                data@,
                at as int,
                left as nat,
                depth as nat,
            ),
        decreases left,
    {
        let _ = read_script_string(data, &mut at)?;
        at = skip_script_val(data, at, depth + 1)?;
        left -= 1;
    }
    Some(at)
}

fn skip_values(data: &[u8], pos: usize, n: u64, depth: usize) -> (r: Option<usize>)
    requires
        pos <= data@.len(),
        depth <= MAX_SKIP_DEPTH,
    ensures
        match r {
            Some(end) => values_end(data@, pos as int, n as nat, depth as nat) == Some(end as int)
                && end <= data@.len(),
            None => values_end(data@, pos as int, n as nat, depth as nat) is None,
        },
    decreases 65 - depth, 0nat,
{
    let mut at: usize = pos;
    let mut left: u64 = n;
    while left > 0
        invariant
            at <= data@.len(),
            depth <= MAX_SKIP_DEPTH,
            values_end(data@, pos as int, n as nat, depth as nat) == values_end(
                data@,
                at as int,
                left as nat,
                depth as nat,
            ),
        decreases left,
    {
        at = skip_script_val(data, at, depth + 1)?;
        left -= 1;
    }
    Some(at)
}

/// Where the value at `pos` ends.
pub fn skip_script_val(data: &[u8], pos: usize, depth: usize) -> (r: Option<usize>)
    ensures
        match r {
            Some(end) => value_end(data@, pos as int, depth as nat) == Some(end as int) && end
                <= data@.len(),
            None => value_end(data@, pos as int, depth as nat) is None,
        },
    decreases 65 - depth, 1nat,
{
    if depth > MAX_SKIP_DEPTH || pos >= data.len() {
        return None;
    }
    let tag: u8 = data[pos];
    let mut at: usize = pos + 1;
    match tag {
        SCRIPT_TYPE_VOID | SCRIPT_TYPE_NULL => Some(at),
        SCRIPT_TYPE_BOOLEAN | SCRIPT_TYPE_OBJECT_BOOLEAN => skip_fixed(data, at, 1),
        SCRIPT_TYPE_INT | SCRIPT_TYPE_BACKREF => skip_fixed(data, at, 4),
        SCRIPT_TYPE_DOUBLE | SCRIPT_TYPE_OBJECT_NUMBER => skip_fixed(data, at, 8),
        SCRIPT_TYPE_STRING | SCRIPT_TYPE_OBJECT_STRING => {
            let (_, end) = read_script_string(data, &mut at)?;
            Some(end)
        },
        SCRIPT_TYPE_OBJECT => {
            let n: u32 = read_u32(data, &mut at)?;
            skip_props(data, at, n, depth)
        },
        SCRIPT_TYPE_OBJECT_PROTOTYPE => {
            let _ = read_script_string(data, &mut at)?;
            let n: u32 = read_u32(data, &mut at)?;
            skip_props(data, at, n, depth)
        },
        SCRIPT_TYPE_ARRAY => {
            let _ = read_u32(data, &mut at)?;
            let n: u32 = read_u32(data, &mut at)?;
            skip_props(data, at, n, depth)
        },
        SCRIPT_TYPE_TYPED_ARRAY => {
            let buffer: usize = skip_fixed(data, at, 9)?;
            skip_script_val(data, buffer, depth + 1)
        },
        SCRIPT_TYPE_ARRAY_BUFFER => {
            let n: u32 = read_u32(data, &mut at)?;
            skip_fixed(data, at, n as usize)
        },
        SCRIPT_TYPE_OBJECT_MAP => {
            let n: u32 = read_u32(data, &mut at)?;
            skip_values(data, at, n as u64 * 2, depth)
        },
        SCRIPT_TYPE_OBJECT_SET => {
            let n: u32 = read_u32(data, &mut at)?;
            skip_values(data, at, n as u64, depth)
        },
        _ => None,
    }
}

/// What is there of a reading once the data ends at `q`.
spec fn within(end: Option<int>, q: int) -> Option<int> {
    match end {
        Some(e) if e <= q => Some(e),
        _ => None,
    }
}

proof fn lemma_u32_cut(b: Seq<u8>, pos: int, q: int)
    requires
        0 <= pos,
        0 <= q <= b.len(),
    ensures
        script_u32_at(b.take(q), pos) == (match script_u32_at(b, pos) {
            Some((n, e)) if e <= q => Some((n, e)),
            _ => None,
        }),
        script_u32_at(b, pos) matches Some((_, e)) ==> pos < e <= b.len(),
{
}

proof fn lemma_string_cut(b: Seq<u8>, pos: int, q: int)
    requires
        0 <= pos,
        0 <= q <= b.len(),
    ensures
        script_string_at(b.take(q), pos) == (match script_string_at(b, pos) {
            Some((s, e)) if e <= q => Some((s, e)),
            _ => None,
        }),
        script_string_at(b, pos) matches Some((_, e)) ==> pos < e <= b.len(),
{
    lemma_u32_cut(b, pos + 1, q);
    if let Some((n, start)) = script_u32_at(b, pos + 1) {
        let end = start + if b[pos] != 0 {
            n as int
        } else {
            2 * n
        };
        if pos < b.len() && end <= q {
            assert(b.take(q).subrange(start, end) =~= b.subrange(start, end));
        }
    }
}

proof fn lemma_value_cut(b: Seq<u8>, pos: int, depth: nat, q: int)
    requires
        0 <= pos,
        0 <= q <= b.len(),
    ensures
        value_end(b.take(q), pos, depth) == within(value_end(b, pos, depth), q),
        value_end(b, pos, depth) matches Some(e) ==> pos < e <= b.len(),
    decreases 65 - depth, 1nat, 0nat,
{
    let c = b.take(q);
    if depth <= MAX_SKIP_DEPTH && pos < b.len() {
        let start = pos + 1;
        lemma_u32_cut(b, start, q);
        lemma_string_cut(b, start, q);
        let tag = b[pos];
        if tag == SCRIPT_TYPE_OBJECT {
            if let Some((n, p)) = script_u32_at(b, start) {
                lemma_props_cut(b, p, n as nat, depth, q);
            }
        } else if tag == SCRIPT_TYPE_OBJECT_PROTOTYPE {
            if let Some((_, r)) = script_string_at(b, start) {
                lemma_u32_cut(b, r, q);
                if let Some((n, p)) = script_u32_at(b, r) {
                    lemma_props_cut(b, p, n as nat, depth, q);
                }
            }
        } else if tag == SCRIPT_TYPE_ARRAY {
            if let Some((_, r)) = script_u32_at(b, start) {
                lemma_u32_cut(b, r, q);
                if let Some((n, p)) = script_u32_at(b, r) {
                    lemma_props_cut(b, p, n as nat, depth, q);
                }
            }
        } else if tag == SCRIPT_TYPE_TYPED_ARRAY {
            if let Some(p) = fixed_end(b, start, 9) {
                lemma_value_cut(b, p, depth + 1, q);
            }
        } else if tag == SCRIPT_TYPE_OBJECT_MAP {
            if let Some((n, p)) = script_u32_at(b, start) {
                lemma_values_cut(b, p, 2 * n as nat, depth, q);
            }
        } else if tag == SCRIPT_TYPE_OBJECT_SET {
            if let Some((n, p)) = script_u32_at(b, start) {
                lemma_values_cut(b, p, n as nat, depth, q);
            }
        }
    }
}

proof fn lemma_props_cut(b: Seq<u8>, pos: int, n: nat, depth: nat, q: int)
    requires
        0 <= pos <= b.len(),
        0 <= q <= b.len(),
    ensures
        pos <= q ==> props_end(b.take(q), pos, n, depth) == within(props_end(b, pos, n, depth), q),
        props_end(b, pos, n, depth) matches Some(e) ==> pos <= e <= b.len(),
    decreases 65 - depth, 0nat, n,
{
    if n > 0 && depth <= MAX_SKIP_DEPTH {
        lemma_string_cut(b, pos, q);
        if let Some((_, p)) = script_string_at(b, pos) {
            lemma_value_cut(b, p, depth + 1, q);
            if let Some(r) = value_end(b, p, depth + 1) {
                lemma_props_cut(b, r, (n - 1) as nat, depth, q);
            }
        }
    }
}

proof fn lemma_values_cut(b: Seq<u8>, pos: int, n: nat, depth: nat, q: int)
    requires
        0 <= pos <= b.len(),
        0 <= q <= b.len(),
    ensures
        pos <= q ==> values_end(b.take(q), pos, n, depth) == within(
            values_end(b, pos, n, depth),
            q,
        ),
        values_end(b, pos, n, depth) matches Some(e) ==> pos <= e <= b.len(),
    decreases 65 - depth, 0nat, n,
{
    if n > 0 && depth <= MAX_SKIP_DEPTH {
        lemma_value_cut(b, pos, depth + 1, q);
        if let Some(r) = value_end(b, pos, depth + 1) {
            lemma_values_cut(b, r, (n - 1) as nat, depth, q);
        }
    }
}

/// A value is its own bytes: it ends past where it starts, nothing behind its
/// end matters, and no shorter data holds it.
pub proof fn values_are_their_bytes(b: Seq<u8>, pos: int, depth: nat)
    requires
        0 <= pos,
    ensures
        value_end(b, pos, depth) matches Some(e) ==> {
            &&& pos < e <= b.len()
            &&& value_end(b.take(e), pos, depth) == Some(e)
            &&& forall|q: int|
                0 <= q < e ==> value_end(#[trigger] b.take(q), pos, depth) is None
            &&& forall|more: Seq<u8>| value_end(#[trigger] (b + more), pos, depth) == Some(e)
        },
        depth > MAX_SKIP_DEPTH || pos >= b.len() || b[pos] > SCRIPT_TYPE_OBJECT_SET
            ==> value_end(b, pos, depth) is None,
{
    lemma_value_cut(b, pos, depth, b.len() as int);
    if let Some(e) = value_end(b, pos, depth) {
        lemma_value_cut(b, pos, depth, e);
        assert forall|q: int| 0 <= q < e implies value_end(
            #[trigger] b.take(q),
            pos,
            depth,
        ) is None by {
            lemma_value_cut(b, pos, depth, q);
        }
        assert forall|more: Seq<u8>| value_end(#[trigger] (b + more), pos, depth) == Some(e) by {
            lemma_value_cut(b + more, pos, depth, b.len() as int);
            assert((b + more).take(b.len() as int) =~= b);
        }
    }
}

impl PlayerCommand {
    /// The "type" property of a command's data; none where the data is no
    /// object, is malformed before that property, or has no such string.
    pub fn extract_command_type(data: &[u8]) -> (r: Option<String>)
        ensures
            match r {
                Some(s) => command_type(data@) == Some(s@),
                None => command_type(data@) is None,
            },
    {
        if data.len() == 0 || data[0] != SCRIPT_TYPE_OBJECT {
            return None;
        }
        let mut pos: usize = 1;
        let mut left: u32 = read_u32(data, &mut pos)?;
        while left > 0
            invariant
                pos <= data@.len(),
                command_type(data@) == type_among(data@, pos as int, left as nat),
            decreases left,
        {
            let (name, _) = read_script_string(data, &mut pos)?;
            if utils::same_text(name.as_str(), "type") {
                if pos < data.len() && data[pos] == SCRIPT_TYPE_STRING {
                    pos += 1;
                    let (text, _) = read_script_string(data, &mut pos)?;
                    return Some(text);
                }
                return None;
            }
            pos = skip_script_val(data, pos, 0)?;
            left -= 1;
        }
        None
    }
}

} // verus!
