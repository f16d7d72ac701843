use vstd::prelude::*;
use vstd::slice::slice_subrange;

use crate::clock;
use crate::relay::fault::ParseError;

verus! {

broadcast use vstd::utf8::encode_utf8_valid_utf8;

// ---------------------------------------------------------------------------
// Integers on the wire.

/// The big-endian bytes of a 16-bit value.
pub open spec fn be16_bytes(x: u16) -> Seq<u8> {
    seq![(x / 0x100) as u8, (x % 0x100) as u8]
}

/// The 16-bit value whose big-endian bytes stand at `pos`.
pub open spec fn be16_at(b: Seq<u8>, pos: int) -> u16 {
    (b[pos] * 0x100 + b[pos + 1]) as u16
}

/// The big-endian bytes of a 32-bit value.
pub open spec fn be32_bytes(x: u32) -> Seq<u8> {
    seq![
        (x / 0x100_0000) as u8,
        (x / 0x1_0000 % 0x100) as u8,
        (x / 0x100 % 0x100) as u8,
        (x % 0x100) as u8,
    ]
}

/// The 32-bit value whose big-endian bytes stand at `pos`.
pub open spec fn be32_at(b: Seq<u8>, pos: int) -> u32 {
    (b[pos] * 0x100_0000 + b[pos + 1] * 0x1_0000 + b[pos + 2] * 0x100 + b[pos + 3]) as u32
}

/// The little-endian bytes of a 32-bit value.
pub open spec fn le32_bytes(x: u32) -> Seq<u8> {
    seq![
        (x % 0x100) as u8,
        (x / 0x100 % 0x100) as u8,
        (x / 0x1_0000 % 0x100) as u8,
        (x / 0x100_0000) as u8,
    ]
}

/// The 32-bit value whose little-endian bytes stand at `pos`.
pub open spec fn le32_at(b: Seq<u8>, pos: int) -> u32 {
    (b[pos] + b[pos + 1] * 0x100 + b[pos + 2] * 0x1_0000 + b[pos + 3] * 0x100_0000) as u32
}

/// The byte that carries a signed 8-bit value, in two's complement.
pub open spec fn i8_byte(x: i8) -> u8 {
    if x < 0 { (x + 0x100) as u8 } else { x as u8 }
}

/// The signed 8-bit value that a byte carries.
pub open spec fn byte_i8(x: u8) -> i8 {
    if x < 0x80 { x as i8 } else { (x - 0x100) as i8 }
}

/// The 32-bit pattern that carries a signed value, in two's complement.
pub open spec fn i32_word(x: i32) -> u32 {
    if x < 0 { (x + 0x1_0000_0000) as u32 } else { x as u32 }
}

/// The signed value that a 32-bit pattern carries.
pub open spec fn word_i32(x: u32) -> i32 {
    if x < 0x8000_0000 { x as i32 } else { (x - 0x1_0000_0000) as i32 }
}

/// The byte for a flag.
pub open spec fn flag_byte(x: bool) -> u8 {
    if x { 1 } else { 0 }
}

/// What a 32-bit length field says of a length: its low 32 bits.
pub open spec fn len32(n: nat) -> u32 {
    (n % 0x1_0000_0000) as u32
}

/// Whether `piece` stands in `b` at `pos`.
pub open spec fn occurs(b: Seq<u8>, pos: int, piece: Seq<u8>) -> bool {
    &&& 0 <= pos
    &&& pos + piece.len() <= b.len()
    &&& b.subrange(pos, pos + piece.len()) == piece
}

/// A piece occurs where the parts before it end.
pub proof fn lemma_occurs(head: Seq<u8>, piece: Seq<u8>, tail: Seq<u8>)
    ensures
        occurs(head + piece + tail, head.len() as int, piece),
{
    assert((head + piece + tail).subrange(head.len() as int, (head + piece).len() as int)
        =~= piece);
}

/// What stands at the start of a piece stands where the piece does.
pub proof fn lemma_occurs_within(b: Seq<u8>, pos: int, head: Seq<u8>, piece: Seq<u8>, tail: Seq<u8>)
    requires
        occurs(b, pos, head + piece + tail),
    ensures
        occurs(b, pos + head.len(), piece),
{
    let whole = head + piece + tail;
    assert forall|i: int| 0 <= i < piece.len() implies b[pos + head.len() + i] == #[trigger] piece[i] by {
        assert(b.subrange(pos, pos + whole.len())[head.len() + i] == whole[head.len() + i]);
    }
    assert(b.subrange(pos + head.len(), pos + head.len() + piece.len()) =~= piece);
}

pub proof fn lemma_be16(b: Seq<u8>, pos: int, x: u16)
    requires
        occurs(b, pos, be16_bytes(x)),
    ensures
        be16_at(b, pos) == x,
{
    let s = b.subrange(pos, pos + 2);
    assert(b[pos] == s[0] && b[pos + 1] == s[1]);
}

pub proof fn lemma_be32(b: Seq<u8>, pos: int, x: u32)
    requires
        occurs(b, pos, be32_bytes(x)),
    ensures
        be32_at(b, pos) == x,
{
    let s = b.subrange(pos, pos + 4);
    assert(b[pos] == s[0] && b[pos + 1] == s[1] && b[pos + 2] == s[2] && b[pos + 3] == s[3]);
}

pub proof fn lemma_le32(b: Seq<u8>, pos: int, x: u32)
    requires
        occurs(b, pos, le32_bytes(x)),
    ensures
        le32_at(b, pos) == x,
{
    let s = b.subrange(pos, pos + 4);
    assert(b[pos] == s[0] && b[pos + 1] == s[1] && b[pos + 2] == s[2] && b[pos + 3] == s[3]);
}

pub fn put_u8(out: &mut Vec<u8>, x: u8)
    ensures
        final(out)@ == old(out)@ + seq![x],
{
    out.push(x);
}

pub fn put_be16(out: &mut Vec<u8>, x: u16)
    ensures
        final(out)@ == old(out)@ + be16_bytes(x),
{
    out.push((x / 0x100) as u8);
    out.push((x % 0x100) as u8);
    assert(out@ =~= old(out)@ + be16_bytes(x));
}

pub fn put_be32(out: &mut Vec<u8>, x: u32)
    ensures
        final(out)@ == old(out)@ + be32_bytes(x),
{
    out.push((x / 0x100_0000) as u8);
    out.push((x / 0x1_0000 % 0x100) as u8);
    out.push((x / 0x100 % 0x100) as u8);
    out.push((x % 0x100) as u8);
    assert(out@ =~= old(out)@ + be32_bytes(x));
}

pub fn put_le32(out: &mut Vec<u8>, x: u32)
    ensures
        final(out)@ == old(out)@ + le32_bytes(x),
{
    out.push((x % 0x100) as u8);
    out.push((x / 0x100 % 0x100) as u8);
    out.push((x / 0x1_0000 % 0x100) as u8);
    out.push((x / 0x100_0000) as u8);
    assert(out@ =~= old(out)@ + le32_bytes(x));
}

pub fn put_bytes(out: &mut Vec<u8>, data: &[u8])
    ensures
        final(out)@ == old(out)@ + data@,
{
    out.extend_from_slice(data);
    assert(out@ =~= old(out)@ + data@);
}

pub fn i8_to_byte(x: i8) -> (r: u8)
    ensures
        r == i8_byte(x),
{
    if x < 0 {
        (x as i16 + 0x100) as u8
    } else {
        x as u8
    }
}

pub fn byte_to_i8(x: u8) -> (r: i8)
    ensures
        r == byte_i8(x),
{
    if x < 0x80 {
        x as i8
    } else {
        (x as i16 - 0x100) as i8
    }
}

pub fn i32_to_word(x: i32) -> (r: u32)
    ensures
        r == i32_word(x),
{
    if x < 0 {
        (x as i64 + 0x1_0000_0000) as u32
    } else {
        x as u32
    }
}

pub fn word_to_i32(x: u32) -> (r: i32)
    ensures
        r == word_i32(x),
{
    if x < 0x8000_0000 {
        x as i32
    } else {
        (x as i64 - 0x1_0000_0000) as i32
    }
}

pub fn flag_to_byte(x: bool) -> (r: u8)
    ensures
        r == flag_byte(x),
{
    if x {
        1
    } else {
        0
    }
}

pub fn length_field(n: usize) -> (r: u32)
    ensures
        r == len32(n as nat),
{
    (n as u64 % 0x1_0000_0000) as u32
}

// ---------------------------------------------------------------------------
// Reading fields.

/// A result with its value replaced by its view.
pub open spec fn viewed<T: View>(r: Result<T, ParseError>) -> Result<T::V, ParseError> {
    match r {
        Ok(x) => Ok(x@),
        Err(e) => Err(e),
    }
}

/// A read's result with its value replaced by its view.
pub open spec fn viewed_at<T: View>(r: Result<(T, usize), ParseError>) -> Result<
    (T::V, int),
    ParseError,
> {
    match r {
        Ok((x, next)) => Ok((x@, next as int)),
        Err(e) => Err(e),
    }
}

/// A one-byte field.
pub open spec fn u8_at(b: Seq<u8>, pos: int, field: &'static str) -> Result<(u8, int), ParseError> {
    if b.len() < pos + 1 {
        Err(ParseError::Truncated { field })
    } else {
        Ok((b[pos], pos + 1))
    }
}

/// A big-endian 16-bit field.
pub open spec fn u16_at(b: Seq<u8>, pos: int, field: &'static str) -> Result<
    (u16, int),
    ParseError,
> {
    if b.len() < pos + 2 {
        Err(ParseError::Truncated { field })
    } else {
        Ok((be16_at(b, pos), pos + 2))
    }
}

/// A big-endian 32-bit field.
pub open spec fn u32_at(b: Seq<u8>, pos: int, field: &'static str) -> Result<
    (u32, int),
    ParseError,
> {
    if b.len() < pos + 4 {
        Err(ParseError::Truncated { field })
    } else {
        Ok((be32_at(b, pos), pos + 4))
    }
}

/// A little-endian 32-bit field.
pub open spec fn le_u32_at(b: Seq<u8>, pos: int, field: &'static str) -> Result<
    (u32, int),
    ParseError,
> {
    if b.len() < pos + 4 {
        Err(ParseError::Truncated { field })
    } else {
        Ok((le32_at(b, pos), pos + 4))
    }
}

/// A field of bytes behind their 32-bit length.
pub open spec fn blob_at(
    b: Seq<u8>,
    pos: int,
    length: &'static str,
    data: &'static str,
) -> Result<(Seq<u8>, int), ParseError> {
    match u32_at(b, pos, length) {
        Err(e) => Err(e),
        Ok((n, start)) => if b.len() < start + n {
            Err(ParseError::Truncated { field: data })
        } else {
            Ok((b.subrange(start, start + n), start + n))
        },
    }
}

/// The bytes of a field of bytes.
pub open spec fn blob_bytes(data: Seq<u8>) -> Seq<u8> {
    be32_bytes(len32(data.len())) + data
}

/// A field of UTF-8 text behind its length in bytes.
pub open spec fn text_at(
    b: Seq<u8>,
    pos: int,
    length: &'static str,
    data: &'static str,
    name: &'static str,
) -> Result<(Seq<char>, int), ParseError> {
    match blob_at(b, pos, length, data) {
        Err(e) => Err(e),
        Ok((bytes, next)) => if vstd::utf8::valid_utf8(bytes) {
            Ok((vstd::utf8::decode_utf8(bytes), next))
        } else {
            Err(ParseError::BadUtf8 { field: name })
        },
    }
}

/// The bytes of a field of text.
pub open spec fn text_bytes(chars: Seq<char>) -> Seq<u8> {
    blob_bytes(vstd::utf8::encode_utf8(chars))
}

/// Whether a length field can tell how long these bytes are.
pub open spec fn blob_fits(data: Seq<u8>) -> bool {
    data.len() < 0x1_0000_0000
}

/// Whether a length field can tell how long this text is.
pub open spec fn text_fits(chars: Seq<char>) -> bool {
    blob_fits(vstd::utf8::encode_utf8(chars))
}

/// A field of bytes reads back as it was written.
pub proof fn lemma_blob(
    b: Seq<u8>,
    pos: int,
    data: Seq<u8>,
    length_name: &'static str,
    data_name: &'static str,
)
    requires
        occurs(b, pos, blob_bytes(data)),
        blob_fits(data),
    ensures
        blob_at(b, pos, length_name, data_name) == Ok::<_, ParseError>(
            (data, pos + blob_bytes(data).len()),
        ),
{
    let head = be32_bytes(len32(data.len()));
    assert(head + data =~= Seq::empty() + head + data);
    assert(head + data =~= head + data + Seq::empty());
    lemma_occurs_within(b, pos, Seq::empty(), head, data);
    lemma_occurs_within(b, pos, head, data, Seq::empty());
    lemma_be32(b, pos, len32(data.len()));
}

/// A field of text reads back as it was written.
pub proof fn lemma_text(
    b: Seq<u8>,
    pos: int,
    chars: Seq<char>,
    length_name: &'static str,
    data_name: &'static str,
    name: &'static str,
)
    requires
        occurs(b, pos, text_bytes(chars)),
        text_fits(chars),
    ensures
        text_at(b, pos, length_name, data_name, name) == Ok::<_, ParseError>(
            (chars, pos + text_bytes(chars).len()),
        ),
{
    lemma_blob(b, pos, vstd::utf8::encode_utf8(chars), length_name, data_name);
    vstd::utf8::encode_utf8_decode_utf8(chars);
}

pub fn get_u8(b: &[u8], pos: usize, field: &'static str) -> (r: Result<(u8, usize), ParseError>)
    ensures
        match r {
            Ok((x, next)) => u8_at(b@, pos as int, field) == Ok::<_, ParseError>((x, next as int)),
            Err(e) => u8_at(b@, pos as int, field) == Err::<(u8, int), _>(e),
        },
{
    if b.len() < 1 || pos > b.len() - 1 {
        return Err(ParseError::Truncated { field });
    }
    Ok((b[pos], pos + 1))
}

pub fn get_u16(b: &[u8], pos: usize, field: &'static str) -> (r: Result<(u16, usize), ParseError>)
    ensures
        match r {
            Ok((x, next)) => u16_at(b@, pos as int, field) == Ok::<_, ParseError>((x, next as int)),
            Err(e) => u16_at(b@, pos as int, field) == Err::<(u16, int), _>(e),
        },
{
    if b.len() < 2 || pos > b.len() - 2 {
        return Err(ParseError::Truncated { field });
    }
    Ok((b[pos] as u16 * 0x100 + b[pos + 1] as u16, pos + 2))
}

pub fn get_u32(b: &[u8], pos: usize, field: &'static str) -> (r: Result<(u32, usize), ParseError>)
    ensures
        match r {
            Ok((x, next)) => u32_at(b@, pos as int, field) == Ok::<_, ParseError>((x, next as int)),
            Err(e) => u32_at(b@, pos as int, field) == Err::<(u32, int), _>(e),
        },
{
    if b.len() < 4 || pos > b.len() - 4 {
        return Err(ParseError::Truncated { field });
    }
    let x: u32 = b[pos] as u32 * 0x100_0000 + b[pos + 1] as u32 * 0x1_0000 + b[pos + 2] as u32
        * 0x100 + b[pos + 3] as u32;
    Ok((x, pos + 4))
}

pub fn get_le_u32(b: &[u8], pos: usize, field: &'static str) -> (r: Result<
    (u32, usize),
    ParseError,
>)
    ensures
        match r {
            Ok((x, next)) => le_u32_at(b@, pos as int, field) == Ok::<_, ParseError>(
                (x, next as int),
            ),
            Err(e) => le_u32_at(b@, pos as int, field) == Err::<(u32, int), _>(e),
        },
{
    if b.len() < 4 || pos > b.len() - 4 {
        return Err(ParseError::Truncated { field });
    }
    let x: u32 = b[pos] as u32 + b[pos + 1] as u32 * 0x100 + b[pos + 2] as u32 * 0x1_0000 + b[pos
        + 3] as u32 * 0x100_0000;
    Ok((x, pos + 4))
}

pub fn get_blob(b: &[u8], pos: usize, length: &'static str, data: &'static str) -> (r: Result<
    (Vec<u8>, usize),
    ParseError,
>)
    ensures
        viewed_at(r) == blob_at(b@, pos as int, length, data),
{
    let (n, start) = match get_u32(b, pos, length) {
        Ok(x) => x,
        Err(e) => return Err(e),
    };
    if b.len() - start < n as usize {
        return Err(ParseError::Truncated { field: data });
    }
    let end: usize = start + n as usize;
    Ok((vstd::slice::slice_to_vec(slice_subrange(b, start, end)), end))
}

/// `String::from_utf8`: the text that these bytes encode, and an error where
/// they are not UTF-8.
#[verifier::external_body]
fn text_from_utf8(bytes: Vec<u8>) -> (r: Result<String, ()>)
    ensures
        r is Ok <==> vstd::utf8::valid_utf8(bytes@),
        r matches Ok(s) ==> s@ == vstd::utf8::decode_utf8(bytes@),
{
    String::from_utf8(bytes).map_err(|_| ())
}

pub fn get_text(
    b: &[u8],
    pos: usize,
    length: &'static str,
    data: &'static str,
    name: &'static str,
) -> (r: Result<(String, usize), ParseError>)
    ensures
        viewed_at(r) == text_at(b@, pos as int, length, data, name),
{
    let (bytes, next) = match get_blob(b, pos, length, data) {
        Ok(x) => x,
        Err(e) => return Err(e),
    };
    match text_from_utf8(bytes) {
        Ok(s) => Ok((s, next)),
        Err(_) => Err(ParseError::BadUtf8 { field: name }),
    }
}

/// What follows the first `from` elements.
pub fn tail<T>(b: &[T], from: usize) -> (r: &[T])
    requires
        from <= b@.len(),
    ensures
        r@ == b@.skip(from as int),
{
    let r = slice_subrange(b, from, b.len());
    assert(r@ =~= b@.skip(from as int));
    r
}

pub fn put_blob(out: &mut Vec<u8>, data: &[u8])
    ensures
        final(out)@ == old(out)@ + blob_bytes(data@),
{
    put_be32(out, length_field(data.len()));
    put_bytes(out, data);
    assert(out@ =~= old(out)@ + blob_bytes(data@));
}

pub fn put_text(out: &mut Vec<u8>, text: &str)
    ensures
        final(out)@ == old(out)@ + text_bytes(text@),
{
    put_blob(out, text.as_bytes());
}

// ---------------------------------------------------------------------------
// Text.

/// `String::push`: the character goes to the end.
#[verifier::external_body]
fn push_char(text: &mut String, c: char)
    ensures
        final(text)@ == old(text)@.push(c),
{
    text.push(c);
}

/// `char::from_u32`: the character with this code, which exists exactly for
/// the Unicode scalar values.
#[verifier::external_body]
fn char_with_code(code: u32) -> (r: Option<char>)
    ensures
        r is Some <==> vstd::utf8::is_scalar(code),
        r matches Some(c) ==> c as u32 == code,
{
    char::from_u32(code)
}

/// The characters of a text, in order.
pub fn chars_of(text: &str) -> (r: Vec<char>)
    ensures
        r@ == text@,
{
    let mut out: Vec<char> = Vec::new();
    for c in it: text.chars()
        invariant
            it.seq() == text@,
            out@ == it.seq().take(it.index() as int),
    {
        proof {
            assert(it.seq().take(it.index() + 1) =~= it.seq().take(it.index() as int).push(
                it.seq()[it.index() as int],
            ));
        }
        out.push(c);
    }
    assert(text@.take(text@.len() as int) =~= text@);
    out
}

/// The text made of these characters.
pub fn text_of(chars: &[char]) -> (r: String)
    ensures
        r@ == chars@,
{
    let mut out = String::new();
    let mut i: usize = 0;
    while i < chars.len()
        invariant
            i <= chars@.len(),
            out@ == chars@.take(i as int),
        decreases chars@.len() - i,
    {
        push_char(&mut out, chars[i]);
        assert(chars@.take(i + 1) =~= chars@.take(i as int).push(chars@[i as int]));
        i += 1;
    }
    assert(chars@.take(chars@.len() as int) =~= chars@);
    out
}

/// A copy of a text.
pub fn copy_text(text: &str) -> (r: String)
    ensures
        r@ == text@,
{
    String::from_str(text)
}

/// Whether two texts are the same.
pub fn same_text(a: &str, b: &str) -> (r: bool)
    ensures
        r == (a@ == b@),
{
    let left = a.as_bytes();
    let right = b.as_bytes();
    proof {
        vstd::utf8::encode_utf8_decode_utf8(a@);
        vstd::utf8::encode_utf8_decode_utf8(b@);
    }
    same_bytes(left, right)
}

/// Whether two byte strings are the same.
pub fn same_bytes(a: &[u8], b: &[u8]) -> (r: bool)
    ensures
        r == (a@ == b@),
{
    if a.len() != b.len() {
        return false;
    }
    let mut i: usize = 0;
    while i < a.len()
        invariant
            a@.len() == b@.len(),
            i <= a@.len(),
            forall|j: int| 0 <= j < i ==> a@[j] == b@[j],
        decreases a@.len() - i,
    {
        if a[i] != b[i] {
            return false;
        }
        i += 1;
    }
    assert(a@ =~= b@);
    true
}

// ---------------------------------------------------------------------------
// UTF-16.

/// Whether this unit opens a pair.
pub open spec fn high_surrogate(u: u16) -> bool {
    0xd800 <= u <= 0xdbff
}

/// Whether this unit closes a pair.
pub open spec fn low_surrogate(u: u16) -> bool {
    0xdc00 <= u <= 0xdfff
}

/// The units of one character: itself, or a pair past the first plane.
pub open spec fn char_units(c: char) -> Seq<u16> {
    let code = c as u32;
    if code < 0x1_0000 {
        seq![code as u16]
    } else {
        seq![
            (0xd800 + (code - 0x1_0000) / 0x400) as u16,
            (0xdc00 + (code - 0x1_0000) % 0x400) as u16,
        ]
    }
}

/// The UTF-16 units of a text.
pub open spec fn utf16_units(chars: Seq<char>) -> Seq<u16>
    decreases chars.len(),
{
    if chars.len() == 0 {
        Seq::empty()
    } else {
        char_units(chars[0]) + utf16_units(chars.drop_first())
    }
}

/// Whether the first two units are a pair.
pub open spec fn pair_first(units: Seq<u16>) -> bool {
    units.len() >= 2 && high_surrogate(units[0]) && low_surrogate(units[1])
}

/// Whether every surrogate stands in a pair.
pub open spec fn utf16_paired(units: Seq<u16>) -> bool
    decreases units.len(),
{
    if units.len() == 0 {
        true
    } else if !high_surrogate(units[0]) && !low_surrogate(units[0]) {
        utf16_paired(units.skip(1))
    } else {
        pair_first(units) && utf16_paired(units.skip(2))
    }
}

/// The character that the first units stand for. A surrogate without its
/// partner stands for the replacement character.
pub open spec fn first_utf16_char(units: Seq<u16>) -> char {
    if !high_surrogate(units[0]) && !low_surrogate(units[0]) {
        units[0] as char
    } else if pair_first(units) {
        (0x1_0000 + (units[0] - 0xd800) * 0x400 + (units[1] - 0xdc00)) as char
    } else {
        0xfffdu32 as char
    }
}

/// The text that units stand for.
pub open spec fn utf16_text(units: Seq<u16>) -> Seq<char>
    decreases units.len(),
{
    if units.len() == 0 {
        Seq::empty()
    } else {
        seq![first_utf16_char(units)] + utf16_text(
            units.skip(
                if pair_first(units) {
                    2
                } else {
                    1
                },
            ),
        )
    }
}

/// A text's units are paired and stand for the text.
pub proof fn lemma_utf16_round_trip(chars: Seq<char>)
    ensures
        utf16_paired(utf16_units(chars)),
        utf16_text(utf16_units(chars)) == chars,
    decreases chars.len(),
{
    if chars.len() > 0 {
        let rest = chars.drop_first();
        lemma_utf16_round_trip(rest);
        let units = utf16_units(chars);
        let head = char_units(chars[0]);
        assert(units.skip(head.len() as int) =~= utf16_units(rest));
        assert(units[0] == head[0]);
        if head.len() == 2 {
            assert(units[1] == head[1]);
        }
        vstd::utf8::char_is_scalar(chars[0]);
        vstd::utf8::char_u32_cast(chars[0], chars[0] as u32);
        assert(first_utf16_char(units) == chars[0]);
        assert(seq![chars[0]] + rest =~= chars);
    }
}

pub proof fn lemma_utf16_units_snoc(chars: Seq<char>, c: char)
    ensures
        utf16_units(chars.push(c)) == utf16_units(chars) + char_units(c),
    decreases chars.len(),
{
    if chars.len() == 0 {
        assert(chars.push(c).drop_first() =~= Seq::<char>::empty());
        assert(utf16_units(Seq::<char>::empty()) =~= Seq::<u16>::empty());
        assert(utf16_units(chars.push(c)) =~= char_units(c));
    } else {
        assert(chars.push(c).drop_first() =~= chars.drop_first().push(c));
        lemma_utf16_units_snoc(chars.drop_first(), c);
        assert(utf16_units(chars.push(c)) =~= utf16_units(chars) + char_units(c));
    }
}

/// The UTF-16 units of a text.
pub fn utf16_encode(text: &str) -> (r: Vec<u16>)
    ensures
        r@ == utf16_units(text@),
{
    let chars = chars_of(text);
    let mut out: Vec<u16> = Vec::new();
    let mut i: usize = 0;
    while i < chars.len()
        invariant
            i <= chars@.len(),
            out@ == utf16_units(chars@.take(i as int)),
        decreases chars@.len() - i,
    {
        let c = chars[i];
        let code: u32 = c as u32;
        proof {
            lemma_utf16_units_snoc(chars@.take(i as int), c);
            assert(chars@.take(i + 1) =~= chars@.take(i as int).push(c));
        }
        if code < 0x1_0000 {
            out.push(code as u16);
        } else {
            out.push((0xd800 + (code - 0x1_0000) / 0x400) as u16);
            out.push((0xdc00 + (code - 0x1_0000) % 0x400) as u16);
        }
        assert(out@ =~= utf16_units(chars@.take(i + 1)));
        i += 1;
    }
    assert(chars@.take(chars@.len() as int) =~= chars@);
    out
}

/// The text that units stand for, and whether they were all paired.
pub fn utf16_decode(units: &[u16]) -> (r: (String, bool))
    ensures
        r.0@ == utf16_text(units@),
        r.1 == utf16_paired(units@),
{
    let mut out: Vec<char> = Vec::new();
    let mut paired = true;
    let mut i: usize = 0;
    assert(units@.skip(0) =~= units@);
    while i < units.len()
        invariant
            i <= units@.len(),
            utf16_text(units@) == out@ + utf16_text(units@.skip(i as int)),
            utf16_paired(units@) == (paired && utf16_paired(units@.skip(i as int))),
        decreases units@.len() - i,
    {
        let ghost rest = units@.skip(i as int);
        let u: u16 = units[i];
        let mut code: u32 = u as u32;
        let mut step: usize = 1;
        if 0xd800 <= u && u <= 0xdfff {
            if u <= 0xdbff && units.len() - i >= 2 && 0xdc00 <= units[i + 1] && units[i + 1]
                <= 0xdfff {
                code = 0x1_0000 + (u as u32 - 0xd800) * 0x400 + (units[i + 1] as u32 - 0xdc00);
                step = 2;
            } else {
                code = 0xfffd;
                paired = false;
            }
        }
        let c = match char_with_code(code) {
            Some(c) => c,
            None => {
                assert(false);
                'a'
            },
        };
        proof {
            vstd::utf8::char_is_scalar(c);
            vstd::utf8::char_u32_cast(c, code);
        }
        assert(c == first_utf16_char(rest));
        assert(rest.skip(step as int) =~= units@.skip(i + step));
        out.push(c);
        assert(out@ + utf16_text(units@.skip(i + step)) =~= out@.drop_last() + utf16_text(rest));
        i += step;
    }
    assert(out@ =~= out@ + utf16_text(units@.skip(i as int)));
    (text_of(out.as_slice()), paired)
}

// ---------------------------------------------------------------------------
// Wide strings: UTF-16 units in big-endian order, closed by a zero unit.

/// The bytes of units in big-endian order.
pub open spec fn unit_bytes(units: Seq<u16>) -> Seq<u8>
    decreases units.len(),
{
    if units.len() == 0 {
        Seq::empty()
    } else {
        be16_bytes(units[0]) + unit_bytes(units.drop_first())
    }
}

/// The bytes of a wide string.
pub open spec fn wide_bytes(chars: Seq<char>) -> Seq<u8> {
    unit_bytes(utf16_units(chars)) + be16_bytes(0)
}

/// Whether a wide string can carry this text: the zero character closes it.
pub open spec fn wide_fits(chars: Seq<char>) -> bool {
    !chars.contains(0u32 as char)
}

/// The units before the closing zero unit, and where the field ends.
pub open spec fn wide_units_at(b: Seq<u8>, pos: int) -> Option<(Seq<u16>, int)>
    decreases b.len() - pos,
{
    if b.len() < pos + 2 {
        None
    } else if be16_at(b, pos) == 0 {
        Some((Seq::empty(), pos + 2))
    } else {
        match wide_units_at(b, pos + 2) {
            None => None,
            Some((units, next)) => Some((seq![be16_at(b, pos)] + units, next)),
        }
    }
}

/// A wide string field.
pub open spec fn wide_at(b: Seq<u8>, pos: int) -> Result<(Seq<char>, int), ParseError> {
    match wide_units_at(b, pos) {
        None => Err(ParseError::Truncated { field: "wide string" }),
        Some((units, next)) => if utf16_paired(units) {
            Ok((utf16_text(units), next))
        } else {
            Err(ParseError::BadUtf8 { field: "wide string" })
        },
    }
}

proof fn lemma_no_zero_units(chars: Seq<char>)
    requires
        wide_fits(chars),
    ensures
        forall|i: int| 0 <= i < utf16_units(chars).len() ==> utf16_units(chars)[i] != 0,
    decreases chars.len(),
{
    if chars.len() > 0 {
        assert(chars.contains(chars[0]));
        assert forall|c: char| chars.drop_first().contains(c) implies chars.contains(c) by {
            let i = choose|i: int| 0 <= i < chars.len() - 1 && chars.drop_first()[i] == c;
            assert(chars[i + 1] == c);
        }
        lemma_no_zero_units(chars.drop_first());
        let head = char_units(chars[0]);
        vstd::utf8::char_is_scalar(chars[0]);
        vstd::utf8::char_u32_cast(chars[0], chars[0] as u32);
        assert(head[0] != 0);
        assert forall|i: int| 0 <= i < utf16_units(chars).len() implies utf16_units(chars)[i]
            != 0 by {
            if i >= head.len() {
                assert(utf16_units(chars)[i] == utf16_units(chars.drop_first())[i - head.len()]);
            }
        }
    }
}

proof fn lemma_wide_units(b: Seq<u8>, pos: int, units: Seq<u16>)
    requires
        occurs(b, pos, unit_bytes(units) + be16_bytes(0)),
        forall|i: int| 0 <= i < units.len() ==> units[i] != 0,
    ensures
        unit_bytes(units).len() == 2 * units.len(),
        wide_units_at(b, pos) == Some((units, pos + 2 * units.len() + 2)),
    decreases units.len(),
{
    let all = unit_bytes(units) + be16_bytes(0);
    if units.len() == 0 {
        assert(all =~= be16_bytes(0));
        lemma_be16(b, pos, 0);
        assert(units =~= Seq::empty());
    } else {
        let rest = units.drop_first();
        let tail = unit_bytes(rest) + be16_bytes(0);
        assert(all =~= Seq::empty() + be16_bytes(units[0]) + tail);
        assert(all =~= be16_bytes(units[0]) + tail + Seq::empty());
        lemma_occurs_within(b, pos, Seq::empty(), be16_bytes(units[0]), tail);
        lemma_occurs_within(b, pos, be16_bytes(units[0]), tail, Seq::empty());
        lemma_be16(b, pos, units[0]);
        lemma_wide_units(b, pos + 2, rest);
        assert(seq![units[0]] + rest =~= units);
    }
}

/// A wide string without a zero character reads back as it was written.
pub proof fn lemma_wide(b: Seq<u8>, pos: int, chars: Seq<char>)
    requires
        occurs(b, pos, wide_bytes(chars)),
        wide_fits(chars),
    ensures
        wide_at(b, pos) == Ok::<_, ParseError>((chars, pos + wide_bytes(chars).len())),
{
    lemma_no_zero_units(chars);
    lemma_wide_units(b, pos, utf16_units(chars));
    lemma_utf16_round_trip(chars);
}

/// A wide string field ends past where it starts.
pub proof fn lemma_wide_advances(b: Seq<u8>, pos: int)
    ensures
        wide_units_at(b, pos) matches Some((_, next)) ==> pos + 2 <= next <= b.len(),
    decreases b.len() - pos,
{
    if b.len() >= pos + 2 && be16_at(b, pos) != 0 {
        lemma_wide_advances(b, pos + 2);
    }
}

/// What was read, where what it was read from stands behind other bytes.
pub open spec fn moved<V>(r: Result<(V, int), ParseError>, by: int) -> Result<
    (V, int),
    ParseError,
> {
    match r {
        Ok((v, next)) => Ok((v, next + by)),
        Err(e) => Err(e),
    }
}

/// A field does not depend on the bytes in front of it.
pub proof fn lemma_u8_moves(a: Seq<u8>, b: Seq<u8>, pos: int, field: &'static str)
    requires
        0 <= pos,
    ensures
        u8_at(a + b, a.len() + pos, field) == moved(u8_at(b, pos, field), a.len() as int),
{
}

/// A field does not depend on the bytes in front of it.
pub proof fn lemma_u32_moves(a: Seq<u8>, b: Seq<u8>, pos: int, field: &'static str)
    requires
        0 <= pos,
    ensures
        u32_at(a + b, a.len() + pos, field) == moved(u32_at(b, pos, field), a.len() as int),
{
}

/// A field does not depend on the bytes in front of it.
pub proof fn lemma_text_moves(
    a: Seq<u8>,
    b: Seq<u8>,
    pos: int,
    length: &'static str,
    data: &'static str,
    name: &'static str,
)
    requires
        0 <= pos,
    ensures
        text_at(a + b, a.len() + pos, length, data, name) == moved(
            text_at(b, pos, length, data, name),
            a.len() as int,
        ),
        text_at(b, pos, length, data, name) matches Ok((_, next)) ==> pos < next,
{
    lemma_u32_moves(a, b, pos, length);
    if let Ok((n, start)) = u32_at(b, pos, length) {
        if b.len() >= start + n {
            assert((a + b).subrange(a.len() + start, a.len() + start + n) =~= b.subrange(
                start,
                start + n,
            ));
        }
    }
}

proof fn lemma_wide_units_move(a: Seq<u8>, b: Seq<u8>, pos: int)
    requires
        0 <= pos,
    ensures
        wide_units_at(a + b, a.len() + pos) == match wide_units_at(b, pos) {
            Some((units, next)) => Some((units, a.len() + next)),
            None => None,
        },
    decreases b.len() - pos,
{
    if b.len() >= pos + 2 {
        assert(be16_at(a + b, a.len() + pos) == be16_at(b, pos));
        if be16_at(b, pos) != 0 {
            lemma_wide_units_move(a, b, pos + 2);
        }
    }
}

/// A field does not depend on the bytes in front of it.
pub proof fn lemma_wide_moves(a: Seq<u8>, b: Seq<u8>, pos: int)
    requires
        0 <= pos,
    ensures
        wide_at(a + b, a.len() + pos) == moved(wide_at(b, pos), a.len() as int),
        wide_at(b, pos) matches Ok((_, next)) ==> pos < next,
{
    lemma_wide_units_move(a, b, pos);
    lemma_wide_advances(b, pos);
}

proof fn lemma_unit_bytes_snoc(units: Seq<u16>, u: u16)
    ensures
        unit_bytes(units.push(u)) == unit_bytes(units) + be16_bytes(u),
    decreases units.len(),
{
    if units.len() == 0 {
        assert(units.push(u).drop_first() =~= Seq::<u16>::empty());
        assert(unit_bytes(Seq::<u16>::empty()) =~= Seq::<u8>::empty());
        assert(unit_bytes(units.push(u)) =~= be16_bytes(u));
    } else {
        assert(units.push(u).drop_first() =~= units.drop_first().push(u));
        lemma_unit_bytes_snoc(units.drop_first(), u);
        assert(unit_bytes(units.push(u)) =~= unit_bytes(units) + be16_bytes(u));
    }
}

/// Appends a wide string to what is being written.
pub fn put_wide(out: &mut Vec<u8>, text: &str)
    ensures
        final(out)@ == old(out)@ + wide_bytes(text@),
{
    let units = utf16_encode(text);
    let mut i: usize = 0;
    assert(units@.take(0) =~= Seq::<u16>::empty());
    while i < units.len()
        invariant
            i <= units@.len(),
            out@ == old(out)@ + unit_bytes(units@.take(i as int)),
        decreases units@.len() - i,
    {
        proof {
            lemma_unit_bytes_snoc(units@.take(i as int), units@[i as int]);
            assert(units@.take(i + 1) =~= units@.take(i as int).push(units@[i as int]));
        }
        put_be16(out, units[i]);
        assert(out@ =~= old(out)@ + unit_bytes(units@.take(i + 1)));
        i += 1;
    }
    assert(units@.take(units@.len() as int) =~= units@);
    put_be16(out, 0);
    assert(out@ =~= old(out)@ + wide_bytes(text@));
}

/// The bytes of a wide string.
pub fn write_wide_string(text: &str) -> (r: Vec<u8>)
    ensures
        r@ == wide_bytes(text@),
{
    let mut out: Vec<u8> = Vec::new();
    put_wide(&mut out, text);
    assert(out@ =~= wide_bytes(text@));
    out
}

/// The wide string at `pos`, and where it ends.
pub fn read_wide_string(buffer: &[u8], pos: usize) -> (r: Result<(String, usize), ParseError>)
    ensures
        viewed_at(r) == wide_at(buffer@, pos as int),
        r matches Ok((_, next)) ==> pos < next <= buffer@.len(),
{
    let mut units: Vec<u16> = Vec::new();
    let mut at: usize = pos;
    loop
        invariant
            pos <= at,
            at <= buffer@.len() || at == pos,
            wide_units_at(buffer@, pos as int) == match wide_units_at(buffer@, at as int) {
                None => None,
                Some((rest, next)) => Some((units@ + rest, next)),
            },
        decreases buffer@.len() - at,
    {
        if buffer.len() < 2 || at > buffer.len() - 2 {
            return Err(ParseError::Truncated { field: "wide string" });
        }
        let u: u16 = buffer[at] as u16 * 0x100 + buffer[at + 1] as u16;
        let ghost before = units@;
        if u == 0 {
            assert(units@ + Seq::<u16>::empty() =~= units@);
            let (text, paired) = utf16_decode(units.as_slice());
            if !paired {
                return Err(ParseError::BadUtf8 { field: "wide string" });
            }
            return Ok((text, at + 2));
        }
        units.push(u);
        at += 2;
        proof {
            if let Some((rest, _)) = wide_units_at(buffer@, at as int) {
                assert(before + (seq![u] + rest) =~= units@ + rest);
            }
        }
    }
}

// ---------------------------------------------------------------------------
// Text inside script values: one byte per character, or little-endian UTF-16.

/// The little-endian units of a byte string; an odd last byte is ignored.
pub open spec fn le_units(bytes: Seq<u8>) -> Seq<u16> {
    Seq::new(bytes.len() / 2, |i: int| (bytes[2 * i] + bytes[2 * i + 1] * 0x100) as u16)
}

/// The text of a script string, by the flag that tells how it is stored.
pub open spec fn script_text(latin1: bool, bytes: Seq<u8>) -> Seq<char> {
    if latin1 {
        bytes.map_values(|b: u8| b as char)
    } else {
        utf16_text(le_units(bytes))
    }
}

/// The text of a script string, by the flag that tells how it is stored.
pub fn decode_script_text(latin1: bool, bytes: &[u8]) -> (r: String)
    ensures
        r@ == script_text(latin1, bytes@),
{
    if latin1 {
        let mut chars: Vec<char> = Vec::new();
        let mut i: usize = 0;
        while i < bytes.len()
            invariant
                i <= bytes@.len(),
                chars@.len() == i,
                forall|j: int| 0 <= j < i ==> chars@[j] == bytes@[j] as char,
            decreases bytes@.len() - i,
        {
            chars.push(bytes[i] as char);
            i += 1;
        }
        assert(chars@ =~= script_text(latin1, bytes@));
        text_of(chars.as_slice())
    } else {
        let mut units: Vec<u16> = Vec::new();
        let size: usize = bytes.len();
        let count: usize = size / 2;
        let mut i: usize = 0;
        while i < count
            invariant
                i <= count,
                size == bytes@.len(),
                count == size / 2,
                units@.len() == i,
                forall|j: int| 0 <= j < i ==> units@[j] == le_units(bytes@)[j],
            decreases count - i,
        {
            units.push(bytes[2 * i] as u16 + bytes[2 * i + 1] as u16 * 0x100);
            i += 1;
        }
        assert(units@ =~= le_units(bytes@));
        utf16_decode(units.as_slice()).0
    }
}

// ---------------------------------------------------------------------------
// Numbers in text.

/// The digit for a number below ten.
pub open spec fn digit(n: nat) -> char {
    (('0' as u32) + n) as char
}

/// A number in decimal.
pub open spec fn decimal(n: nat) -> Seq<char>
    decreases n,
{
    if n < 10 {
        seq![digit(n)]
    } else {
        decimal(n / 10).push(digit(n % 10))
    }
}

/// A number in decimal, with its sign where it is negative.
pub open spec fn signed_decimal(n: int) -> Seq<char> {
    if n < 0 {
        seq!['-'] + decimal((-n) as nat)
    } else {
        decimal(n as nat)
    }
}

/// Different numbers read differently.
pub proof fn lemma_decimal_injective(a: nat, b: nat)
    requires
        decimal(a) == decimal(b),
    ensures
        a == b,
    decreases a,
{
    assert(decimal(a).len() == decimal(b).len());
    assert(digit(a % 10) as u32 == 48 + a % 10);
    assert(digit(b % 10) as u32 == 48 + b % 10);
    if a < 10 && b < 10 {
        assert(decimal(a)[0] == decimal(b)[0]);
        assert(a % 10 == a && b % 10 == b);
        assert(decimal(a)[0] == digit(a));
        assert(decimal(b)[0] == digit(b));
        assert(a == b);
    } else if a < 10 {
        lemma_decimal_len(b / 10);
        assert(decimal(a).len() == 1);
        assert(decimal(b).len() == decimal(b / 10).len() + 1);
    } else if b < 10 {
        lemma_decimal_len(a / 10);
        assert(decimal(b).len() == 1);
        assert(decimal(a).len() == decimal(a / 10).len() + 1);
    } else {
        assert(decimal(a) == decimal(a / 10).push(digit(a % 10)));
        assert(decimal(b) == decimal(b / 10).push(digit(b % 10)));
        assert(decimal(a).last() == digit(a % 10));
        assert(decimal(b).last() == digit(b % 10));
        assert(decimal(a).drop_last() =~= decimal(a / 10));
        assert(decimal(b).drop_last() =~= decimal(b / 10));
        lemma_decimal_injective(a / 10, b / 10);
        assert(a % 10 == b % 10);
        assert(a == b);
    }
}

proof fn lemma_decimal_len(n: nat)
    ensures
        decimal(n).len() >= 1,
    decreases n,
{
    if n >= 10 {
        lemma_decimal_len(n / 10);
    }
}

fn digit_char(n: u128) -> (r: char)
    requires
        n < 10,
    ensures
        r == digit(n as nat),
{
    match char_with_code(48 + n as u32) {
        Some(c) => {
            proof {
                vstd::utf8::char_u32_cast(c, (48 + n) as u32);
            }
            c
        },
        None => {
            assert(false);
            '0'
        },
    }
}

fn decimal_chars(n: u128) -> (r: Vec<char>)
    ensures
        r@ == decimal(n as nat),
    decreases n,
{
    if n < 10 {
        let mut out: Vec<char> = Vec::new();
        out.push(digit_char(n));
        assert(out@ =~= decimal(n as nat));
        out
    } else {
        let mut out = decimal_chars(n / 10);
        out.push(digit_char(n % 10));
        out
    }
}

/// A number in decimal.
pub fn decimal_text(n: u64) -> (r: String)
    ensures
        r@ == decimal(n as nat),
{
    text_of(decimal_chars(n as u128).as_slice())
}

/// A number in decimal, with its sign where it is negative.
pub fn signed_text(n: i64) -> (r: String)
    ensures
        r@ == signed_decimal(n as int),
{
    if n < 0 {
        let mut out = copy_text("-");
        proof {
            reveal_strlit("-");
        }
        let size: u64 = (-(n as i128)) as u64;
        let digits = decimal_text(size);
        out.append(digits.as_str());
        assert(out@ =~= signed_decimal(n as int));
        out
    } else {
        decimal_text(n as u64)
    }
}

/// The whole seconds of a span in nanoseconds, in decimal.
pub fn secs_text(span: i128) -> (r: String)
    ensures
        r@ == signed_decimal(clock::whole_secs(span as int)),
{
    if span >= 0 {
        text_of(decimal_chars(span as u128 / 1_000_000_000).as_slice())
    } else {
        let size: u128 = (-(span + 1)) as u128 + 1;
        let secs: u128 = size / 1_000_000_000;
        let digits = text_of(decimal_chars(secs).as_slice());
        if secs == 0 {
            digits
        } else {
            let mut out = copy_text("-");
            proof {
                reveal_strlit("-");
            }
            out.append(digits.as_str());
            assert(out@ =~= signed_decimal(-(secs as int)));
            out
        }
    }
}

// ---------------------------------------------------------------------------
// Characters.

/// Whether Unicode counts a character as white space.
pub open spec fn white_space(c: char) -> bool {
    let code = c as u32;
    ||| 0x9 <= code <= 0xd
    ||| code == 0x20
    ||| code == 0x85
    ||| code == 0xa0
    ||| code == 0x1680
    ||| 0x2000 <= code <= 0x200a
    ||| code == 0x2028
    ||| code == 0x2029
    ||| code == 0x202f
    ||| code == 0x205f
    ||| code == 0x3000
}

/// Whether Unicode counts a character as white space.
pub fn is_white_space(c: char) -> (r: bool)
    ensures
        r == white_space(c),
{
    let code: u32 = c as u32;
    (0x9 <= code && code <= 0xd) || code == 0x20 || code == 0x85 || code == 0xa0 || code == 0x1680
        || (0x2000 <= code && code <= 0x200a) || code == 0x2028 || code == 0x2029 || code == 0x202f
        || code == 0x205f || code == 0x3000
}

/// What is left without the white space in front.
pub open spec fn trim_start(s: Seq<char>) -> Seq<char>
    decreases s.len(),
{
    if s.len() > 0 && white_space(s[0]) {
        trim_start(s.drop_first())
    } else {
        s
    }
}

/// What is left without the white space behind.
pub open spec fn trim_end(s: Seq<char>) -> Seq<char>
    decreases s.len(),
{
    if s.len() > 0 && white_space(s.last()) {
        trim_end(s.drop_last())
    } else {
        s
    }
}

/// What is left without white space at either end.
pub open spec fn trimmed(s: Seq<char>) -> Seq<char> {
    trim_end(trim_start(s))
}

/// What is left without white space at either end.
pub fn trim_chars(chars: &[char]) -> (r: &[char])
    ensures
        r@ == trimmed(chars@),
{
    let mut from: usize = 0;
    assert(chars@.skip(0) =~= chars@);
    while from < chars.len() && is_white_space(chars[from])
        invariant
            from <= chars@.len(),
            trim_start(chars@) == trim_start(chars@.skip(from as int)),
        decreases chars@.len() - from,
    {
        assert(chars@.skip(from as int)[0] == chars@[from as int]);
        assert(chars@.skip(from as int).drop_first() =~= chars@.skip(from + 1));
        from += 1;
    }
    let ghost rest = chars@.skip(from as int);
    assert(trim_start(chars@) == rest) by {
        if rest.len() > 0 {
            assert(rest[0] == chars@[from as int]);
        }
    }
    let mut to: usize = chars.len();
    assert(chars@.subrange(from as int, to as int) =~= rest);
    while to > from && is_white_space(chars[to - 1])
        invariant
            from <= to <= chars@.len(),
            trim_end(rest) == trim_end(chars@.subrange(from as int, to as int)),
        decreases to - from,
    {
        let ghost now = chars@.subrange(from as int, to as int);
        assert(now.last() == chars@[to - 1]);
        assert(now.drop_last() =~= chars@.subrange(from as int, to - 1));
        to -= 1;
    }
    assert(trim_end(chars@.subrange(from as int, to as int)) == chars@.subrange(
        from as int,
        to as int,
    )) by {
        let now = chars@.subrange(from as int, to as int);
        if now.len() > 0 {
            assert(now.last() == chars@[to - 1]);
        }
    }
    slice_subrange(chars, from, to)
}

/// What is left without white space behind.
pub fn trim_behind(chars: &[char]) -> (r: &[char])
    ensures
        r@ == trim_end(chars@),
{
    let mut to: usize = chars.len();
    assert(chars@.take(to as int) =~= chars@);
    while to > 0 && is_white_space(chars[to - 1])
        invariant
            to <= chars@.len(),
            trim_end(chars@) == trim_end(chars@.take(to as int)),
        decreases to,
    {
        let ghost now = chars@.take(to as int);
        assert(now.last() == chars@[to - 1]);
        assert(now.drop_last() =~= chars@.take(to - 1));
        to -= 1;
    }
    let ghost now = chars@.take(to as int);
    assert(to > 0 ==> now.last() == chars@[to - 1]);
    assert(chars@.subrange(0, to as int) =~= now);
    slice_subrange(chars, 0, to)
}

/// A text in lower case.
pub uninterp spec fn lowercase(s: Seq<char>) -> Seq<char>;

/// `str::to_lowercase`: the text in lower case, by Unicode's rules, which do
/// not depend on a locale.
#[verifier::external_body]
pub(crate) fn lower_text(text: &str) -> (r: String)
    ensures
        r@ == lowercase(text@),
{
    text.to_lowercase()
}

/// Whether one of these texts is the given one.
pub fn is_among(texts: &Vec<String>, text: &str) -> (r: bool)
    ensures
        r == texts@.map_values(|s: String| s@).contains(text@),
{
    let ghost all = texts@.map_values(|s: String| s@);
    let mut i: usize = 0;
    while i < texts.len()
        invariant
            i <= texts@.len(),
            all == texts@.map_values(|s: String| s@),
            forall|j: int| 0 <= j < i ==> all[j] != text@,
        decreases texts@.len() - i,
    {
        if same_text(texts[i].as_str(), text) {
            assert(all[i as int] == text@);
            return true;
        }
        i += 1;
    }
    false
}

/// What is in a sequence with one thing more.
pub proof fn lemma_pushed<A>(s: Seq<A>, last: A, x: A)
    ensures
        s.push(last).contains(x) == (s.contains(x) || last == x),
{
    let all = s.push(last);
    assert(all[s.len() as int] == last);
    if s.contains(x) {
        let k = choose|k: int| 0 <= k < s.len() && s[k] == x;
        assert(all[k] == x);
    }
    if all.contains(x) {
        let k = choose|k: int| 0 <= k < all.len() && all[k] == x;
        if k < s.len() {
            assert(s[k] == x);
        }
    }
}

/// Keeping what passes a test, one element at a time.
pub proof fn lemma_filter_step<A>(s: Seq<A>, i: int, pred: spec_fn(A) -> bool)
    requires
        0 <= i < s.len(),
    ensures
        s.take(i + 1).filter(pred) == if pred(s[i]) {
            s.take(i).filter(pred).push(s[i])
        } else {
            s.take(i).filter(pred)
        },
{
    reveal(Seq::filter);
    assert(s.take(i + 1).drop_last() =~= s.take(i));
    assert(s.take(i + 1).last() == s[i]);
}

/// Before the first element nothing has been kept, and after the last
/// everything has been looked at.
pub proof fn lemma_filter_ends<A>(s: Seq<A>, pred: spec_fn(A) -> bool)
    ensures
        s.take(0).filter(pred) == Seq::<A>::empty(),
        s.take(s.len() as int) == s,
{
    reveal(Seq::filter);
    assert(s.take(0) =~= Seq::empty());
    assert(s.take(0).filter(pred) =~= Seq::empty());
    assert(s.take(s.len() as int) =~= s);
}

/// What an optional value is.
pub open spec fn seen<T: View>(o: Option<T>) -> Option<T::V> {
    match o {
        Some(x) => Some(x@),
        None => None,
    }
}

/// A list with a member: one that is there already is not added again.
pub open spec fn with_member<A>(s: Seq<A>, x: A) -> Seq<A> {
    if s.contains(x) {
        s
    } else {
        s.push(x)
    }
}

} // verus!
