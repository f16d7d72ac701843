use vstd::prelude::*;

use crate::relay::fault::ParseError;
use crate::relay::messages::items::WireItem;
use crate::utils;

verus! {

/// The identity the relay gives a client for as long as a match lasts.
#[derive(Debug, PartialEq, Eq, Hash)]
pub struct Guid(pub String);

impl View for Guid {
    type V = Seq<char>;

    open spec fn view(&self) -> Seq<char> {
        self.0@
    }
}

impl Clone for Guid {
    fn clone(&self) -> (r: Self)
        ensures
            r == *self,
    {
        Guid(self.0.clone())
    }
}

/// Whether a character is a lower-case hexadecimal digit.
pub open spec fn hex_digit(c: char) -> bool {
    '0' <= c <= '9' || 'a' <= c <= 'f'
}

/// The shape of a version 4 UUID: five groups of lower-case hexadecimal
/// digits with hyphens between them, the third group starting with the
/// version.
pub open spec fn uuid_shaped(s: Seq<char>) -> bool {
    &&& s.len() == 36
    &&& s[14] == '4'
    &&& forall|i: int|
        0 <= i < 36 ==> if i == 8 || i == 13 || i == 18 || i == 23 {
            #[trigger] s[i] == '-'
        } else {
            hex_digit(s[i])
        }
}

/// `uuid::Uuid::new_v4`, written out as `Uuid` displays itself: hyphenated
/// lower-case hexadecimal. The digits are random, so only the shape is known.
#[verifier::external_body]
fn fresh_uuid() -> (r: String)
    ensures
        uuid_shaped(r@),
{
    uuid::Uuid::new_v4().to_string()
}

impl Guid {
    pub fn new() -> (r: Self)
        ensures
            uuid_shaped(r@),
    {
        Guid(fresh_uuid())
    }

    /// The identity as text.
    pub fn to_string(&self) -> (r: String)
        ensures
            r@ == self@,
    {
        self.0.clone()
    }

    /// Whether both are the same identity.
    pub fn same(&self, other: &Guid) -> (r: bool)
        ensures
            r == (self@ == other@),
    {
        self.0 == other.0
    }
}

impl Default for Guid {
    fn default() -> (r: Self)
        ensures
            uuid_shaped(r@),
    {
        Guid::new()
    }
}

impl WireItem for Guid {
    open spec fn item_bytes(v: Seq<char>) -> Seq<u8> {
        utils::text_bytes(v)
    }

    open spec fn item_fits(v: Seq<char>) -> bool {
        utils::text_fits(v)
    }

    open spec fn item_at(b: Seq<u8>, pos: int) -> Result<(Seq<char>, int), ParseError> {
        utils::text_at(b, pos, "receiver guid length", "receiver guid data", "receiver guid")
    }

    proof fn item_advances(b: Seq<u8>, pos: int) {
    }

    proof fn item_round_trip(v: Seq<char>, b: Seq<u8>, pos: int) {
        utils::lemma_text(
            b,
            pos,
            v,
            "receiver guid length",
            "receiver guid data",
            "receiver guid",
        );
    }

    proof fn item_moves(a: Seq<u8>, b: Seq<u8>, pos: int) {
        utils::lemma_text_moves(
            a,
            b,
            pos,
            "receiver guid length",
            "receiver guid data",
            "receiver guid",
        );
    }

    fn write_item(&self, out: &mut Vec<u8>) {
        utils::put_text(out, self.0.as_str());
    }

    fn read_item(buffer: &[u8], pos: usize) -> (r: Result<(Self, usize), ParseError>) {
        let (text, next) = utils::get_text(
            buffer,
            pos,
            "receiver guid length",
            "receiver guid data",
            "receiver guid",
        )?;
        Ok((Guid(text), next))
    }

    fn copy_item(&self) -> (r: Self) {
        self.clone()
    }
}

} // verus!
