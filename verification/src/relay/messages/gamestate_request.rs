use vstd::prelude::*;

use crate::relay::fault::ParseError;
use crate::utils;

verus! {

/// Asking for a match state.
#[derive(Debug, Clone, Copy, PartialEq)]
pub struct GamestateRequest {
    pub request_type: i8,
    pub request_id: u32,
}

impl View for GamestateRequest {
    type V = Self;

    open spec fn view(&self) -> Self {
        *self
    }
}

impl GamestateRequest {
    /// The bytes on the wire.
    pub open spec fn bytes(self) -> Seq<u8> {
        seq![utils::i8_byte(self.request_type)] + utils::be32_bytes(self.request_id)
    }

    /// What a body holds; bytes past the last field are ignored.
    pub open spec fn parse(b: Seq<u8>) -> Result<GamestateRequest, ParseError> {
        match utils::u8_at(b, 0, "request_type") {
            Err(e) => Err(e),
            Ok((request_type, p1)) => match utils::u32_at(b, p1, "request_id") {
                Err(e) => Err(e),
                Ok((request_id, _)) => Ok(GamestateRequest { request_type: utils::byte_i8(request_type), request_id }),
            },
        }
    }

    /// A body reads back as it was written.
    pub proof fn round_trip(self)
        ensures
            Self::parse(self.bytes()) == Ok::<GamestateRequest, ParseError>(self),
    {
        let b = self.bytes();
        let e0 = seq![utils::i8_byte(self.request_type)];
        let e1 = utils::be32_bytes(self.request_id);
        let p0 = 0int;
        let p1 = p0 + e0.len();
        assert(utils::u8_at(b, p0, "request_type") == Ok::<_, ParseError>((utils::i8_byte(self.request_type), p0 + e0.len()))) by {
            assert(self.bytes() =~= Seq::<u8>::empty() + e0 + e1);
            utils::lemma_occurs(Seq::<u8>::empty(), e0, e1);
            assert(b.subrange(p0, p0 + 1)[0] == utils::i8_byte(self.request_type));
        }
        assert(utils::u32_at(b, p1, "request_id") == Ok::<_, ParseError>((self.request_id, p1 + e1.len()))) by {
            assert(self.bytes() =~= e0 + e1 + Seq::<u8>::empty());
            utils::lemma_occurs(e0, e1, Seq::<u8>::empty());
            utils::lemma_be32(b, p1, self.request_id);
        }
    }
}

impl GamestateRequest {
    /// Appends the bytes on the wire.
    pub fn write(&self, out: &mut Vec<u8>)
        ensures
            final(out)@ == old(out)@ + self@.bytes(),
    {
        utils::put_u8(out, utils::i8_to_byte(self.request_type));
        utils::put_be32(out, self.request_id);
        assert(out@ =~= old(out)@ + self@.bytes());
    }

    pub fn to_bytes(&self) -> (r: Vec<u8>)
        ensures
            r@ == self@.bytes(),
    {
        let mut bytes: Vec<u8> = Vec::new();
        self.write(&mut bytes);
        assert(bytes@ =~= self@.bytes());
        bytes
    }

    pub fn from_bytes(buffer: &[u8]) -> (r: Result<Self, ParseError>)
        ensures
            utils::viewed(r) == GamestateRequest::parse(buffer@),
    {
        let (request_type, pos) = utils::get_u8(buffer, 0, "request_type")?;
        let (request_id, _) = utils::get_u32(buffer, pos, "request_id")?;
        Ok(GamestateRequest { request_type: utils::byte_to_i8(request_type), request_id })
    }
}

} // verus!
