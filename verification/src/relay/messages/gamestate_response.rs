use vstd::prelude::*;

use crate::relay::fault::ParseError;
use crate::utils;

verus! {

/// How long the match state asked for is.
#[derive(Debug, Clone, Copy, PartialEq)]
pub struct GamestateResponse {
    pub request_id: u32,
    pub length: u32,
}

impl View for GamestateResponse {
    type V = Self;

    open spec fn view(&self) -> Self {
        *self
    }
}

impl GamestateResponse {
    /// The bytes on the wire.
    pub open spec fn bytes(self) -> Seq<u8> {
        utils::be32_bytes(self.request_id) + utils::be32_bytes(self.length)
    }

    /// What a body holds; bytes past the last field are ignored.
    pub open spec fn parse(b: Seq<u8>) -> Result<GamestateResponse, ParseError> {
        match utils::u32_at(b, 0, "request_id") {
            Err(e) => Err(e),
            Ok((request_id, p1)) => match utils::u32_at(b, p1, "length") {
                Err(e) => Err(e),
                Ok((length, _)) => Ok(GamestateResponse { request_id, length }),
            },
        }
    }

    /// A body reads back as it was written.
    pub proof fn round_trip(self)
        ensures
            Self::parse(self.bytes()) == Ok::<GamestateResponse, ParseError>(self),
    {
        let b = self.bytes();
        let e0 = utils::be32_bytes(self.request_id);
        let e1 = utils::be32_bytes(self.length);
        let p0 = 0int;
        let p1 = p0 + e0.len();
        assert(utils::u32_at(b, p0, "request_id") == Ok::<_, ParseError>((self.request_id, p0 + e0.len()))) by {
            assert(self.bytes() =~= Seq::<u8>::empty() + e0 + e1);
            utils::lemma_occurs(Seq::<u8>::empty(), e0, e1);
            utils::lemma_be32(b, p0, self.request_id);
        }
        assert(utils::u32_at(b, p1, "length") == Ok::<_, ParseError>((self.length, p1 + e1.len()))) by {
            assert(self.bytes() =~= e0 + e1 + Seq::<u8>::empty());
            utils::lemma_occurs(e0, e1, Seq::<u8>::empty());
            utils::lemma_be32(b, p1, self.length);
        }
    }
}

impl GamestateResponse {
    /// Appends the bytes on the wire.
    pub fn write(&self, out: &mut Vec<u8>)
        ensures
            final(out)@ == old(out)@ + self@.bytes(),
    {
        utils::put_be32(out, self.request_id);
        utils::put_be32(out, self.length);
        assert(out@ =~= old(out)@ + self@.bytes());
    }

    pub fn to_bytes(&self) -> (r: Vec<u8>)
        ensures
            r@ == self@.bytes(),
    {
        let mut bytes: Vec<u8> = Vec::new();
        self.write(&mut bytes);
        assert(bytes@ =~= self@.bytes());
        bytes
    }

    pub fn from_bytes(buffer: &[u8]) -> (r: Result<Self, ParseError>)
        ensures
            utils::viewed(r) == GamestateResponse::parse(buffer@),
    {
        let (request_id, pos) = utils::get_u32(buffer, 0, "request_id")?;
        let (length, _) = utils::get_u32(buffer, pos, "length")?;
        Ok(GamestateResponse { request_id, length })
    }
}

} // verus!
