use vstd::prelude::*;

use crate::relay::fault::ParseError;
use crate::utils;

verus! {

/// A turn whose commands are complete, with its length in milliseconds.
#[derive(Debug, Clone, Copy, PartialEq)]
pub struct TurnSealed {
    pub turn: u32,
    pub turn_length: u16,
}

impl View for TurnSealed {
    type V = Self;

    open spec fn view(&self) -> Self {
        *self
    }
}

impl TurnSealed {
    /// The bytes on the wire.
    pub open spec fn bytes(self) -> Seq<u8> {
        utils::be32_bytes(self.turn) + utils::be16_bytes(self.turn_length)
    }

    /// What a body holds; bytes past the last field are ignored.
    pub open spec fn parse(b: Seq<u8>) -> Result<TurnSealed, ParseError> {
        match utils::u32_at(b, 0, "turn") {
            Err(e) => Err(e),
            Ok((turn, p1)) => match utils::u16_at(b, p1, "turn_length") {
                Err(e) => Err(e),
                Ok((turn_length, _)) => Ok(TurnSealed { turn, turn_length }),
            },
        }
    }

    /// A body reads back as it was written.
    pub proof fn round_trip(self)
        ensures
            Self::parse(self.bytes()) == Ok::<TurnSealed, ParseError>(self),
    {
        let b = self.bytes();
        let e0 = utils::be32_bytes(self.turn);
        let e1 = utils::be16_bytes(self.turn_length);
        let p0 = 0int;
        let p1 = p0 + e0.len();
        assert(utils::u32_at(b, p0, "turn") == Ok::<_, ParseError>((self.turn, p0 + e0.len()))) by {
            assert(self.bytes() =~= Seq::<u8>::empty() + e0 + e1);
            utils::lemma_occurs(Seq::<u8>::empty(), e0, e1);
            utils::lemma_be32(b, p0, self.turn);
        }
        assert(utils::u16_at(b, p1, "turn_length") == Ok::<_, ParseError>((self.turn_length, p1 + e1.len()))) by {
            assert(self.bytes() =~= e0 + e1 + Seq::<u8>::empty());
            utils::lemma_occurs(e0, e1, Seq::<u8>::empty());
            utils::lemma_be16(b, p1, self.turn_length);
        }
    }
}

impl TurnSealed {
    /// Appends the bytes on the wire.
    pub fn write(&self, out: &mut Vec<u8>)
        ensures
            final(out)@ == old(out)@ + self@.bytes(),
    {
        utils::put_be32(out, self.turn);
        utils::put_be16(out, self.turn_length);
        assert(out@ =~= old(out)@ + self@.bytes());
    }

    pub fn to_bytes(&self) -> (r: Vec<u8>)
        ensures
            r@ == self@.bytes(),
    {
        let mut bytes: Vec<u8> = Vec::new();
        self.write(&mut bytes);
        assert(bytes@ =~= self@.bytes());
        bytes
    }

    pub fn from_bytes(buffer: &[u8]) -> (r: Result<Self, ParseError>)
        ensures
            utils::viewed(r) == TurnSealed::parse(buffer@),
    {
        let (turn, pos) = utils::get_u32(buffer, 0, "turn")?;
        let (turn_length, _) = utils::get_u16(buffer, pos, "turn_length")?;
        Ok(TurnSealed { turn, turn_length })
    }
}

} // verus!
