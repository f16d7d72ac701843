use vstd::prelude::*;

use crate::relay::fault::ParseError;
use crate::utils;

verus! {

/// A client that is done loading, and the turn it stands at.
#[derive(Debug, Clone, Copy, PartialEq)]
pub struct LoadedGame {
    pub current_turn: u32,
}

impl View for LoadedGame {
    type V = Self;

    open spec fn view(&self) -> Self {
        *self
    }
}

impl LoadedGame {
    /// The bytes on the wire.
    pub open spec fn bytes(self) -> Seq<u8> {
        utils::be32_bytes(self.current_turn)
    }

    /// What a body holds; bytes past the last field are ignored.
    pub open spec fn parse(b: Seq<u8>) -> Result<LoadedGame, ParseError> {
        match utils::u32_at(b, 0, "current_turn") {
            Err(e) => Err(e),
            Ok((current_turn, _)) => Ok(LoadedGame { current_turn }),
        }
    }

    /// A body reads back as it was written.
    pub proof fn round_trip(self)
        ensures
            Self::parse(self.bytes()) == Ok::<LoadedGame, ParseError>(self),
    {
        let b = self.bytes();
        let e0 = utils::be32_bytes(self.current_turn);
        assert(b.subrange(0, b.len() as int) =~= b);
        utils::lemma_be32(b, 0, self.current_turn);
    }
}

impl LoadedGame {
    /// Appends the bytes on the wire.
    pub fn write(&self, out: &mut Vec<u8>)
        ensures
            final(out)@ == old(out)@ + self@.bytes(),
    {
        utils::put_be32(out, self.current_turn);
        assert(out@ =~= old(out)@ + self@.bytes());
    }

    pub fn to_bytes(&self) -> (r: Vec<u8>)
        ensures
            r@ == self@.bytes(),
    {
        let mut bytes: Vec<u8> = Vec::new();
        self.write(&mut bytes);
        assert(bytes@ =~= self@.bytes());
        bytes
    }

    pub fn from_bytes(buffer: &[u8]) -> (r: Result<Self, ParseError>)
        ensures
            utils::viewed(r) == LoadedGame::parse(buffer@),
    {
        let (current_turn, _) = utils::get_u32(buffer, 0, "current_turn")?;
        Ok(LoadedGame { current_turn })
    }
}

} // verus!
