use vstd::prelude::*;

use crate::relay::fault::ParseError;
use crate::utils;

verus! {

/// A client's hash of the match state after a turn.
#[derive(Debug, PartialEq)]
pub struct StateHash {
    pub turn: u32,
    pub hash: Vec<u8>,
}

/// What [`StateHash`] says.
pub struct StateHashView {
    pub turn: u32,
    pub hash: Seq<u8>,
}

impl View for StateHash {
    type V = StateHashView;

    open spec fn view(&self) -> StateHashView {
        StateHashView {
            turn: self.turn,
            hash: self.hash@,
        }
    }
}

impl StateHashView {
    /// The bytes on the wire.
    pub open spec fn bytes(self) -> Seq<u8> {
        utils::be32_bytes(self.turn) + utils::blob_bytes(self.hash)
    }

    /// Whether the wire can carry it: what reads back is what was written.
    pub open spec fn fits(self) -> bool {
        utils::blob_fits(self.hash)
    }

    /// What a body holds; bytes past the last field are ignored.
    pub open spec fn parse(b: Seq<u8>) -> Result<StateHashView, ParseError> {
        match utils::u32_at(b, 0, "turn") {
            Err(e) => Err(e),
            Ok((turn, p1)) => match utils::blob_at(b, p1, "hash length", "hash data") {
                Err(e) => Err(e),
                Ok((hash, _)) => Ok(StateHashView { turn, hash }),
            },
        }
    }

    /// A body reads back as it was written.
    pub proof fn round_trip(self)
        requires
            self.fits(),
        ensures
            Self::parse(self.bytes()) == Ok::<StateHashView, ParseError>(self),
    {
        let b = self.bytes();
        let e0 = utils::be32_bytes(self.turn);
        let e1 = utils::blob_bytes(self.hash);
        let p0 = 0int;
        let p1 = p0 + e0.len();
        assert(utils::u32_at(b, p0, "turn") == Ok::<_, ParseError>((self.turn, p0 + e0.len()))) by {
            assert(self.bytes() =~= Seq::<u8>::empty() + e0 + e1);
            utils::lemma_occurs(Seq::<u8>::empty(), e0, e1);
            utils::lemma_be32(b, p0, self.turn);
        }
        assert(utils::blob_at(b, p1, "hash length", "hash data") == Ok::<_, ParseError>((self.hash, p1 + e1.len()))) by {
            assert(self.bytes() =~= e0 + e1 + Seq::<u8>::empty());
            utils::lemma_occurs(e0, e1, Seq::<u8>::empty());
            utils::lemma_blob(b, p1, self.hash, "hash length", "hash data");
        }
    }
}

impl Clone for StateHash {
    fn clone(&self) -> (r: Self)
        ensures
            r@ == self@,
    {
        StateHash {
            turn: self.turn,
            hash: vstd::slice::slice_to_vec(self.hash.as_slice()),
        }
    }
}

impl StateHash {
    /// Appends the bytes on the wire.
    pub fn write(&self, out: &mut Vec<u8>)
        ensures
            final(out)@ == old(out)@ + self@.bytes(),
    {
        utils::put_be32(out, self.turn);
        utils::put_blob(out, self.hash.as_slice());
        assert(out@ =~= old(out)@ + self@.bytes());
    }

    pub fn to_bytes(&self) -> (r: Vec<u8>)
        ensures
            r@ == self@.bytes(),
    {
        let mut bytes: Vec<u8> = Vec::new();
        self.write(&mut bytes);
        assert(bytes@ =~= self@.bytes());
        bytes
    }

    pub fn from_bytes(buffer: &[u8]) -> (r: Result<Self, ParseError>)
        ensures
            utils::viewed(r) == StateHashView::parse(buffer@),
    {
        let (turn, pos) = utils::get_u32(buffer, 0, "turn")?;
        let (hash, _) = utils::get_blob(buffer, pos, "hash length", "hash data")?;
        Ok(StateHash { turn, hash })
    }
}

} // verus!
