use vstd::prelude::*;

use crate::relay::fault::ParseError;
use crate::utils;

verus! {

/// A piece of a match state on its way.
#[derive(Debug, PartialEq)]
pub struct GamestateChunk {
    pub request_id: u32,
    pub data: Vec<u8>,
}

/// What [`GamestateChunk`] says.
pub struct GamestateChunkView {
    pub request_id: u32,
    pub data: Seq<u8>,
}

impl View for GamestateChunk {
    type V = GamestateChunkView;

    open spec fn view(&self) -> GamestateChunkView {
        GamestateChunkView {
            request_id: self.request_id,
            data: self.data@,
        }
    }
}

impl GamestateChunkView {
    /// The bytes on the wire.
    pub open spec fn bytes(self) -> Seq<u8> {
        utils::be32_bytes(self.request_id) + utils::blob_bytes(self.data)
    }

    /// Whether the wire can carry it: what reads back is what was written.
    pub open spec fn fits(self) -> bool {
        utils::blob_fits(self.data)
    }

    /// What a body holds; bytes past the last field are ignored.
    pub open spec fn parse(b: Seq<u8>) -> Result<GamestateChunkView, ParseError> {
        match utils::u32_at(b, 0, "request_id") {
            Err(e) => Err(e),
            Ok((request_id, p1)) => match utils::blob_at(b, p1, "data length", "data") {
                Err(e) => Err(e),
                Ok((data, _)) => Ok(GamestateChunkView { request_id, data }),
            },
        }
    }

    /// A body reads back as it was written.
    pub proof fn round_trip(self)
        requires
            self.fits(),
        ensures
            Self::parse(self.bytes()) == Ok::<GamestateChunkView, ParseError>(self),
    {
        let b = self.bytes();
        let e0 = utils::be32_bytes(self.request_id);
        let e1 = utils::blob_bytes(self.data);
        let p0 = 0int;
        let p1 = p0 + e0.len();
        assert(utils::u32_at(b, p0, "request_id") == Ok::<_, ParseError>((self.request_id, p0 + e0.len()))) by {
            assert(self.bytes() =~= Seq::<u8>::empty() + e0 + e1);
            utils::lemma_occurs(Seq::<u8>::empty(), e0, e1);
            utils::lemma_be32(b, p0, self.request_id);
        }
        assert(utils::blob_at(b, p1, "data length", "data") == Ok::<_, ParseError>((self.data, p1 + e1.len()))) by {
            assert(self.bytes() =~= e0 + e1 + Seq::<u8>::empty());
            utils::lemma_occurs(e0, e1, Seq::<u8>::empty());
            utils::lemma_blob(b, p1, self.data, "data length", "data");
        }
    }
}

impl Clone for GamestateChunk {
    fn clone(&self) -> (r: Self)
        ensures
            r@ == self@,
    {
        GamestateChunk {
            request_id: self.request_id,
            data: vstd::slice::slice_to_vec(self.data.as_slice()),
        }
    }
}

impl GamestateChunk {
    /// Appends the bytes on the wire.
    pub fn write(&self, out: &mut Vec<u8>)
        ensures
            final(out)@ == old(out)@ + self@.bytes(),
    {
        utils::put_be32(out, self.request_id);
        utils::put_blob(out, self.data.as_slice());
        assert(out@ =~= old(out)@ + self@.bytes());
    }

    pub fn to_bytes(&self) -> (r: Vec<u8>)
        ensures
            r@ == self@.bytes(),
    {
        let mut bytes: Vec<u8> = Vec::new();
        self.write(&mut bytes);
        assert(bytes@ =~= self@.bytes());
        bytes
    }

    pub fn from_bytes(buffer: &[u8]) -> (r: Result<Self, ParseError>)
        ensures
            utils::viewed(r) == GamestateChunkView::parse(buffer@),
    {
        let (request_id, pos) = utils::get_u32(buffer, 0, "request_id")?;
        let (data, _) = utils::get_blob(buffer, pos, "data length", "data")?;
        Ok(GamestateChunk { request_id, data })
    }
}

} // verus!
