use vstd::prelude::*;

use crate::relay::fault::ParseError;
use crate::relay::messages::guid::Guid;
use crate::utils;

verus! {

/// A client that has gone silent, and for how long in milliseconds.
#[derive(Debug, PartialEq)]
pub struct LastSeen {
    pub guid: Guid,
    pub last_received_time: u32,
}

/// What [`LastSeen`] says.
pub struct LastSeenView {
    pub guid: Seq<char>,
    pub last_received_time: u32,
}

impl View for LastSeen {
    type V = LastSeenView;

    open spec fn view(&self) -> LastSeenView {
        LastSeenView {
            guid: self.guid@,
            last_received_time: self.last_received_time,
        }
    }
}

impl LastSeenView {
    /// The bytes on the wire.
    pub open spec fn bytes(self) -> Seq<u8> {
        utils::text_bytes(self.guid) + utils::be32_bytes(self.last_received_time)
    }

    /// Whether the wire can carry it: what reads back is what was written.
    pub open spec fn fits(self) -> bool {
        utils::text_fits(self.guid)
    }

    /// What a body holds; bytes past the last field are ignored.
    pub open spec fn parse(b: Seq<u8>) -> Result<LastSeenView, ParseError> {
        match utils::text_at(b, 0, "guid length", "guid data", "guid") {
            Err(e) => Err(e),
            Ok((guid, p1)) => match utils::u32_at(b, p1, "last_received_time") {
                Err(e) => Err(e),
                Ok((last_received_time, _)) => Ok(LastSeenView { guid, last_received_time }),
            },
        }
    }

    /// A body reads back as it was written.
    pub proof fn round_trip(self)
        requires
            self.fits(),
        ensures
            Self::parse(self.bytes()) == Ok::<LastSeenView, ParseError>(self),
    {
        let b = self.bytes();
        let e0 = utils::text_bytes(self.guid);
        let e1 = utils::be32_bytes(self.last_received_time);
        let p0 = 0int;
        let p1 = p0 + e0.len();
        assert(utils::text_at(b, p0, "guid length", "guid data", "guid") == Ok::<_, ParseError>((self.guid, p0 + e0.len()))) by {
            assert(self.bytes() =~= Seq::<u8>::empty() + e0 + e1);
            utils::lemma_occurs(Seq::<u8>::empty(), e0, e1);
            utils::lemma_text(b, p0, self.guid, "guid length", "guid data", "guid");
        }
        assert(utils::u32_at(b, p1, "last_received_time") == Ok::<_, ParseError>((self.last_received_time, p1 + e1.len()))) by {
            assert(self.bytes() =~= e0 + e1 + Seq::<u8>::empty());
            utils::lemma_occurs(e0, e1, Seq::<u8>::empty());
            utils::lemma_be32(b, p1, self.last_received_time);
        }
    }
}

impl Clone for LastSeen {
    fn clone(&self) -> (r: Self)
        ensures
            r@ == self@,
    {
        LastSeen {
            guid: self.guid.clone(),
            last_received_time: self.last_received_time,
        }
    }
}

impl LastSeen {
    /// Appends the bytes on the wire.
    pub fn write(&self, out: &mut Vec<u8>)
        ensures
            final(out)@ == old(out)@ + self@.bytes(),
    {
        utils::put_text(out, self.guid.0.as_str());
        utils::put_be32(out, self.last_received_time);
        assert(out@ =~= old(out)@ + self@.bytes());
    }

    pub fn to_bytes(&self) -> (r: Vec<u8>)
        ensures
            r@ == self@.bytes(),
    {
        let mut bytes: Vec<u8> = Vec::new();
        self.write(&mut bytes);
        assert(bytes@ =~= self@.bytes());
        bytes
    }

    pub fn from_bytes(buffer: &[u8]) -> (r: Result<Self, ParseError>)
        ensures
            utils::viewed(r) == LastSeenView::parse(buffer@),
    {
        let (guid, pos) = utils::get_text(buffer, 0, "guid length", "guid data", "guid")?;
        let (last_received_time, _) = utils::get_u32(buffer, pos, "last_received_time")?;
        Ok(LastSeen { guid: Guid(guid), last_received_time })
    }
}

} // verus!
