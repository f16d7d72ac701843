use vstd::prelude::*;

use crate::relay::fault::ParseError;
use crate::relay::messages::guid::Guid;
use crate::utils;

verus! {

/// A client having caught up with the match it joined.
#[derive(Debug, PartialEq)]
pub struct Joined {
    pub guid: Guid,
}

/// What [`Joined`] says.
pub struct JoinedView {
    pub guid: Seq<char>,
}

impl View for Joined {
    type V = JoinedView;

    open spec fn view(&self) -> JoinedView {
        JoinedView {
            guid: self.guid@,
        }
    }
}

impl JoinedView {
    /// The bytes on the wire.
    pub open spec fn bytes(self) -> Seq<u8> {
        utils::text_bytes(self.guid)
    }

    /// Whether the wire can carry it: what reads back is what was written.
    pub open spec fn fits(self) -> bool {
        utils::text_fits(self.guid)
    }

    /// What a body holds; bytes past the last field are ignored.
    pub open spec fn parse(b: Seq<u8>) -> Result<JoinedView, ParseError> {
        match utils::text_at(b, 0, "guid length", "guid data", "guid") {
            Err(e) => Err(e),
            Ok((guid, _)) => Ok(JoinedView { guid }),
        }
    }

    /// A body reads back as it was written.
    pub proof fn round_trip(self)
        requires
            self.fits(),
        ensures
            Self::parse(self.bytes()) == Ok::<JoinedView, ParseError>(self),
    {
        let b = self.bytes();
        let e0 = utils::text_bytes(self.guid);
        assert(b.subrange(0, b.len() as int) =~= b);
        utils::lemma_text(b, 0, self.guid, "guid length", "guid data", "guid");
    }
}

impl Clone for Joined {
    fn clone(&self) -> (r: Self)
        ensures
            r@ == self@,
    {
        Joined {
            guid: self.guid.clone(),
        }
    }
}

impl Joined {
    /// Appends the bytes on the wire.
    pub fn write(&self, out: &mut Vec<u8>)
        ensures
            final(out)@ == old(out)@ + self@.bytes(),
    {
        utils::put_text(out, self.guid.0.as_str());
        assert(out@ =~= old(out)@ + self@.bytes());
    }

    pub fn to_bytes(&self) -> (r: Vec<u8>)
        ensures
            r@ == self@.bytes(),
    {
        let mut bytes: Vec<u8> = Vec::new();
        self.write(&mut bytes);
        assert(bytes@ =~= self@.bytes());
        bytes
    }

    pub fn from_bytes(buffer: &[u8]) -> (r: Result<Self, ParseError>)
        ensures
            utils::viewed(r) == JoinedView::parse(buffer@),
    {
        let (guid, _) = utils::get_text(buffer, 0, "guid length", "guid data", "guid")?;
        Ok(Joined { guid: Guid(guid) })
    }
}

} // verus!
