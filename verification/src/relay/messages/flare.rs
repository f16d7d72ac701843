use vstd::prelude::*;

use crate::relay::fault::ParseError;
use crate::relay::messages::guid::Guid;
use crate::utils;

verus! {

/// A marker a player drops on the map.
#[derive(Debug, PartialEq)]
pub struct Flare {
    pub guid: Guid,
    pub position_x: String,
    pub position_y: String,
    pub position_z: String,
}

/// What [`Flare`] says.
pub struct FlareView {
    pub guid: Seq<char>,
    pub position_x: Seq<char>,
    pub position_y: Seq<char>,
    pub position_z: Seq<char>,
}

impl View for Flare {
    type V = FlareView;

    open spec fn view(&self) -> FlareView {
        FlareView {
            guid: self.guid@,
            position_x: self.position_x@,
            position_y: self.position_y@,
            position_z: self.position_z@,
        }
    }
}

impl FlareView {
    /// The bytes on the wire.
    pub open spec fn bytes(self) -> Seq<u8> {
        utils::text_bytes(self.guid) + utils::text_bytes(self.position_x) + utils::text_bytes(self.position_y) + utils::text_bytes(self.position_z)
    }

    /// Whether the wire can carry it: what reads back is what was written.
    pub open spec fn fits(self) -> bool {
        &&& utils::text_fits(self.guid)
        &&& utils::text_fits(self.position_x)
        &&& utils::text_fits(self.position_y)
        &&& utils::text_fits(self.position_z)
    }

    /// What a body holds; bytes past the last field are ignored.
    pub open spec fn parse(b: Seq<u8>) -> Result<FlareView, ParseError> {
        match utils::text_at(b, 0, "guid length", "guid data", "guid") {
            Err(e) => Err(e),
            Ok((guid, p1)) => match utils::text_at(b, p1, "position_x length", "position_x data", "position_x") {
                Err(e) => Err(e),
                Ok((position_x, p2)) => match utils::text_at(b, p2, "position_y length", "position_y data", "position_y") {
                    Err(e) => Err(e),
                    Ok((position_y, p3)) => match utils::text_at(b, p3, "position_z length", "position_z data", "position_z") {
                        Err(e) => Err(e),
                        Ok((position_z, _)) => Ok(FlareView { guid, position_x, position_y, position_z }),
                    },
                },
            },
        }
    }

    /// A body reads back as it was written.
    pub proof fn round_trip(self)
        requires
            self.fits(),
        ensures
            Self::parse(self.bytes()) == Ok::<FlareView, ParseError>(self),
    {
        let b = self.bytes();
        let e0 = utils::text_bytes(self.guid);
        let e1 = utils::text_bytes(self.position_x);
        let e2 = utils::text_bytes(self.position_y);
        let e3 = utils::text_bytes(self.position_z);
        let p0 = 0int;
        let p1 = p0 + e0.len();
        let p2 = p1 + e1.len();
        let p3 = p2 + e2.len();
        assert(utils::text_at(b, p0, "guid length", "guid data", "guid") == Ok::<_, ParseError>((self.guid, p0 + e0.len()))) by {
            assert(self.bytes() =~= Seq::<u8>::empty() + e0 + (e1 + e2 + e3));
            utils::lemma_occurs(Seq::<u8>::empty(), e0, e1 + e2 + e3);
            utils::lemma_text(b, p0, self.guid, "guid length", "guid data", "guid");
        }
        assert(utils::text_at(b, p1, "position_x length", "position_x data", "position_x") == Ok::<_, ParseError>((self.position_x, p1 + e1.len()))) by {
            assert(self.bytes() =~= e0 + e1 + (e2 + e3));
            utils::lemma_occurs(e0, e1, e2 + e3);
            utils::lemma_text(b, p1, self.position_x, "position_x length", "position_x data", "position_x");
        }
        assert(utils::text_at(b, p2, "position_y length", "position_y data", "position_y") == Ok::<_, ParseError>((self.position_y, p2 + e2.len()))) by {
            assert(self.bytes() =~= e0 + e1 + e2 + e3);
            utils::lemma_occurs(e0 + e1, e2, e3);
            utils::lemma_text(b, p2, self.position_y, "position_y length", "position_y data", "position_y");
        }
        assert(utils::text_at(b, p3, "position_z length", "position_z data", "position_z") == Ok::<_, ParseError>((self.position_z, p3 + e3.len()))) by {
            assert(self.bytes() =~= e0 + e1 + e2 + e3 + Seq::<u8>::empty());
            utils::lemma_occurs(e0 + e1 + e2, e3, Seq::<u8>::empty());
            utils::lemma_text(b, p3, self.position_z, "position_z length", "position_z data", "position_z");
        }
    }
}

impl Clone for Flare {
    fn clone(&self) -> (r: Self)
        ensures
            r@ == self@,
    {
        Flare {
            guid: self.guid.clone(),
            position_x: self.position_x.clone(),
            position_y: self.position_y.clone(),
            position_z: self.position_z.clone(),
        }
    }
}

impl Flare {
    /// Appends the bytes on the wire.
    pub fn write(&self, out: &mut Vec<u8>)
        ensures
            final(out)@ == old(out)@ + self@.bytes(),
    {
        utils::put_text(out, self.guid.0.as_str());
        utils::put_text(out, self.position_x.as_str());
        utils::put_text(out, self.position_y.as_str());
        utils::put_text(out, self.position_z.as_str());
        assert(out@ =~= old(out)@ + self@.bytes());
    }

    pub fn to_bytes(&self) -> (r: Vec<u8>)
        ensures
            r@ == self@.bytes(),
    {
        let mut bytes: Vec<u8> = Vec::new();
        self.write(&mut bytes);
        assert(bytes@ =~= self@.bytes());
        bytes
    }

    pub fn from_bytes(buffer: &[u8]) -> (r: Result<Self, ParseError>)
        ensures
            utils::viewed(r) == FlareView::parse(buffer@),
    {
        let (guid, pos) = utils::get_text(buffer, 0, "guid length", "guid data", "guid")?;
        let (position_x, pos) = utils::get_text(buffer, pos, "position_x length", "position_x data", "position_x")?;
        let (position_y, pos) = utils::get_text(buffer, pos, "position_y length", "position_y data", "position_y")?;
        let (position_z, _) = utils::get_text(buffer, pos, "position_z length", "position_z data", "position_z")?;
        Ok(Flare { guid: Guid(guid), position_x, position_y, position_z })
    }
}

} // verus!
