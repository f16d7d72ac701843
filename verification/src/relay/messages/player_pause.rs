use vstd::prelude::*;

use crate::relay::fault::ParseError;
use crate::relay::messages::guid::Guid;
use crate::utils;

verus! {

/// A client holding the match, or letting it go.
#[derive(Debug, PartialEq)]
pub struct PlayerPause {
    pub guid: Guid,
    pub pause: bool,
}

/// What [`PlayerPause`] says.
pub struct PlayerPauseView {
    pub guid: Seq<char>,
    pub pause: bool,
}

impl View for PlayerPause {
    type V = PlayerPauseView;

    open spec fn view(&self) -> PlayerPauseView {
        PlayerPauseView {
            guid: self.guid@,
            pause: self.pause,
        }
    }
}

impl PlayerPauseView {
    /// The bytes on the wire.
    pub open spec fn bytes(self) -> Seq<u8> {
        utils::text_bytes(self.guid) + seq![utils::flag_byte(self.pause)]
    }

    /// Whether the wire can carry it: what reads back is what was written.
    pub open spec fn fits(self) -> bool {
        utils::text_fits(self.guid)
    }

    /// What a body holds; bytes past the last field are ignored.
    pub open spec fn parse(b: Seq<u8>) -> Result<PlayerPauseView, ParseError> {
        match utils::text_at(b, 0, "guid length", "guid data", "guid") {
            Err(e) => Err(e),
            Ok((guid, p1)) => match utils::u8_at(b, p1, "pause") {
                Err(e) => Err(e),
                Ok((pause, _)) => Ok(PlayerPauseView { guid, pause: pause != 0 }),
            },
        }
    }

    /// A body reads back as it was written.
    pub proof fn round_trip(self)
        requires
            self.fits(),
        ensures
            Self::parse(self.bytes()) == Ok::<PlayerPauseView, ParseError>(self),
    {
        let b = self.bytes();
        let e0 = utils::text_bytes(self.guid);
        let e1 = seq![utils::flag_byte(self.pause)];
        let p0 = 0int;
        let p1 = p0 + e0.len();
        assert(utils::text_at(b, p0, "guid length", "guid data", "guid") == Ok::<_, ParseError>((self.guid, p0 + e0.len()))) by {
            assert(self.bytes() =~= Seq::<u8>::empty() + e0 + e1);
            utils::lemma_occurs(Seq::<u8>::empty(), e0, e1);
            utils::lemma_text(b, p0, self.guid, "guid length", "guid data", "guid");
        }
        assert(utils::u8_at(b, p1, "pause") == Ok::<_, ParseError>((utils::flag_byte(self.pause), p1 + e1.len()))) by {
            assert(self.bytes() =~= e0 + e1 + Seq::<u8>::empty());
            utils::lemma_occurs(e0, e1, Seq::<u8>::empty());
            assert(b.subrange(p1, p1 + 1)[0] == utils::flag_byte(self.pause));
        }
    }
}

impl Clone for PlayerPause {
    fn clone(&self) -> (r: Self)
        ensures
            r@ == self@,
    {
        PlayerPause {
            guid: self.guid.clone(),
            pause: self.pause,
        }
    }
}

impl PlayerPause {
    /// Appends the bytes on the wire.
    pub fn write(&self, out: &mut Vec<u8>)
        ensures
            final(out)@ == old(out)@ + self@.bytes(),
    {
        utils::put_text(out, self.guid.0.as_str());
        utils::put_u8(out, utils::flag_to_byte(self.pause));
        assert(out@ =~= old(out)@ + self@.bytes());
    }

    pub fn to_bytes(&self) -> (r: Vec<u8>)
        ensures
            r@ == self@.bytes(),
    {
        let mut bytes: Vec<u8> = Vec::new();
        self.write(&mut bytes);
        assert(bytes@ =~= self@.bytes());
        bytes
    }

    pub fn from_bytes(buffer: &[u8]) -> (r: Result<Self, ParseError>)
        ensures
            utils::viewed(r) == PlayerPauseView::parse(buffer@),
    {
        let (guid, pos) = utils::get_text(buffer, 0, "guid length", "guid data", "guid")?;
        let (pause, _) = utils::get_u8(buffer, pos, "pause")?;
        Ok(PlayerPause { guid: Guid(guid), pause: pause != 0 })
    }
}

} // verus!
