use vstd::prelude::*;

use crate::relay::fault::ParseError;
use crate::relay::messages::guid::Guid;
use crate::utils;

verus! {

/// Which player a client plays.
#[derive(Debug, PartialEq)]
pub struct MapPlayerIdToSlot {
    pub player_id: i8,
    pub guid: Guid,
}

/// What [`MapPlayerIdToSlot`] says.
pub struct MapPlayerIdToSlotView {
    pub player_id: i8,
    pub guid: Seq<char>,
}

impl View for MapPlayerIdToSlot {
    type V = MapPlayerIdToSlotView;

    open spec fn view(&self) -> MapPlayerIdToSlotView {
        MapPlayerIdToSlotView {
            player_id: self.player_id,
            guid: self.guid@,
        }
    }
}

impl MapPlayerIdToSlotView {
    /// The bytes on the wire.
    pub open spec fn bytes(self) -> Seq<u8> {
        seq![utils::i8_byte(self.player_id)] + utils::text_bytes(self.guid)
    }

    /// Whether the wire can carry it: what reads back is what was written.
    pub open spec fn fits(self) -> bool {
        utils::text_fits(self.guid)
    }

    /// What a body holds; bytes past the last field are ignored.
    pub open spec fn parse(b: Seq<u8>) -> Result<MapPlayerIdToSlotView, ParseError> {
        match utils::u8_at(b, 0, "player_id") {
            Err(e) => Err(e),
            Ok((player_id, p1)) => match utils::text_at(b, p1, "guid length", "guid data", "guid") {
                Err(e) => Err(e),
                Ok((guid, _)) => Ok(MapPlayerIdToSlotView { player_id: utils::byte_i8(player_id), guid }),
            },
        }
    }

    /// A body reads back as it was written.
    pub proof fn round_trip(self)
        requires
            self.fits(),
        ensures
            Self::parse(self.bytes()) == Ok::<MapPlayerIdToSlotView, ParseError>(self),
    {
        let b = self.bytes();
        let e0 = seq![utils::i8_byte(self.player_id)];
        let e1 = utils::text_bytes(self.guid);
        let p0 = 0int;
        let p1 = p0 + e0.len();
        assert(utils::u8_at(b, p0, "player_id") == Ok::<_, ParseError>((utils::i8_byte(self.player_id), p0 + e0.len()))) by {
            assert(self.bytes() =~= Seq::<u8>::empty() + e0 + e1);
            utils::lemma_occurs(Seq::<u8>::empty(), e0, e1);
            assert(b.subrange(p0, p0 + 1)[0] == utils::i8_byte(self.player_id));
        }
        assert(utils::text_at(b, p1, "guid length", "guid data", "guid") == Ok::<_, ParseError>((self.guid, p1 + e1.len()))) by {
            assert(self.bytes() =~= e0 + e1 + Seq::<u8>::empty());
            utils::lemma_occurs(e0, e1, Seq::<u8>::empty());
            utils::lemma_text(b, p1, self.guid, "guid length", "guid data", "guid");
        }
    }
}

impl Clone for MapPlayerIdToSlot {
    fn clone(&self) -> (r: Self)
        ensures
            r@ == self@,
    {
        MapPlayerIdToSlot {
            player_id: self.player_id,
            guid: self.guid.clone(),
        }
    }
}

impl MapPlayerIdToSlot {
    /// Appends the bytes on the wire.
    pub fn write(&self, out: &mut Vec<u8>)
        ensures
            final(out)@ == old(out)@ + self@.bytes(),
    {
        utils::put_u8(out, utils::i8_to_byte(self.player_id));
        utils::put_text(out, self.guid.0.as_str());
        assert(out@ =~= old(out)@ + self@.bytes());
    }

    pub fn to_bytes(&self) -> (r: Vec<u8>)
        ensures
            r@ == self@.bytes(),
    {
        let mut bytes: Vec<u8> = Vec::new();
        self.write(&mut bytes);
        assert(bytes@ =~= self@.bytes());
        bytes
    }

    pub fn from_bytes(buffer: &[u8]) -> (r: Result<Self, ParseError>)
        ensures
            utils::viewed(r) == MapPlayerIdToSlotView::parse(buffer@),
    {
        let (player_id, pos) = utils::get_u8(buffer, 0, "player_id")?;
        let (guid, _) = utils::get_text(buffer, pos, "guid length", "guid data", "guid")?;
        Ok(MapPlayerIdToSlot { player_id: utils::byte_to_i8(player_id), guid: Guid(guid) })
    }
}

} // verus!
