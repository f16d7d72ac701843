use vstd::prelude::*;

use crate::relay::fault::ParseError;
use crate::relay::messages::guid::Guid;
use crate::relay::messages::items::WireItem;
use crate::utils;

verus! {

/// A row of the slot list.
#[derive(Debug, PartialEq)]
pub struct Host {
    pub guid: Guid,
    pub name: String,
    pub player_id: i8,
    pub status: u8,
}

/// What [`Host`] says.
pub struct HostView {
    pub guid: Seq<char>,
    pub name: Seq<char>,
    pub player_id: i8,
    pub status: u8,
}

impl View for Host {
    type V = HostView;

    open spec fn view(&self) -> HostView {
        HostView {
            guid: self.guid@,
            name: self.name@,
            player_id: self.player_id,
            status: self.status,
        }
    }
}

impl HostView {
    /// The bytes on the wire.
    pub open spec fn bytes(self) -> Seq<u8> {
        utils::text_bytes(self.guid) + utils::wide_bytes(self.name) + seq![utils::i8_byte(self.player_id)] + seq![self.status]
    }

    /// Whether the wire can carry it: what reads back is what was written.
    pub open spec fn fits(self) -> bool {
        &&& utils::text_fits(self.guid)
        &&& utils::wide_fits(self.name)
    }

    /// The one at `pos`, and where it ends.
    pub open spec fn at(b: Seq<u8>, pos: int) -> Result<(HostView, int), ParseError> {
        match utils::text_at(b, pos, "guid length", "guid data", "guid") {
            Err(e) => Err(e),
            Ok((guid, p1)) => match utils::wide_at(b, p1) {
                Err(e) => Err(e),
                Ok((name, p2)) => match utils::u8_at(b, p2, "player_id") {
                    Err(e) => Err(e),
                    Ok((player_id, p3)) => match utils::u8_at(b, p3, "status") {
                        Err(e) => Err(e),
                        Ok((status, p4)) => Ok((HostView { guid, name, player_id: utils::byte_i8(player_id), status }, p4)),
                    },
                },
            },
        }
    }

    /// What is written at `pos` is what is read there.
    pub proof fn round_trip_at(self, b: Seq<u8>, pos: int)
        requires
            utils::occurs(b, pos, self.bytes()),
            self.fits(),
        ensures
            Self::at(b, pos) == Ok::<(HostView, int), ParseError>((self, pos + self.bytes().len())),
    {
        let e0 = utils::text_bytes(self.guid);
        let e1 = utils::wide_bytes(self.name);
        let e2 = seq![utils::i8_byte(self.player_id)];
        let e3 = seq![self.status];
        let p0 = pos;
        let p1 = p0 + e0.len();
        let p2 = p1 + e1.len();
        let p3 = p2 + e2.len();
        assert(utils::text_at(b, p0, "guid length", "guid data", "guid") == Ok::<_, ParseError>((self.guid, p0 + e0.len()))) by {
            assert(self.bytes() =~= Seq::<u8>::empty() + e0 + (e1 + e2 + e3));
            utils::lemma_occurs_within(b, pos, Seq::<u8>::empty(), e0, e1 + e2 + e3);
            utils::lemma_text(b, p0, self.guid, "guid length", "guid data", "guid");
        }
        assert(utils::wide_at(b, p1) == Ok::<_, ParseError>((self.name, p1 + e1.len()))) by {
            assert(self.bytes() =~= e0 + e1 + (e2 + e3));
            utils::lemma_occurs_within(b, pos, e0, e1, e2 + e3);
            utils::lemma_wide(b, p1, self.name);
        }
        assert(utils::u8_at(b, p2, "player_id") == Ok::<_, ParseError>((utils::i8_byte(self.player_id), p2 + e2.len()))) by {
            assert(self.bytes() =~= e0 + e1 + e2 + e3);
            utils::lemma_occurs_within(b, pos, e0 + e1, e2, e3);
            assert(b.subrange(p2, p2 + 1)[0] == utils::i8_byte(self.player_id));
        }
        assert(utils::u8_at(b, p3, "status") == Ok::<_, ParseError>((self.status, p3 + e3.len()))) by {
            assert(self.bytes() =~= e0 + e1 + e2 + e3 + Seq::<u8>::empty());
            utils::lemma_occurs_within(b, pos, e0 + e1 + e2, e3, Seq::<u8>::empty());
            assert(b.subrange(p3, p3 + 1)[0] == self.status);
        }
    }
}

impl Clone for Host {
    fn clone(&self) -> (r: Self)
        ensures
            r@ == self@,
    {
        Host {
            guid: self.guid.clone(),
            name: self.name.clone(),
            player_id: self.player_id,
            status: self.status,
        }
    }
}

impl Host {
    /// Appends the bytes on the wire.
    pub fn write(&self, out: &mut Vec<u8>)
        ensures
            final(out)@ == old(out)@ + self@.bytes(),
    {
        utils::put_text(out, self.guid.0.as_str());
        utils::put_wide(out, self.name.as_str());
        utils::put_u8(out, utils::i8_to_byte(self.player_id));
        utils::put_u8(out, self.status);
        assert(out@ =~= old(out)@ + self@.bytes());
    }

    pub fn to_bytes(&self) -> (r: Vec<u8>)
        ensures
            r@ == self@.bytes(),
    {
        let mut bytes: Vec<u8> = Vec::new();
        self.write(&mut bytes);
        assert(bytes@ =~= self@.bytes());
        bytes
    }

    /// The one at `pos`, and where it ends.
    pub fn read_at(buffer: &[u8], pos: usize) -> (r: Result<(Self, usize), ParseError>)
        ensures
            utils::viewed_at(r) == HostView::at(buffer@, pos as int),
    {
        let (guid, pos) = utils::get_text(buffer, pos, "guid length", "guid data", "guid")?;
        let (name, pos) = utils::read_wide_string(buffer, pos)?;
        let (player_id, pos) = utils::get_u8(buffer, pos, "player_id")?;
        let (status, pos) = utils::get_u8(buffer, pos, "status")?;
        Ok((Host { guid: Guid(guid), name, player_id: utils::byte_to_i8(player_id), status }, pos))
    }

    /// The first one, and how many bytes it takes.
    pub fn from_bytes(buffer: &[u8]) -> (r: Result<(Self, usize), ParseError>)
        ensures
            utils::viewed_at(r) == HostView::at(buffer@, 0),
    {
        Self::read_at(buffer, 0)
    }
}

impl WireItem for Host {
    open spec fn item_bytes(v: HostView) -> Seq<u8> {
        v.bytes()
    }

    open spec fn item_fits(v: HostView) -> bool {
        v.fits()
    }

    open spec fn item_at(b: Seq<u8>, pos: int) -> Result<(HostView, int), ParseError> {
        HostView::at(b, pos)
    }

    proof fn item_advances(b: Seq<u8>, pos: int) {
        utils::lemma_wide_advances(b, pos + 4 + utils::be32_at(b, pos));
    }

    proof fn item_round_trip(v: HostView, b: Seq<u8>, pos: int) {
        v.round_trip_at(b, pos);
    }

    proof fn item_moves(a: Seq<u8>, b: Seq<u8>, pos: int) {
        utils::lemma_text_moves(a, b, pos, "guid length", "guid data", "guid");
        if let Ok((_, p1)) = utils::text_at(b, pos, "guid length", "guid data", "guid") {
            utils::lemma_wide_moves(a, b, p1);
            if let Ok((_, p2)) = utils::wide_at(b, p1) {
                utils::lemma_u8_moves(a, b, p2, "player_id");
                utils::lemma_u8_moves(a, b, p2 + 1, "status");
            }
        }
    }

    fn write_item(&self, out: &mut Vec<u8>) {
        self.write(out);
    }

    fn read_item(buffer: &[u8], pos: usize) -> (r: Result<(Self, usize), ParseError>) {
        Self::read_at(buffer, pos)
    }

    fn copy_item(&self) -> (r: Self) {
        self.clone()
    }
}

} // verus!
