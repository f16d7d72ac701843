use vstd::prelude::*;

use crate::relay::fault::ParseError;
use crate::relay::messages::items;
use crate::utils;

verus! {

/// The players whose match state disagrees with the rest.
#[derive(Debug, PartialEq)]
pub struct WrongHashPlayers {
    pub turn: u32,
    pub hash_expected: Vec<u8>,
    pub player_names: Vec<String>,
}

/// What [`WrongHashPlayers`] says.
pub struct WrongHashPlayersView {
    pub turn: u32,
    pub hash_expected: Seq<u8>,
    pub player_names: Seq<Seq<char>>,
}

impl View for WrongHashPlayers {
    type V = WrongHashPlayersView;

    open spec fn view(&self) -> WrongHashPlayersView {
        WrongHashPlayersView {
            turn: self.turn,
            hash_expected: self.hash_expected@,
            player_names: items::views(self.player_names@),
        }
    }
}

impl WrongHashPlayersView {
    /// The bytes on the wire.
    pub open spec fn bytes(self) -> Seq<u8> {
        utils::be32_bytes(self.turn) + utils::blob_bytes(self.hash_expected) + items::items_bytes::<String>(self.player_names)
    }

    /// Whether the wire can carry it: what reads back is what was written.
    pub open spec fn fits(self) -> bool {
        &&& utils::blob_fits(self.hash_expected)
        &&& items::items_fit::<String>(self.player_names)
    }

    /// What a body holds; the list runs to its end.
    pub open spec fn parse(b: Seq<u8>) -> Result<WrongHashPlayersView, ParseError> {
        match utils::u32_at(b, 0, "turn") {
            Err(e) => Err(e),
            Ok((turn, p1)) => match utils::blob_at(b, p1, "hash_expected length", "hash_expected data") {
                Err(e) => Err(e),
                Ok((hash_expected, p2)) => match items::items_at::<String>(b, p2) {
                    Err(e) => Err(e),
                    Ok(player_names) => Ok(WrongHashPlayersView { turn, hash_expected, player_names }),
                },
            },
        }
    }

    /// A body reads back as it was written.
    pub proof fn round_trip(self)
        requires
            self.fits(),
        ensures
            Self::parse(self.bytes()) == Ok::<WrongHashPlayersView, ParseError>(self),
    {
        let b = self.bytes();
        let e0 = utils::be32_bytes(self.turn);
        let e1 = utils::blob_bytes(self.hash_expected);
        let e2 = items::items_bytes::<String>(self.player_names);
        let p0 = 0int;
        let p1 = p0 + e0.len();
        let p2 = p1 + e1.len();
        assert(utils::u32_at(b, p0, "turn") == Ok::<_, ParseError>((self.turn, p0 + e0.len()))) by {
            assert(self.bytes() =~= Seq::<u8>::empty() + e0 + (e1 + e2));
            utils::lemma_occurs(Seq::<u8>::empty(), e0, e1 + e2);
            utils::lemma_be32(b, p0, self.turn);
        }
        assert(utils::blob_at(b, p1, "hash_expected length", "hash_expected data") == Ok::<_, ParseError>((self.hash_expected, p1 + e1.len()))) by {
            assert(self.bytes() =~= e0 + e1 + e2);
            utils::lemma_occurs(e0, e1, e2);
            utils::lemma_blob(b, p1, self.hash_expected, "hash_expected length", "hash_expected data");
        }
        assert(items::items_at::<String>(b, p2) == Ok::<_, ParseError>(self.player_names)) by {
            assert(self.bytes() =~= e0 + e1 + e2 + Seq::<u8>::empty());
            utils::lemma_occurs(e0 + e1, e2, Seq::<u8>::empty());
            items::lemma_items::<String>(self.player_names, b, p2);
        }
    }
}

impl Clone for WrongHashPlayers {
    fn clone(&self) -> (r: Self)
        ensures
            r@ == self@,
    {
        WrongHashPlayers {
            turn: self.turn,
            hash_expected: vstd::slice::slice_to_vec(self.hash_expected.as_slice()),
            player_names: items::copy_items(&self.player_names),
        }
    }
}

impl WrongHashPlayers {
    /// Appends the bytes on the wire.
    pub fn write(&self, out: &mut Vec<u8>)
        ensures
            final(out)@ == old(out)@ + self@.bytes(),
    {
        utils::put_be32(out, self.turn);
        utils::put_blob(out, self.hash_expected.as_slice());
        items::write_items(&self.player_names, out);
        assert(out@ =~= old(out)@ + self@.bytes());
    }

    pub fn to_bytes(&self) -> (r: Vec<u8>)
        ensures
            r@ == self@.bytes(),
    {
        let mut bytes: Vec<u8> = Vec::new();
        self.write(&mut bytes);
        assert(bytes@ =~= self@.bytes());
        bytes
    }

    pub fn from_bytes(buffer: &[u8]) -> (r: Result<Self, ParseError>)
        ensures
            utils::viewed(r) == WrongHashPlayersView::parse(buffer@),
    {
        let (turn, pos) = utils::get_u32(buffer, 0, "turn")?;
        let (hash_expected, pos) = utils::get_blob(buffer, pos, "hash_expected length", "hash_expected data")?;
        let player_names = items::read_items::<String>(buffer, pos)?;
        Ok(WrongHashPlayers { turn, hash_expected, player_names })
    }
}

} // verus!
