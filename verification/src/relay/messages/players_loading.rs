use vstd::prelude::*;

use crate::relay::fault::ParseError;
use crate::relay::messages::guid::Guid;
use crate::relay::messages::items;
use crate::utils;

verus! {

/// The clients still on the loading screen.
#[derive(Debug, PartialEq)]
pub struct PlayersLoading {
    pub clients: Vec<Guid>,
}

/// What [`PlayersLoading`] says.
pub struct PlayersLoadingView {
    pub clients: Seq<Seq<char>>,
}

impl View for PlayersLoading {
    type V = PlayersLoadingView;

    open spec fn view(&self) -> PlayersLoadingView {
        PlayersLoadingView {
            clients: items::views(self.clients@),
        }
    }
}

impl PlayersLoadingView {
    /// The bytes on the wire.
    pub open spec fn bytes(self) -> Seq<u8> {
        items::items_bytes::<Guid>(self.clients)
    }

    /// Whether the wire can carry it: what reads back is what was written.
    pub open spec fn fits(self) -> bool {
        items::items_fit::<Guid>(self.clients)
    }

    /// What a body holds; the list runs to its end.
    pub open spec fn parse(b: Seq<u8>) -> Result<PlayersLoadingView, ParseError> {
        match items::items_at::<Guid>(b, 0) {
            Err(e) => Err(e),
            Ok(clients) => Ok(PlayersLoadingView { clients }),
        }
    }

    /// A body reads back as it was written.
    pub proof fn round_trip(self)
        requires
            self.fits(),
        ensures
            Self::parse(self.bytes()) == Ok::<PlayersLoadingView, ParseError>(self),
    {
        let b = self.bytes();
        let e0 = items::items_bytes::<Guid>(self.clients);
        assert(b.subrange(0, b.len() as int) =~= b);
        items::lemma_items::<Guid>(self.clients, b, 0);
    }
}

impl Clone for PlayersLoading {
    fn clone(&self) -> (r: Self)
        ensures
            r@ == self@,
    {
        PlayersLoading {
            clients: items::copy_items(&self.clients),
        }
    }
}

impl PlayersLoading {
    /// Appends the bytes on the wire.
    pub fn write(&self, out: &mut Vec<u8>)
        ensures
            final(out)@ == old(out)@ + self@.bytes(),
    {
        items::write_items(&self.clients, out);
        assert(out@ =~= old(out)@ + self@.bytes());
    }

    pub fn to_bytes(&self) -> (r: Vec<u8>)
        ensures
            r@ == self@.bytes(),
    {
        let mut bytes: Vec<u8> = Vec::new();
        self.write(&mut bytes);
        assert(bytes@ =~= self@.bytes());
        bytes
    }

    pub fn from_bytes(buffer: &[u8]) -> (r: Result<Self, ParseError>)
        ensures
            utils::viewed(r) == PlayersLoadingView::parse(buffer@),
    {
        let clients = items::read_items::<Guid>(buffer, 0)?;
        Ok(PlayersLoading { clients })
    }
}

} // verus!
