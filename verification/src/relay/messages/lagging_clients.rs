use vstd::prelude::*;

use crate::relay::fault::ParseError;
use crate::relay::messages::items;
use crate::relay::messages::performance_entry::PerformanceEntry;
use crate::relay::messages::performance_entry::PerformanceEntryView;
use crate::utils;

verus! {

/// The clients whose connection is slow.
#[derive(Debug, PartialEq)]
pub struct LaggingClients {
    pub clients: Vec<PerformanceEntry>,
}

/// What [`LaggingClients`] says.
pub struct LaggingClientsView {
    pub clients: Seq<PerformanceEntryView>,
}

impl View for LaggingClients {
    type V = LaggingClientsView;

    open spec fn view(&self) -> LaggingClientsView {
        LaggingClientsView {
            clients: items::views(self.clients@),
        }
    }
}

impl LaggingClientsView {
    /// The bytes on the wire.
    pub open spec fn bytes(self) -> Seq<u8> {
        items::items_bytes::<PerformanceEntry>(self.clients)
    }

    /// Whether the wire can carry it: what reads back is what was written.
    pub open spec fn fits(self) -> bool {
        items::items_fit::<PerformanceEntry>(self.clients)
    }

    /// What a body holds; the list runs to its end.
    pub open spec fn parse(b: Seq<u8>) -> Result<LaggingClientsView, ParseError> {
        match items::items_at::<PerformanceEntry>(b, 0) {
            Err(e) => Err(e),
            Ok(clients) => Ok(LaggingClientsView { clients }),
        }
    }

    /// A body reads back as it was written.
    pub proof fn round_trip(self)
        requires
            self.fits(),
        ensures
            Self::parse(self.bytes()) == Ok::<LaggingClientsView, ParseError>(self),
    {
        let b = self.bytes();
        let e0 = items::items_bytes::<PerformanceEntry>(self.clients);
        assert(b.subrange(0, b.len() as int) =~= b);
        items::lemma_items::<PerformanceEntry>(self.clients, b, 0);
    }
}

impl Clone for LaggingClients {
    fn clone(&self) -> (r: Self)
        ensures
            r@ == self@,
    {
        LaggingClients {
            clients: items::copy_items(&self.clients),
        }
    }
}

impl LaggingClients {
    /// Appends the bytes on the wire.
    pub fn write(&self, out: &mut Vec<u8>)
        ensures
            final(out)@ == old(out)@ + self@.bytes(),
    {
        items::write_items(&self.clients, out);
        assert(out@ =~= old(out)@ + self@.bytes());
    }

    pub fn to_bytes(&self) -> (r: Vec<u8>)
        ensures
            r@ == self@.bytes(),
    {
        let mut bytes: Vec<u8> = Vec::new();
        self.write(&mut bytes);
        assert(bytes@ =~= self@.bytes());
        bytes
    }

    pub fn from_bytes(buffer: &[u8]) -> (r: Result<Self, ParseError>)
        ensures
            utils::viewed(r) == LaggingClientsView::parse(buffer@),
    {
        let clients = items::read_items::<PerformanceEntry>(buffer, 0)?;
        Ok(LaggingClients { clients })
    }
}

} // verus!
