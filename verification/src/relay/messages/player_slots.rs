use vstd::prelude::*;

use crate::relay::fault::ParseError;
use crate::relay::messages::host::Host;
use crate::relay::messages::host::HostView;
use crate::relay::messages::items;
use crate::utils;

verus! {

/// Every row of the slot list.
#[derive(Debug, PartialEq)]
pub struct PlayerSlots {
    pub hosts: Vec<Host>,
}

/// What [`PlayerSlots`] says.
pub struct PlayerSlotsView {
    pub hosts: Seq<HostView>,
}

impl View for PlayerSlots {
    type V = PlayerSlotsView;

    open spec fn view(&self) -> PlayerSlotsView {
        PlayerSlotsView {
            hosts: items::views(self.hosts@),
        }
    }
}

impl PlayerSlotsView {
    /// The bytes on the wire.
    pub open spec fn bytes(self) -> Seq<u8> {
        items::items_bytes::<Host>(self.hosts)
    }

    /// Whether the wire can carry it: what reads back is what was written.
    pub open spec fn fits(self) -> bool {
        items::items_fit::<Host>(self.hosts)
    }

    /// What a body holds; the list runs to its end.
    pub open spec fn parse(b: Seq<u8>) -> Result<PlayerSlotsView, ParseError> {
        match items::items_at::<Host>(b, 0) {
            Err(e) => Err(e),
            Ok(hosts) => Ok(PlayerSlotsView { hosts }),
        }
    }

    /// A body reads back as it was written.
    pub proof fn round_trip(self)
        requires
            self.fits(),
        ensures
            Self::parse(self.bytes()) == Ok::<PlayerSlotsView, ParseError>(self),
    {
        let b = self.bytes();
        let e0 = items::items_bytes::<Host>(self.hosts);
        assert(b.subrange(0, b.len() as int) =~= b);
        items::lemma_items::<Host>(self.hosts, b, 0);
    }

    /// What follows well-formed rows is read as it would be alone: a malformed
    /// tail gives its own error, and an empty one leaves exactly those rows.
    pub proof fn tails_speak_for_themselves(self, tail: Seq<u8>)
        requires
            self.fits(),
        ensures
            match Self::parse(tail) {
                Err(e) => Self::parse(self.bytes() + tail) == Err::<PlayerSlotsView, _>(e),
                Ok(rest) => Self::parse(self.bytes() + tail) == Ok::<_, ParseError>(
                    PlayerSlotsView { hosts: self.hosts + rest.hosts },
                ),
            },
            tail.len() == 0 ==> Self::parse(self.bytes() + tail) == Ok::<_, ParseError>(self),
    {
        items::lemma_items_then::<Host>(self.hosts, tail);
        assert(self.hosts + Seq::<HostView>::empty() =~= self.hosts);
    }
}

impl Clone for PlayerSlots {
    fn clone(&self) -> (r: Self)
        ensures
            r@ == self@,
    {
        PlayerSlots {
            hosts: items::copy_items(&self.hosts),
        }
    }
}

impl PlayerSlots {
    /// Appends the bytes on the wire.
    pub fn write(&self, out: &mut Vec<u8>)
        ensures
            final(out)@ == old(out)@ + self@.bytes(),
    {
        items::write_items(&self.hosts, out);
        assert(out@ =~= old(out)@ + self@.bytes());
    }

    pub fn to_bytes(&self) -> (r: Vec<u8>)
        ensures
            r@ == self@.bytes(),
    {
        let mut bytes: Vec<u8> = Vec::new();
        self.write(&mut bytes);
        assert(bytes@ =~= self@.bytes());
        bytes
    }

    pub fn from_bytes(buffer: &[u8]) -> (r: Result<Self, ParseError>)
        ensures
            utils::viewed(r) == PlayerSlotsView::parse(buffer@),
    {
        let hosts = items::read_items::<Host>(buffer, 0)?;
        Ok(PlayerSlots { hosts })
    }
}

} // verus!
