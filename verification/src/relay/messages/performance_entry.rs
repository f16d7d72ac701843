use vstd::prelude::*;

use crate::relay::fault::ParseError;
use crate::relay::messages::guid::Guid;
use crate::relay::messages::items::WireItem;
use crate::utils;

verus! {

/// A client with its mean round trip in milliseconds.
#[derive(Debug, PartialEq)]
pub struct PerformanceEntry {
    pub guid: Guid,
    pub mean_rtt: u32,
}

/// What [`PerformanceEntry`] says.
pub struct PerformanceEntryView {
    pub guid: Seq<char>,
    pub mean_rtt: u32,
}

impl View for PerformanceEntry {
    type V = PerformanceEntryView;

    open spec fn view(&self) -> PerformanceEntryView {
        PerformanceEntryView {
            guid: self.guid@,
            mean_rtt: self.mean_rtt,
        }
    }
}

impl PerformanceEntryView {
    /// The bytes on the wire.
    pub open spec fn bytes(self) -> Seq<u8> {
        utils::text_bytes(self.guid) + utils::be32_bytes(self.mean_rtt)
    }

    /// Whether the wire can carry it: what reads back is what was written.
    pub open spec fn fits(self) -> bool {
        utils::text_fits(self.guid)
    }

    /// The one at `pos`, and where it ends.
    pub open spec fn at(b: Seq<u8>, pos: int) -> Result<(PerformanceEntryView, int), ParseError> {
        match utils::text_at(b, pos, "guid length", "guid data", "guid") {
            Err(e) => Err(e),
            Ok((guid, p1)) => match utils::u32_at(b, p1, "mean_rtt") {
                Err(e) => Err(e),
                Ok((mean_rtt, p2)) => Ok((PerformanceEntryView { guid, mean_rtt }, p2)),
            },
        }
    }

    /// What is written at `pos` is what is read there.
    pub proof fn round_trip_at(self, b: Seq<u8>, pos: int)
        requires
            utils::occurs(b, pos, self.bytes()),
            self.fits(),
        ensures
            Self::at(b, pos) == Ok::<(PerformanceEntryView, int), ParseError>((self, pos + self.bytes().len())),
    {
        let e0 = utils::text_bytes(self.guid);
        let e1 = utils::be32_bytes(self.mean_rtt);
        let p0 = pos;
        let p1 = p0 + e0.len();
        assert(utils::text_at(b, p0, "guid length", "guid data", "guid") == Ok::<_, ParseError>((self.guid, p0 + e0.len()))) by {
            assert(self.bytes() =~= Seq::<u8>::empty() + e0 + e1);
            utils::lemma_occurs_within(b, pos, Seq::<u8>::empty(), e0, e1);
            utils::lemma_text(b, p0, self.guid, "guid length", "guid data", "guid");
        }
        assert(utils::u32_at(b, p1, "mean_rtt") == Ok::<_, ParseError>((self.mean_rtt, p1 + e1.len()))) by {
            assert(self.bytes() =~= e0 + e1 + Seq::<u8>::empty());
            utils::lemma_occurs_within(b, pos, e0, e1, Seq::<u8>::empty());
            utils::lemma_be32(b, p1, self.mean_rtt);
        }
    }
}

impl Clone for PerformanceEntry {
    fn clone(&self) -> (r: Self)
        ensures
            r@ == self@,
    {
        PerformanceEntry {
            guid: self.guid.clone(),
            mean_rtt: self.mean_rtt,
        }
    }
}

impl PerformanceEntry {
    /// Appends the bytes on the wire.
    pub fn write(&self, out: &mut Vec<u8>)
        ensures
            final(out)@ == old(out)@ + self@.bytes(),
    {
        utils::put_text(out, self.guid.0.as_str());
        utils::put_be32(out, self.mean_rtt);
        assert(out@ =~= old(out)@ + self@.bytes());
    }

    pub fn to_bytes(&self) -> (r: Vec<u8>)
        ensures
            r@ == self@.bytes(),
    {
        let mut bytes: Vec<u8> = Vec::new();
        self.write(&mut bytes);
        assert(bytes@ =~= self@.bytes());
        bytes
    }

    /// The one at `pos`, and where it ends.
    pub fn read_at(buffer: &[u8], pos: usize) -> (r: Result<(Self, usize), ParseError>)
        ensures
            utils::viewed_at(r) == PerformanceEntryView::at(buffer@, pos as int),
    {
        let (guid, pos) = utils::get_text(buffer, pos, "guid length", "guid data", "guid")?;
        let (mean_rtt, pos) = utils::get_u32(buffer, pos, "mean_rtt")?;
        Ok((PerformanceEntry { guid: Guid(guid), mean_rtt }, pos))
    }

    pub fn from_bytes(buffer: &[u8], pos: usize) -> (r: Result<(Self, usize), ParseError>)
        ensures
            utils::viewed_at(r) == PerformanceEntryView::at(buffer@, pos as int),
    {
        Self::read_at(buffer, pos)
    }
}

impl WireItem for PerformanceEntry {
    open spec fn item_bytes(v: PerformanceEntryView) -> Seq<u8> {
        v.bytes()
    }

    open spec fn item_fits(v: PerformanceEntryView) -> bool {
        v.fits()
    }

    open spec fn item_at(b: Seq<u8>, pos: int) -> Result<(PerformanceEntryView, int), ParseError> {
        PerformanceEntryView::at(b, pos)
    }

    proof fn item_advances(b: Seq<u8>, pos: int) {
    }

    proof fn item_round_trip(v: PerformanceEntryView, b: Seq<u8>, pos: int) {
        v.round_trip_at(b, pos);
    }

    proof fn item_moves(a: Seq<u8>, b: Seq<u8>, pos: int) {
        utils::lemma_text_moves(a, b, pos, "guid length", "guid data", "guid");
        if let Ok((_, p1)) = utils::text_at(b, pos, "guid length", "guid data", "guid") {
            utils::lemma_u32_moves(a, b, p1, "mean_rtt");
        }
    }

    fn write_item(&self, out: &mut Vec<u8>) {
        self.write(out);
    }

    fn read_item(buffer: &[u8], pos: usize) -> (r: Result<(Self, usize), ParseError>) {
        Self::read_at(buffer, pos)
    }

    fn copy_item(&self) -> (r: Self) {
        self.clone()
    }
}

} // verus!
