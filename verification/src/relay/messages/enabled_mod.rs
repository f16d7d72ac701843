use vstd::prelude::*;

use crate::relay::fault::ParseError;
use crate::relay::messages::items::WireItem;
use crate::utils;

verus! {

/// A mod a client runs, with its version.
#[derive(Debug, PartialEq)]
pub struct EnabledMod {
    pub name: String,
    pub version: String,
}

/// What [`EnabledMod`] says.
pub struct EnabledModView {
    pub name: Seq<char>,
    pub version: Seq<char>,
}

impl View for EnabledMod {
    type V = EnabledModView;

    open spec fn view(&self) -> EnabledModView {
        EnabledModView {
            name: self.name@,
            version: self.version@,
        }
    }
}

impl EnabledModView {
    /// The bytes on the wire.
    pub open spec fn bytes(self) -> Seq<u8> {
        utils::text_bytes(self.name) + utils::text_bytes(self.version)
    }

    /// Whether the wire can carry it: what reads back is what was written.
    pub open spec fn fits(self) -> bool {
        &&& utils::text_fits(self.name)
        &&& utils::text_fits(self.version)
    }

    /// The one at `pos`, and where it ends.
    pub open spec fn at(b: Seq<u8>, pos: int) -> Result<(EnabledModView, int), ParseError> {
        match utils::text_at(b, pos, "name length", "name data", "name") {
            Err(e) => Err(e),
            Ok((name, p1)) => match utils::text_at(b, p1, "version length", "version data", "version") {
                Err(e) => Err(e),
                Ok((version, p2)) => Ok((EnabledModView { name, version }, p2)),
            },
        }
    }

    /// What is written at `pos` is what is read there.
    pub proof fn round_trip_at(self, b: Seq<u8>, pos: int)
        requires
            utils::occurs(b, pos, self.bytes()),
            self.fits(),
        ensures
            Self::at(b, pos) == Ok::<(EnabledModView, int), ParseError>((self, pos + self.bytes().len())),
    {
        let e0 = utils::text_bytes(self.name);
        let e1 = utils::text_bytes(self.version);
        let p0 = pos;
        let p1 = p0 + e0.len();
        assert(utils::text_at(b, p0, "name length", "name data", "name") == Ok::<_, ParseError>((self.name, p0 + e0.len()))) by {
            assert(self.bytes() =~= Seq::<u8>::empty() + e0 + e1);
            utils::lemma_occurs_within(b, pos, Seq::<u8>::empty(), e0, e1);
            utils::lemma_text(b, p0, self.name, "name length", "name data", "name");
        }
        assert(utils::text_at(b, p1, "version length", "version data", "version") == Ok::<_, ParseError>((self.version, p1 + e1.len()))) by {
            assert(self.bytes() =~= e0 + e1 + Seq::<u8>::empty());
            utils::lemma_occurs_within(b, pos, e0, e1, Seq::<u8>::empty());
            utils::lemma_text(b, p1, self.version, "version length", "version data", "version");
        }
    }
}

impl Clone for EnabledMod {
    fn clone(&self) -> (r: Self)
        ensures
            r@ == self@,
    {
        EnabledMod {
            name: self.name.clone(),
            version: self.version.clone(),
        }
    }
}

impl EnabledMod {
    /// Appends the bytes on the wire.
    pub fn write(&self, out: &mut Vec<u8>)
        ensures
            final(out)@ == old(out)@ + self@.bytes(),
    {
        utils::put_text(out, self.name.as_str());
        utils::put_text(out, self.version.as_str());
        assert(out@ =~= old(out)@ + self@.bytes());
    }

    pub fn to_bytes(&self) -> (r: Vec<u8>)
        ensures
            r@ == self@.bytes(),
    {
        let mut bytes: Vec<u8> = Vec::new();
        self.write(&mut bytes);
        assert(bytes@ =~= self@.bytes());
        bytes
    }

    /// The one at `pos`, and where it ends.
    pub fn read_at(buffer: &[u8], pos: usize) -> (r: Result<(Self, usize), ParseError>)
        ensures
            utils::viewed_at(r) == EnabledModView::at(buffer@, pos as int),
    {
        let (name, pos) = utils::get_text(buffer, pos, "name length", "name data", "name")?;
        let (version, pos) = utils::get_text(buffer, pos, "version length", "version data", "version")?;
        Ok((EnabledMod { name, version }, pos))
    }

    /// The first one, and how many bytes it takes.
    pub fn from_bytes(buffer: &[u8]) -> (r: Result<(Self, usize), ParseError>)
        ensures
            utils::viewed_at(r) == EnabledModView::at(buffer@, 0),
    {
        Self::read_at(buffer, 0)
    }
}

impl WireItem for EnabledMod {
    open spec fn item_bytes(v: EnabledModView) -> Seq<u8> {
        v.bytes()
    }

    open spec fn item_fits(v: EnabledModView) -> bool {
        v.fits()
    }

    open spec fn item_at(b: Seq<u8>, pos: int) -> Result<(EnabledModView, int), ParseError> {
        EnabledModView::at(b, pos)
    }

    proof fn item_advances(b: Seq<u8>, pos: int) {
    }

    proof fn item_round_trip(v: EnabledModView, b: Seq<u8>, pos: int) {
        v.round_trip_at(b, pos);
    }

    proof fn item_moves(a: Seq<u8>, b: Seq<u8>, pos: int) {
        utils::lemma_text_moves(a, b, pos, "name length", "name data", "name");
        if let Ok((_, p1)) = utils::text_at(b, pos, "name length", "name data", "name") {
            utils::lemma_text_moves(a, b, p1, "version length", "version data", "version");
        }
    }

    fn write_item(&self, out: &mut Vec<u8>) {
        self.write(out);
    }

    fn read_item(buffer: &[u8], pos: usize) -> (r: Result<(Self, usize), ParseError>) {
        Self::read_at(buffer, pos)
    }

    fn copy_item(&self) -> (r: Self) {
        self.clone()
    }
}

} // verus!
