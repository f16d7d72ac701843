use vstd::prelude::*;

use crate::relay::fault::ParseError;
use crate::utils;

verus! {

/// A client removed, for good when it is banned.
#[derive(Debug, PartialEq)]
pub struct Kicked {
    pub name: String,
    pub ban: bool,
}

/// What [`Kicked`] says.
pub struct KickedView {
    pub name: Seq<char>,
    pub ban: bool,
}

impl View for Kicked {
    type V = KickedView;

    open spec fn view(&self) -> KickedView {
        KickedView {
            name: self.name@,
            ban: self.ban,
        }
    }
}

impl KickedView {
    /// The bytes on the wire.
    pub open spec fn bytes(self) -> Seq<u8> {
        utils::wide_bytes(self.name) + seq![utils::flag_byte(self.ban)]
    }

    /// Whether the wire can carry it: what reads back is what was written.
    pub open spec fn fits(self) -> bool {
        utils::wide_fits(self.name)
    }

    /// What a body holds; bytes past the last field are ignored.
    pub open spec fn parse(b: Seq<u8>) -> Result<KickedView, ParseError> {
        match utils::wide_at(b, 0) {
            Err(e) => Err(e),
            Ok((name, p1)) => match utils::u8_at(b, p1, "ban") {
                Err(e) => Err(e),
                Ok((ban, _)) => Ok(KickedView { name, ban: ban != 0 }),
            },
        }
    }

    /// A body reads back as it was written.
    pub proof fn round_trip(self)
        requires
            self.fits(),
        ensures
            Self::parse(self.bytes()) == Ok::<KickedView, ParseError>(self),
    {
        let b = self.bytes();
        let e0 = utils::wide_bytes(self.name);
        let e1 = seq![utils::flag_byte(self.ban)];
        let p0 = 0int;
        let p1 = p0 + e0.len();
        assert(utils::wide_at(b, p0) == Ok::<_, ParseError>((self.name, p0 + e0.len()))) by {
            assert(self.bytes() =~= Seq::<u8>::empty() + e0 + e1);
            utils::lemma_occurs(Seq::<u8>::empty(), e0, e1);
            utils::lemma_wide(b, p0, self.name);
        }
        assert(utils::u8_at(b, p1, "ban") == Ok::<_, ParseError>((utils::flag_byte(self.ban), p1 + e1.len()))) by {
            assert(self.bytes() =~= e0 + e1 + Seq::<u8>::empty());
            utils::lemma_occurs(e0, e1, Seq::<u8>::empty());
            assert(b.subrange(p1, p1 + 1)[0] == utils::flag_byte(self.ban));
        }
    }
}

impl Clone for Kicked {
    fn clone(&self) -> (r: Self)
        ensures
            r@ == self@,
    {
        Kicked {
            name: self.name.clone(),
            ban: self.ban,
        }
    }
}

impl Kicked {
    /// Appends the bytes on the wire.
    pub fn write(&self, out: &mut Vec<u8>)
        ensures
            final(out)@ == old(out)@ + self@.bytes(),
    {
        utils::put_wide(out, self.name.as_str());
        utils::put_u8(out, utils::flag_to_byte(self.ban));
        assert(out@ =~= old(out)@ + self@.bytes());
    }

    pub fn to_bytes(&self) -> (r: Vec<u8>)
        ensures
            r@ == self@.bytes(),
    {
        let mut bytes: Vec<u8> = Vec::new();
        self.write(&mut bytes);
        assert(bytes@ =~= self@.bytes());
        bytes
    }

    pub fn from_bytes(buffer: &[u8]) -> (r: Result<Self, ParseError>)
        ensures
            utils::viewed(r) == KickedView::parse(buffer@),
    {
        let (name, pos) = utils::read_wide_string(buffer, 0)?;
        let (ban, _) = utils::get_u8(buffer, pos, "ban")?;
        Ok(Kicked { name, ban: ban != 0 })
    }
}

} // verus!
