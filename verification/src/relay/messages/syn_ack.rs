use vstd::prelude::*;

use crate::relay::fault::ParseError;
use crate::relay::messages::enabled_mod::EnabledMod;
use crate::relay::messages::enabled_mod::EnabledModView;
use crate::relay::messages::items;
use crate::utils;

verus! {

/// A client's reply to [`Syn`](super::Syn): what it speaks and runs.
#[derive(Debug, PartialEq)]
pub struct SynAck {
    pub magic: u32,
    pub protocol_version: u32,
    pub engine_version: String,
    pub enabled_mods: Vec<EnabledMod>,
}

/// What [`SynAck`] says.
pub struct SynAckView {
    pub magic: u32,
    pub protocol_version: u32,
    pub engine_version: Seq<char>,
    pub enabled_mods: Seq<EnabledModView>,
}

impl View for SynAck {
    type V = SynAckView;

    open spec fn view(&self) -> SynAckView {
        SynAckView {
            magic: self.magic,
            protocol_version: self.protocol_version,
            engine_version: self.engine_version@,
            enabled_mods: items::views(self.enabled_mods@),
        }
    }
}

impl SynAckView {
    /// The bytes on the wire.
    pub open spec fn bytes(self) -> Seq<u8> {
        utils::be32_bytes(self.magic) + utils::be32_bytes(self.protocol_version) + utils::text_bytes(self.engine_version) + items::items_bytes::<EnabledMod>(self.enabled_mods)
    }

    /// Whether the wire can carry it: what reads back is what was written.
    pub open spec fn fits(self) -> bool {
        &&& utils::text_fits(self.engine_version)
        &&& items::items_fit::<EnabledMod>(self.enabled_mods)
    }

    /// What a body holds; the list runs to its end.
    pub open spec fn parse(b: Seq<u8>) -> Result<SynAckView, ParseError> {
        match utils::u32_at(b, 0, "magic") {
            Err(e) => Err(e),
            Ok((magic, p1)) => match utils::u32_at(b, p1, "protocol version") {
                Err(e) => Err(e),
                Ok((protocol_version, p2)) => match utils::text_at(b, p2, "engine version length", "engine version data", "engine version") {
                    Err(e) => Err(e),
                    Ok((engine_version, p3)) => match items::items_at::<EnabledMod>(b, p3) {
                        Err(e) => Err(e),
                        Ok(enabled_mods) => Ok(SynAckView { magic, protocol_version, engine_version, enabled_mods }),
                    },
                },
            },
        }
    }

    /// A body reads back as it was written.
    pub proof fn round_trip(self)
        requires
            self.fits(),
        ensures
            Self::parse(self.bytes()) == Ok::<SynAckView, ParseError>(self),
    {
        let b = self.bytes();
        let e0 = utils::be32_bytes(self.magic);
        let e1 = utils::be32_bytes(self.protocol_version);
        let e2 = utils::text_bytes(self.engine_version);
        let e3 = items::items_bytes::<EnabledMod>(self.enabled_mods);
        let p0 = 0int;
        let p1 = p0 + e0.len();
        let p2 = p1 + e1.len();
        let p3 = p2 + e2.len();
        assert(utils::u32_at(b, p0, "magic") == Ok::<_, ParseError>((self.magic, p0 + e0.len()))) by {
            assert(self.bytes() =~= Seq::<u8>::empty() + e0 + (e1 + e2 + e3));
            utils::lemma_occurs(Seq::<u8>::empty(), e0, e1 + e2 + e3);
            utils::lemma_be32(b, p0, self.magic);
        }
        assert(utils::u32_at(b, p1, "protocol version") == Ok::<_, ParseError>((self.protocol_version, p1 + e1.len()))) by {
            assert(self.bytes() =~= e0 + e1 + (e2 + e3));
            utils::lemma_occurs(e0, e1, e2 + e3);
            utils::lemma_be32(b, p1, self.protocol_version);
        }
        assert(utils::text_at(b, p2, "engine version length", "engine version data", "engine version") == Ok::<_, ParseError>((self.engine_version, p2 + e2.len()))) by {
            assert(self.bytes() =~= e0 + e1 + e2 + e3);
            utils::lemma_occurs(e0 + e1, e2, e3);
            utils::lemma_text(b, p2, self.engine_version, "engine version length", "engine version data", "engine version");
        }
        assert(items::items_at::<EnabledMod>(b, p3) == Ok::<_, ParseError>(self.enabled_mods)) by {
            assert(self.bytes() =~= e0 + e1 + e2 + e3 + Seq::<u8>::empty());
            utils::lemma_occurs(e0 + e1 + e2, e3, Seq::<u8>::empty());
            items::lemma_items::<EnabledMod>(self.enabled_mods, b, p3);
        }
    }
}

impl Clone for SynAck {
    fn clone(&self) -> (r: Self)
        ensures
            r@ == self@,
    {
        SynAck {
            magic: self.magic,
            protocol_version: self.protocol_version,
            engine_version: self.engine_version.clone(),
            enabled_mods: items::copy_items(&self.enabled_mods),
        }
    }
}

impl SynAck {
    /// Appends the bytes on the wire.
    pub fn write(&self, out: &mut Vec<u8>)
        ensures
            final(out)@ == old(out)@ + self@.bytes(),
    {
        utils::put_be32(out, self.magic);
        utils::put_be32(out, self.protocol_version);
        utils::put_text(out, self.engine_version.as_str());
        items::write_items(&self.enabled_mods, out);
        assert(out@ =~= old(out)@ + self@.bytes());
    }

    pub fn to_bytes(&self) -> (r: Vec<u8>)
        ensures
            r@ == self@.bytes(),
    {
        let mut bytes: Vec<u8> = Vec::new();
        self.write(&mut bytes);
        assert(bytes@ =~= self@.bytes());
        bytes
    }

    pub fn from_bytes(buffer: &[u8]) -> (r: Result<Self, ParseError>)
        ensures
            utils::viewed(r) == SynAckView::parse(buffer@),
    {
        let (magic, pos) = utils::get_u32(buffer, 0, "magic")?;
        let (protocol_version, pos) = utils::get_u32(buffer, pos, "protocol version")?;
        let (engine_version, pos) = utils::get_text(buffer, pos, "engine version length", "engine version data", "engine version")?;
        let enabled_mods = items::read_items::<EnabledMod>(buffer, pos)?;
        Ok(SynAck { magic, protocol_version, engine_version, enabled_mods })
    }
}

} // verus!
