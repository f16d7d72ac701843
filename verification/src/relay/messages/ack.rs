use vstd::prelude::*;

use crate::relay::fault::ParseError;
use crate::relay::messages::guid::Guid;
use crate::utils;

verus! {

/// The relay accepting a client: the protocol it speaks, the flags it sets and
/// the identity it gives the client.
#[derive(Debug, PartialEq)]
pub struct Ack {
    pub use_protocol_version: u32,
    pub flags: u32,
    pub guid: Guid,
}

/// What [`Ack`] says.
pub struct AckView {
    pub use_protocol_version: u32,
    pub flags: u32,
    pub guid: Seq<char>,
}

impl View for Ack {
    type V = AckView;

    open spec fn view(&self) -> AckView {
        AckView {
            use_protocol_version: self.use_protocol_version,
            flags: self.flags,
            guid: self.guid@,
        }
    }
}

impl AckView {
    /// The bytes on the wire.
    pub open spec fn bytes(self) -> Seq<u8> {
        utils::be32_bytes(self.use_protocol_version) + utils::be32_bytes(self.flags) + utils::text_bytes(self.guid)
    }

    /// Whether the wire can carry it: what reads back is what was written.
    pub open spec fn fits(self) -> bool {
        utils::text_fits(self.guid)
    }

    /// What a body holds; bytes past the last field are ignored.
    pub open spec fn parse(b: Seq<u8>) -> Result<AckView, ParseError> {
        match utils::u32_at(b, 0, "use_protocol_version") {
            Err(e) => Err(e),
            Ok((use_protocol_version, p1)) => match utils::u32_at(b, p1, "flags") {
                Err(e) => Err(e),
                Ok((flags, p2)) => match utils::text_at(b, p2, "guid length", "guid data", "guid") {
                    Err(e) => Err(e),
                    Ok((guid, _)) => Ok(AckView { use_protocol_version, flags, guid }),
                },
            },
        }
    }

    /// A body reads back as it was written.
    pub proof fn round_trip(self)
        requires
            self.fits(),
        ensures
            Self::parse(self.bytes()) == Ok::<AckView, ParseError>(self),
    {
        let b = self.bytes();
        let e0 = utils::be32_bytes(self.use_protocol_version);
        let e1 = utils::be32_bytes(self.flags);
        let e2 = utils::text_bytes(self.guid);
        let p0 = 0int;
        let p1 = p0 + e0.len();
        let p2 = p1 + e1.len();
        assert(utils::u32_at(b, p0, "use_protocol_version") == Ok::<_, ParseError>((self.use_protocol_version, p0 + e0.len()))) by {
            assert(self.bytes() =~= Seq::<u8>::empty() + e0 + (e1 + e2));
            utils::lemma_occurs(Seq::<u8>::empty(), e0, e1 + e2);
            utils::lemma_be32(b, p0, self.use_protocol_version);
        }
        assert(utils::u32_at(b, p1, "flags") == Ok::<_, ParseError>((self.flags, p1 + e1.len()))) by {
            assert(self.bytes() =~= e0 + e1 + e2);
            utils::lemma_occurs(e0, e1, e2);
            utils::lemma_be32(b, p1, self.flags);
        }
        assert(utils::text_at(b, p2, "guid length", "guid data", "guid") == Ok::<_, ParseError>((self.guid, p2 + e2.len()))) by {
            assert(self.bytes() =~= e0 + e1 + e2 + Seq::<u8>::empty());
            utils::lemma_occurs(e0 + e1, e2, Seq::<u8>::empty());
            utils::lemma_text(b, p2, self.guid, "guid length", "guid data", "guid");
        }
    }
}

impl Clone for Ack {
    fn clone(&self) -> (r: Self)
        ensures
            r@ == self@,
    {
        Ack {
            use_protocol_version: self.use_protocol_version,
            flags: self.flags,
            guid: self.guid.clone(),
        }
    }
}

impl Ack {
    /// Appends the bytes on the wire.
    pub fn write(&self, out: &mut Vec<u8>)
        ensures
            final(out)@ == old(out)@ + self@.bytes(),
    {
        utils::put_be32(out, self.use_protocol_version);
        utils::put_be32(out, self.flags);
        utils::put_text(out, self.guid.0.as_str());
        assert(out@ =~= old(out)@ + self@.bytes());
    }

    pub fn to_bytes(&self) -> (r: Vec<u8>)
        ensures
            r@ == self@.bytes(),
    {
        let mut bytes: Vec<u8> = Vec::new();
        self.write(&mut bytes);
        assert(bytes@ =~= self@.bytes());
        bytes
    }

    pub fn from_bytes(buffer: &[u8]) -> (r: Result<Self, ParseError>)
        ensures
            utils::viewed(r) == AckView::parse(buffer@),
    {
        let (use_protocol_version, pos) = utils::get_u32(buffer, 0, "use_protocol_version")?;
        let (flags, pos) = utils::get_u32(buffer, pos, "flags")?;
        let (guid, _) = utils::get_text(buffer, pos, "guid length", "guid data", "guid")?;
        Ok(Ack { use_protocol_version, flags, guid: Guid(guid) })
    }
}

} // verus!
