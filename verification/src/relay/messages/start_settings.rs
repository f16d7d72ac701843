use vstd::prelude::*;

use crate::relay::fault::ParseError;
use crate::utils;

verus! {

/// The settings a match starts with, as JSON.
#[derive(Debug, PartialEq)]
pub struct StartSettings {
    pub init_attributes: Vec<u8>,
}

/// What [`StartSettings`] says.
pub struct StartSettingsView {
    pub init_attributes: Seq<u8>,
}

impl View for StartSettings {
    type V = StartSettingsView;

    open spec fn view(&self) -> StartSettingsView {
        StartSettingsView {
            init_attributes: self.init_attributes@,
        }
    }
}

impl StartSettingsView {
    /// The bytes on the wire.
    pub open spec fn bytes(self) -> Seq<u8> {
        utils::blob_bytes(self.init_attributes)
    }

    /// Whether the wire can carry it: what reads back is what was written.
    pub open spec fn fits(self) -> bool {
        utils::blob_fits(self.init_attributes)
    }

    /// What a body holds; bytes past the last field are ignored.
    pub open spec fn parse(b: Seq<u8>) -> Result<StartSettingsView, ParseError> {
        match utils::blob_at(b, 0, "init_attributes length", "init_attributes data") {
            Err(e) => Err(e),
            Ok((init_attributes, _)) => Ok(StartSettingsView { init_attributes }),
        }
    }

    /// A body reads back as it was written.
    pub proof fn round_trip(self)
        requires
            self.fits(),
        ensures
            Self::parse(self.bytes()) == Ok::<StartSettingsView, ParseError>(self),
    {
        let b = self.bytes();
        let e0 = utils::blob_bytes(self.init_attributes);
        assert(b.subrange(0, b.len() as int) =~= b);
        utils::lemma_blob(b, 0, self.init_attributes, "init_attributes length", "init_attributes data");
    }
}

impl Clone for StartSettings {
    fn clone(&self) -> (r: Self)
        ensures
            r@ == self@,
    {
        StartSettings {
            init_attributes: vstd::slice::slice_to_vec(self.init_attributes.as_slice()),
        }
    }
}

impl StartSettings {
    /// Appends the bytes on the wire.
    pub fn write(&self, out: &mut Vec<u8>)
        ensures
            final(out)@ == old(out)@ + self@.bytes(),
    {
        utils::put_blob(out, self.init_attributes.as_slice());
        assert(out@ =~= old(out)@ + self@.bytes());
    }

    pub fn to_bytes(&self) -> (r: Vec<u8>)
        ensures
            r@ == self@.bytes(),
    {
        let mut bytes: Vec<u8> = Vec::new();
        self.write(&mut bytes);
        assert(bytes@ =~= self@.bytes());
        bytes
    }

    pub fn from_bytes(buffer: &[u8]) -> (r: Result<Self, ParseError>)
        ensures
            utils::viewed(r) == StartSettingsView::parse(buffer@),
    {
        let (init_attributes, _) = utils::get_blob(buffer, 0, "init_attributes length", "init_attributes data")?;
        Ok(StartSettings { init_attributes })
    }
}

} // verus!
