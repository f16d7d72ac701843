use vstd::prelude::*;

use crate::relay::fault::ParseError;
use crate::utils;

verus! {

/// The settings of a saved match, as the stock client starts it.
#[derive(Debug, PartialEq)]
pub struct StartSavegameSettings {
    pub init_attributes: String,
}

/// What [`StartSavegameSettings`] says.
pub struct StartSavegameSettingsView {
    pub init_attributes: Seq<char>,
}

impl View for StartSavegameSettings {
    type V = StartSavegameSettingsView;

    open spec fn view(&self) -> StartSavegameSettingsView {
        StartSavegameSettingsView {
            init_attributes: self.init_attributes@,
        }
    }
}

impl StartSavegameSettingsView {
    /// The bytes on the wire.
    pub open spec fn bytes(self) -> Seq<u8> {
        utils::text_bytes(self.init_attributes)
    }

    /// Whether the wire can carry it: what reads back is what was written.
    pub open spec fn fits(self) -> bool {
        utils::text_fits(self.init_attributes)
    }

    /// What a body holds; bytes past the last field are ignored.
    pub open spec fn parse(b: Seq<u8>) -> Result<StartSavegameSettingsView, ParseError> {
        match utils::text_at(b, 0, "init_attributes length", "init_attributes data", "init_attributes") {
            Err(e) => Err(e),
            Ok((init_attributes, _)) => Ok(StartSavegameSettingsView { init_attributes }),
        }
    }

    /// A body reads back as it was written.
    pub proof fn round_trip(self)
        requires
            self.fits(),
        ensures
            Self::parse(self.bytes()) == Ok::<StartSavegameSettingsView, ParseError>(self),
    {
        let b = self.bytes();
        let e0 = utils::text_bytes(self.init_attributes);
        assert(b.subrange(0, b.len() as int) =~= b);
        utils::lemma_text(b, 0, self.init_attributes, "init_attributes length", "init_attributes data", "init_attributes");
    }
}

impl Clone for StartSavegameSettings {
    fn clone(&self) -> (r: Self)
        ensures
            r@ == self@,
    {
        StartSavegameSettings {
            init_attributes: self.init_attributes.clone(),
        }
    }
}

impl StartSavegameSettings {
    /// Appends the bytes on the wire.
    pub fn write(&self, out: &mut Vec<u8>)
        ensures
            final(out)@ == old(out)@ + self@.bytes(),
    {
        utils::put_text(out, self.init_attributes.as_str());
        assert(out@ =~= old(out)@ + self@.bytes());
    }

    pub fn to_bytes(&self) -> (r: Vec<u8>)
        ensures
            r@ == self@.bytes(),
    {
        let mut bytes: Vec<u8> = Vec::new();
        self.write(&mut bytes);
        assert(bytes@ =~= self@.bytes());
        bytes
    }

    pub fn from_bytes(buffer: &[u8]) -> (r: Result<Self, ParseError>)
        ensures
            utils::viewed(r) == StartSavegameSettingsView::parse(buffer@),
    {
        let (init_attributes, _) = utils::get_text(buffer, 0, "init_attributes length", "init_attributes data", "init_attributes")?;
        Ok(StartSavegameSettings { init_attributes })
    }
}

} // verus!
