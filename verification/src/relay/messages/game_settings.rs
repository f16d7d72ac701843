use vstd::prelude::*;

use crate::relay::fault::ParseError;
use crate::utils;

verus! {

/// The match settings, as a script value the relay passes on.
#[derive(Debug, PartialEq)]
pub struct GameSettings {
    pub data: Vec<u8>,
}

/// What [`GameSettings`] says.
pub struct GameSettingsView {
    pub data: Seq<u8>,
}

impl View for GameSettings {
    type V = GameSettingsView;

    open spec fn view(&self) -> GameSettingsView {
        GameSettingsView {
            data: self.data@,
        }
    }
}

impl GameSettingsView {
    /// The bytes on the wire.
    pub open spec fn bytes(self) -> Seq<u8> {
        self.data
    }

    /// Whether the wire can carry it: what reads back is what was written.
    pub open spec fn fits(self) -> bool {
        true
    }

    /// What a body holds: all of it is the data.
    pub open spec fn parse(b: Seq<u8>) -> Result<GameSettingsView, ParseError> {
        Ok(GameSettingsView { data: b })
    }

    /// A body reads back as it was written.
    pub proof fn round_trip(self)
        requires
            self.fits(),
        ensures
            Self::parse(self.bytes()) == Ok::<GameSettingsView, ParseError>(self),
    {
    }
}

impl Clone for GameSettings {
    fn clone(&self) -> (r: Self)
        ensures
            r@ == self@,
    {
        GameSettings {
            data: vstd::slice::slice_to_vec(self.data.as_slice()),
        }
    }
}

impl GameSettings {
    /// Appends the bytes on the wire.
    pub fn write(&self, out: &mut Vec<u8>)
        ensures
            final(out)@ == old(out)@ + self@.bytes(),
    {
        utils::put_bytes(out, self.data.as_slice());
        assert(out@ =~= old(out)@ + self@.bytes());
    }

    pub fn to_bytes(&self) -> (r: Vec<u8>)
        ensures
            r@ == self@.bytes(),
    {
        let mut bytes: Vec<u8> = Vec::new();
        self.write(&mut bytes);
        assert(bytes@ =~= self@.bytes());
        bytes
    }

    pub fn from_bytes(buffer: &[u8]) -> (r: Result<Self, ParseError>)
        ensures
            utils::viewed(r) == GameSettingsView::parse(buffer@),
    {
        let data = vstd::slice::slice_to_vec(buffer);
        Ok(GameSettings { data })
    }
}

} // verus!
