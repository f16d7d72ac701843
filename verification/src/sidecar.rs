//! What a one-shot engine run is asked to rebuild.

use std::sync::Arc;

use vstd::prelude::*;

use crate::relay::messages::items;
use crate::relay::messages::EnabledMod;
use crate::relay::messages::EnabledModView;
use crate::relay::messages::PlayerCommand;
use crate::relay::messages::PlayerCommandView;
use crate::utils;

verus! {

/// The mod every game runs, by the name it goes by.
pub const BASE_MOD: &'static str = "0ad";

/// Where the base game's own mod lies.
pub const BASE_MOD_PATH: &'static str = "public";

/// Where a mod lies, as far as its name tells.
pub open spec fn pathname(name: Seq<char>) -> Option<Seq<char>> {
    if name == BASE_MOD@ {
        Some(BASE_MOD_PATH@)
    } else {
        None
    }
}

/// The directory a mod is in, where its name tells it: the base game goes by a
/// name that is not its directory's.
pub fn mod_pathname(name: &str) -> (r: Option<&'static str>)
    ensures
        match r {
            Some(p) => pathname(name@) == Some(p@),
            None => pathname(name@) is None,
        },
{
    if utils::same_text(name, BASE_MOD) {
        Some(BASE_MOD_PATH)
    } else {
        None
    }
}

/// A state a run can resume from.
#[derive(Debug)]
pub struct BaseState {
    pub turn: u32,
    pub state: Arc<Vec<u8>>,
}

/// What [`BaseState`] is.
pub struct BaseStateView {
    pub turn: u32,
    pub state: Seq<u8>,
}

impl View for BaseState {
    type V = BaseStateView;

    open spec fn view(&self) -> BaseStateView {
        BaseStateView { turn: self.turn, state: self.state@ }
    }
}

impl Clone for BaseState {
    fn clone(&self) -> (r: Self)
        ensures
            r@ == self@,
    {
        BaseState { turn: self.turn, state: self.state.clone() }
    }
}

/// The state hash everyone agreed on for a turn.
#[derive(Debug)]
pub struct TurnHash {
    pub turn: u32,
    pub hash: Vec<u8>,
}

/// What [`TurnHash`] is.
pub struct TurnHashView {
    pub turn: u32,
    pub hash: Seq<u8>,
}

impl View for TurnHash {
    type V = TurnHashView;

    open spec fn view(&self) -> TurnHashView {
        TurnHashView { turn: self.turn, hash: self.hash@ }
    }
}

/// Everything a run needs to rebuild a match through a turn.
#[derive(Debug)]
pub struct DumpRequest {
    pub init_attributes: Vec<u8>,
    pub engine_version: String,
    pub mods: Vec<EnabledMod>,
    /// Where it resumes; None to start over from the beginning.
    pub base: Option<BaseState>,
    /// How long each turn after the base is.
    pub turn_lengths: Vec<u16>,
    pub commands: Vec<PlayerCommand>,
    pub hashes: Vec<TurnHash>,
}

/// What [`DumpRequest`] is.
pub struct DumpRequestView {
    pub init_attributes: Seq<u8>,
    pub engine_version: Seq<char>,
    pub mods: Seq<EnabledModView>,
    pub base: Option<BaseStateView>,
    pub turn_lengths: Seq<u16>,
    pub commands: Seq<PlayerCommandView>,
    pub hashes: Seq<TurnHashView>,
}

/// What a base is.
pub open spec fn base_view(base: Option<BaseState>) -> Option<BaseStateView> {
    match base {
        Some(b) => Some(b@),
        None => None,
    }
}

/// The turn a run begins after.
pub open spec fn base_turn(base: Option<BaseStateView>) -> u32 {
    match base {
        Some(b) => b.turn,
        None => 0,
    }
}

impl View for DumpRequest {
    type V = DumpRequestView;

    open spec fn view(&self) -> DumpRequestView {
        DumpRequestView {
            init_attributes: self.init_attributes@,
            engine_version: self.engine_version@,
            mods: items::views(self.mods@),
            base: base_view(self.base),
            turn_lengths: self.turn_lengths@,
            commands: items::views(self.commands@),
            hashes: items::views(self.hashes@),
        }
    }
}

impl DumpRequest {
    /// The turn a run begins after.
    pub fn first_turn(&self) -> (r: u32)
        ensures
            r == base_turn(self@.base),
    {
        match &self.base {
            Some(b) => b.turn,
            None => 0,
        }
    }

    /// The turn a run ends with.
    pub fn last_turn(&self) -> (r: u32)
        requires
            base_turn(self@.base) + self@.turn_lengths.len() <= u32::MAX,
        ensures
            r == base_turn(self@.base) + self@.turn_lengths.len(),
    {
        self.first_turn() + self.turn_lengths.len() as u32
    }
}

} // verus!
