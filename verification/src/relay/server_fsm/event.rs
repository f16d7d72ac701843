use vstd::prelude::*;

use crate::clock::Time;
use crate::lobby::link::LobbyMap;
use crate::lobby::link::LobbyMapView;
use crate::network_message::Ipv4Addr;
use crate::network_message::PeerID;
use crate::relay::messages::items;
use crate::relay::messages::EnabledMod;
use crate::relay::messages::EnabledModView;
use crate::relay::messages::WireMessage;
use crate::relay::messages::WireMessageView;
use crate::relay::monitor::PeerStats;
use crate::relay::server_fsm::reason::DisconnectReason;
use crate::sidecar::DumpRequest;
use crate::sidecar::DumpRequestView;
use crate::utils;

verus! {

/// What happens to a server. Time and the peers' timing both come in here, so
/// nothing of a match depends on a clock of its own.
#[derive(Debug)]
pub enum Input {
    Connected { peer: PeerID, addr: Ipv4Addr },
    Received { peer: PeerID, msg: WireMessage },
    Disconnected { peer: PeerID },
    LobbyAuth { username: String, token: String },
    Tick { now: Time, stats: Vec<PeerStats> },
    /// A finished one-shot state dump. None means the dump failed and the
    /// joiners waiting on it need the fallback path. The number is that of the
    /// run that produced it, so a stale reply from a cancelled run is ignored
    /// instead of being credited to a newer one.
    StateDumped { id: u32, state: Option<Vec<u8>> },
    /// The AI host process could not be started or has exited.
    AiHostExited,
    /// A finished link of the rolling checkpoint chain. None means the run
    /// failed or diverged. `players` is each player's state at that turn as
    /// the replay saw it, with gaia first; empty when the run failed.
    Checkpointed { id: u32, state: Option<Vec<u8>>, players: Vec<String> },
}

/// What [`Input`] is.
pub enum InputView {
    Connected { peer: PeerID, addr: Ipv4Addr },
    Received { peer: PeerID, msg: WireMessageView },
    Disconnected { peer: PeerID },
    LobbyAuth { username: Seq<char>, token: Seq<char> },
    Tick { now: Time, stats: Seq<PeerStats> },
    StateDumped { id: u32, state: Option<Seq<u8>> },
    AiHostExited,
    Checkpointed { id: u32, state: Option<Seq<u8>>, players: Seq<Seq<char>> },
}

impl View for Input {
    type V = InputView;

    open spec fn view(&self) -> InputView {
        match *self {
            Input::Connected { peer, addr } => InputView::Connected { peer, addr },
            Input::Received { peer, msg } => InputView::Received { peer, msg: msg@ },
            Input::Disconnected { peer } => InputView::Disconnected { peer },
            Input::LobbyAuth { username, token } => InputView::LobbyAuth {
                username: username@,
                token: token@,
            },
            Input::Tick { now, stats } => InputView::Tick { now, stats: stats@ },
            Input::StateDumped { id, state } => InputView::StateDumped {
                id,
                state: utils::seen(state),
            },
            Input::AiHostExited => InputView::AiHostExited,
            Input::Checkpointed { id, state, players } => InputView::Checkpointed {
                id,
                state: utils::seen(state),
                players: items::views(players@),
            },
        }
    }
}

/// What a server wants done.
#[derive(Debug)]
pub enum Effect {
    Send { peer: PeerID, msg: WireMessage },
    Disconnect { peer: PeerID, reason: DisconnectReason },
    /// Shutdown must not wait for queued reliable traffic.
    DisconnectNow { peer: PeerID, reason: DisconnectReason },
    /// A peer gave a wrong password.
    PasswordRejected { peer: PeerID },
    /// What the game is listed as; sent on any change of settings or slots
    /// while still in setup.
    LobbyListing {
        host_username: String,
        nbp: u32,
        players: String,
        map: Option<LobbyMap>,
        mods: Vec<EnabledMod>,
    },
    /// Sent once, right after the last listing before a match starts.
    LobbyStarted { nbp: u32, players: String },
    /// Nobody needs the game any more.
    GameOver,
    /// A one-shot engine run should rebuild the state at `turn` for joiners no
    /// live client can serve.
    StateDump { id: u32, turn: u32, request: DumpRequest },
    /// The last joiner waiting on a dump left, so the run is not needed.
    CancelStateDump { id: u32 },
    /// A match with AI slots is starting, so the AI host that will join under
    /// `name` and play those slots is launched.
    SpawnAiHost { name: String },
    /// The AI host is no longer wanted.
    StopAiHost,
    /// A one-shot engine run should advance the rolling checkpoint chain to
    /// `turn`, resuming from the request's base.
    Checkpoint { id: u32, turn: u32, request: DumpRequest },
    /// The match has been decided. `checkpoint` names the run whose result
    /// proved it; None when it was worked out without one.
    MatchEnded { checkpoint: Option<u32> },
}

/// What [`Effect`] is.
pub enum EffectView {
    Send { peer: PeerID, msg: WireMessageView },
    Disconnect { peer: PeerID, reason: DisconnectReason },
    DisconnectNow { peer: PeerID, reason: DisconnectReason },
    PasswordRejected { peer: PeerID },
    LobbyListing {
        host_username: Seq<char>,
        nbp: u32,
        players: Seq<char>,
        map: Option<LobbyMapView>,
        mods: Seq<EnabledModView>,
    },
    LobbyStarted { nbp: u32, players: Seq<char> },
    GameOver,
    StateDump { id: u32, turn: u32, request: DumpRequestView },
    CancelStateDump { id: u32 },
    SpawnAiHost { name: Seq<char> },
    StopAiHost,
    Checkpoint { id: u32, turn: u32, request: DumpRequestView },
    MatchEnded { checkpoint: Option<u32> },
}

impl View for Effect {
    type V = EffectView;

    open spec fn view(&self) -> EffectView {
        match *self {
            Effect::Send { peer, msg } => EffectView::Send { peer, msg: msg@ },
            Effect::Disconnect { peer, reason } => EffectView::Disconnect { peer, reason },
            Effect::DisconnectNow { peer, reason } => EffectView::DisconnectNow { peer, reason },
            Effect::PasswordRejected { peer } => EffectView::PasswordRejected { peer },
            Effect::LobbyListing { host_username, nbp, players, map, mods } => {
                EffectView::LobbyListing {
                    host_username: host_username@,
                    nbp,
                    players: players@,
                    map: utils::seen(map),
                    mods: items::views(mods@),
                }
            },
            Effect::LobbyStarted { nbp, players } => EffectView::LobbyStarted {
                nbp,
                players: players@,
            },
            Effect::GameOver => EffectView::GameOver,
            Effect::StateDump { id, turn, request } => EffectView::StateDump {
                id,
                turn,
                request: request@,
            },
            Effect::CancelStateDump { id } => EffectView::CancelStateDump { id },
            Effect::SpawnAiHost { name } => EffectView::SpawnAiHost { name: name@ },
            Effect::StopAiHost => EffectView::StopAiHost,
            Effect::Checkpoint { id, turn, request } => EffectView::Checkpoint {
                id,
                turn,
                request: request@,
            },
            Effect::MatchEnded { checkpoint } => EffectView::MatchEnded { checkpoint },
        }
    }
}

/// The server-wide phase, as the rules of admission see it.
#[derive(Debug, Clone, Copy, PartialEq, Eq, Structural)]
pub enum Phase {
    Setup,
    Loading,
    InGame,
    PostGame,
}

} // verus!
