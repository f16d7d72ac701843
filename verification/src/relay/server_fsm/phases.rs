//! The phases of a server, and what leads from one to the next.

use vstd::prelude::*;

use crate::clock;
use crate::clock::Time;
use crate::network_message::PeerID;
use crate::relay::gamestate_transfer::Transfers;
use crate::relay::gamestate_transfer::TransfersView;
use crate::relay::messages::guid;
use crate::relay::messages::items;
use crate::relay::messages::Guid;
use crate::relay::messages::StartSettings;
use crate::relay::messages::WireMessage;
use crate::relay::messages::WireMessageView;
use crate::relay::monitor::Monitor;
use crate::relay::observer_feed::Feed;
use crate::relay::observer_feed::ObserverFeed;
use crate::relay::pause_budget::PauseBudget;
use crate::relay::pause_budget::Quotas;
use crate::relay::server_fsm::admission;
use crate::relay::server_fsm::config::Config;
use crate::relay::server_fsm::context::Chain;
use crate::relay::server_fsm::context::CheckpointChain;
use crate::relay::server_fsm::context::Context;
use crate::relay::server_fsm::context::Ctx;
use crate::relay::server_fsm::event::Effect;
use crate::relay::server_fsm::event::EffectView;
use crate::relay::server_fsm::event::Input;
use crate::relay::server_fsm::event::InputView;
use crate::relay::server_fsm::event::Phase;
use crate::relay::server_fsm::reason::DisconnectReason;
use crate::relay::server_fsm::settings::Frozen;
use crate::relay::server_fsm::settings::FrozenSettings;
use crate::relay::server_fsm::setup;
use crate::relay::server_fsm::setup::HeldStart;
use crate::relay::server_fsm::setup::StartOutcome;
use crate::relay::server_fsm::setup::StartView;
use crate::relay::server_fsm::setup::NO_SAVED_GAMES;
use crate::relay::session::Role;
use crate::relay::session::SessionView;
use crate::relay::slots::Slots;
use crate::relay::turn::Log;
use crate::relay::turn::MatchLog;
use crate::relay::turn::TurnManager;
use crate::relay::turn::Turns;
use crate::sidecar::DumpRequest;
use crate::sidecar::DumpRequestView;
use crate::table::Table;
use crate::utils;

verus! {

/// How long a held start waits for the AI host to be admitted, in
/// milliseconds. Long enough for a cold engine to boot and connect, short
/// enough that a controller whose start is refused is not left waiting for
/// nothing.
pub const AI_HOST_ADMIT_TIMEOUT: i64 = 30_000;

pub const AI_HOST_FAILED: &'static str = "The AI host failed to start; the game was not started.";

pub const AI_HOST_NAME: &'static str = "AI host ";

/// A server in one phase.
#[derive(Debug)]
pub struct Server<S> {
    pub ctx: Context,
    pub st: S,
}

/// No socket is open yet.
#[derive(Debug)]
pub struct Idle;

#[derive(Debug)]
pub struct Setup;

/// Still setup to the clients, but no start is accepted while the controller's
/// save file is in transit.
#[derive(Debug)]
pub struct AwaitSavegame {
    pub settings_json: Vec<u8>,
}

/// Still setup to the clients: the controller has started a match with AI
/// slots, and the start is held until the AI host that will play them has been
/// admitted, so it is there to receive the start with everyone else.
#[derive(Debug)]
pub struct AwaitAiHost {
    pub settings: FrozenSettings,
    /// What every stock client is sent, and the AI host's own copy.
    pub start: StartSettings,
    pub ai_host_start: StartSettings,
    /// Anchored on the first tick.
    pub requested_at: Option<Time>,
}

#[derive(Debug)]
pub struct Loading {
    pub settings: FrozenSettings,
    pub saved_state: Option<Vec<u8>>,
}

#[derive(Debug)]
pub struct InGame {
    pub settings: FrozenSettings,
}

/// Still a running match to the clients: their simulations keep running, so
/// turns are still released for whoever stays. What ends is everything that
/// only makes sense while the match can still be won: nobody is waited for,
/// nobody new is let in, and no more checkpoints are taken.
#[derive(Debug)]
pub struct PostGame {
    pub settings: FrozenSettings,
    /// The checkpoint run whose result decided the match, whose outcome is
    /// then already final and needs no replay of its own.
    pub resolved_by: Option<u32>,
    /// Anchored on the first tick.
    pub ended_at: Option<Time>,
}

/// Setup handlers stay available while a savegame is being fetched.
pub trait SetupPhase {

}

impl SetupPhase for Setup {

}

impl SetupPhase for AwaitSavegame {

}

impl SetupPhase for AwaitAiHost {

}

/// What the rules that depend on the phase go by.
pub trait PhaseMarker {
    spec fn phase_of(&self) -> Phase;

    spec fn settings_of(&self) -> Option<Frozen>;

    fn phase(&self) -> (r: Phase)
        ensures
            r == self.phase_of(),
    ;

    /// The frozen settings, once a match has been configured. Setup has none,
    /// so snapshot dumps stay out of its reach.
    fn settings(&self) -> (r: Option<&FrozenSettings>)
        ensures
            match r {
                Some(s) => self.settings_of() == Some(s@),
                None => self.settings_of() is None,
            },
    ;
}

impl PhaseMarker for Setup {
    open spec fn phase_of(&self) -> Phase {
        Phase::Setup
    }

    open spec fn settings_of(&self) -> Option<Frozen> {
        None
    }

    fn phase(&self) -> (r: Phase) {
        Phase::Setup
    }

    fn settings(&self) -> (r: Option<&FrozenSettings>) {
        None
    }
}

impl PhaseMarker for AwaitSavegame {
    open spec fn phase_of(&self) -> Phase {
        Phase::Setup
    }

    open spec fn settings_of(&self) -> Option<Frozen> {
        None
    }

    fn phase(&self) -> (r: Phase) {
        Phase::Setup
    }

    fn settings(&self) -> (r: Option<&FrozenSettings>) {
        None
    }
}

impl PhaseMarker for AwaitAiHost {
    open spec fn phase_of(&self) -> Phase {
        Phase::Setup
    }

    open spec fn settings_of(&self) -> Option<Frozen> {
        None
    }

    fn phase(&self) -> (r: Phase) {
        Phase::Setup
    }

    fn settings(&self) -> (r: Option<&FrozenSettings>) {
        None
    }
}

impl PhaseMarker for Loading {
    open spec fn phase_of(&self) -> Phase {
        Phase::Loading
    }

    open spec fn settings_of(&self) -> Option<Frozen> {
        Some(self.settings@)
    }

    fn phase(&self) -> (r: Phase) {
        Phase::Loading
    }

    fn settings(&self) -> (r: Option<&FrozenSettings>) {
        Some(&self.settings)
    }
}

impl PhaseMarker for InGame {
    open spec fn phase_of(&self) -> Phase {
        Phase::InGame
    }

    open spec fn settings_of(&self) -> Option<Frozen> {
        Some(self.settings@)
    }

    fn phase(&self) -> (r: Phase) {
        Phase::InGame
    }

    fn settings(&self) -> (r: Option<&FrozenSettings>) {
        Some(&self.settings)
    }
}

impl PhaseMarker for PostGame {
    open spec fn phase_of(&self) -> Phase {
        Phase::PostGame
    }

    open spec fn settings_of(&self) -> Option<Frozen> {
        Some(self.settings@)
    }

    fn phase(&self) -> (r: Phase) {
        Phase::PostGame
    }

    fn settings(&self) -> (r: Option<&FrozenSettings>) {
        Some(&self.settings)
    }
}

/// The phases in which turns are being released, which share every handler of
/// the running match.
pub trait MatchPhase: PhaseMarker {
    fn frozen(&self) -> (r: &FrozenSettings)
        ensures
            self.settings_of() == Some(r@),
    ;
}

impl MatchPhase for InGame {
    fn frozen(&self) -> (r: &FrozenSettings) {
        &self.settings
    }
}

impl MatchPhase for PostGame {
    fn frozen(&self) -> (r: &FrozenSettings) {
        &self.settings
    }
}

/// A server in whatever phase it is in.
#[derive(Debug)]
pub enum AnyServer {
    Idle(Server<Idle>),
    Setup(Server<Setup>),
    AwaitSavegame(Server<AwaitSavegame>),
    AwaitAiHost(Server<AwaitAiHost>),
    Loading(Server<Loading>),
    InGame(Server<InGame>),
    PostGame(Server<PostGame>),
}

/// What [`AnyServer`] is.
pub enum AnyView {
    Idle { ctx: Ctx },
    Setup { ctx: Ctx },
    AwaitSavegame { ctx: Ctx, settings_json: Seq<u8> },
    AwaitAiHost { ctx: Ctx, held: HeldStart, requested_at: Option<Time> },
    Loading { ctx: Ctx, settings: Frozen, saved_state: Option<Seq<u8>> },
    InGame { ctx: Ctx, settings: Frozen },
    PostGame { ctx: Ctx, settings: Frozen, resolved_by: Option<u32>, ended_at: Option<Time> },
}

impl View for AnyServer {
    type V = AnyView;

    open spec fn view(&self) -> AnyView {
        match *self {
            AnyServer::Idle(s) => AnyView::Idle { ctx: s.ctx@ },
            AnyServer::Setup(s) => AnyView::Setup { ctx: s.ctx@ },
            AnyServer::AwaitSavegame(s) => AnyView::AwaitSavegame {
                ctx: s.ctx@,
                settings_json: s.st.settings_json@,
            },
            AnyServer::AwaitAiHost(s) => AnyView::AwaitAiHost {
                ctx: s.ctx@,
                held: s.st.held(),
                requested_at: s.st.requested_at,
            },
            AnyServer::Loading(s) => AnyView::Loading {
                ctx: s.ctx@,
                settings: s.st.settings@,
                saved_state: utils::seen(s.st.saved_state),
            },
            AnyServer::InGame(s) => AnyView::InGame { ctx: s.ctx@, settings: s.st.settings@ },
            AnyServer::PostGame(s) => AnyView::PostGame {
                ctx: s.ctx@,
                settings: s.st.settings@,
                resolved_by: s.st.resolved_by,
                ended_at: s.st.ended_at,
            },
        }
    }
}

impl From<Server<Idle>> for AnyServer {
    fn from(s: Server<Idle>) -> (r: Self) {
        AnyServer::Idle(s)
    }
}

impl vstd::std_specs::convert::FromSpecImpl<Server<Idle>> for AnyServer {
    open spec fn obeys_from_spec() -> bool {
        true
    }

    open spec fn from_spec(s: Server<Idle>) -> Self {
        AnyServer::Idle(s)
    }
}

impl From<Server<Setup>> for AnyServer {
    fn from(s: Server<Setup>) -> (r: Self) {
        AnyServer::Setup(s)
    }
}

impl vstd::std_specs::convert::FromSpecImpl<Server<Setup>> for AnyServer {
    open spec fn obeys_from_spec() -> bool {
        true
    }

    open spec fn from_spec(s: Server<Setup>) -> Self {
        AnyServer::Setup(s)
    }
}

impl From<Server<AwaitSavegame>> for AnyServer {
    fn from(s: Server<AwaitSavegame>) -> (r: Self) {
        AnyServer::AwaitSavegame(s)
    }
}

impl vstd::std_specs::convert::FromSpecImpl<Server<AwaitSavegame>> for AnyServer {
    open spec fn obeys_from_spec() -> bool {
        true
    }

    open spec fn from_spec(s: Server<AwaitSavegame>) -> Self {
        AnyServer::AwaitSavegame(s)
    }
}

impl From<Server<AwaitAiHost>> for AnyServer {
    fn from(s: Server<AwaitAiHost>) -> (r: Self) {
        AnyServer::AwaitAiHost(s)
    }
}

impl vstd::std_specs::convert::FromSpecImpl<Server<AwaitAiHost>> for AnyServer {
    open spec fn obeys_from_spec() -> bool {
        true
    }

    open spec fn from_spec(s: Server<AwaitAiHost>) -> Self {
        AnyServer::AwaitAiHost(s)
    }
}

impl From<Server<Loading>> for AnyServer {
    fn from(s: Server<Loading>) -> (r: Self) {
        AnyServer::Loading(s)
    }
}

impl vstd::std_specs::convert::FromSpecImpl<Server<Loading>> for AnyServer {
    open spec fn obeys_from_spec() -> bool {
        true
    }

    open spec fn from_spec(s: Server<Loading>) -> Self {
        AnyServer::Loading(s)
    }
}

impl From<Server<InGame>> for AnyServer {
    fn from(s: Server<InGame>) -> (r: Self) {
        AnyServer::InGame(s)
    }
}

impl vstd::std_specs::convert::FromSpecImpl<Server<InGame>> for AnyServer {
    open spec fn obeys_from_spec() -> bool {
        true
    }

    open spec fn from_spec(s: Server<InGame>) -> Self {
        AnyServer::InGame(s)
    }
}

impl From<Server<PostGame>> for AnyServer {
    fn from(s: Server<PostGame>) -> (r: Self) {
        AnyServer::PostGame(s)
    }
}

impl vstd::std_specs::convert::FromSpecImpl<Server<PostGame>> for AnyServer {
    open spec fn obeys_from_spec() -> bool {
        true
    }

    open spec fn from_spec(s: Server<PostGame>) -> Self {
        AnyServer::PostGame(s)
    }
}

impl AwaitAiHost {
    pub open spec fn held(self) -> HeldStart {
        HeldStart {
            settings: self.settings@,
            start: self.start.init_attributes@,
            ai_host_start: self.ai_host_start.init_attributes@,
        }
    }
}

impl Ctx {
    /// A game nothing has happened to yet.
    pub open spec fn fresh(config: Config, server_uuid: Seq<char>, ai_host_name: Seq<char>) -> Ctx {
        Ctx {
            config,
            sessions: Seq::empty(),
            slots: Seq::empty(),
            controller: None,
            server_uuid,
            next_client_id: 1,
            banned_ips: Seq::empty(),
            banned_names: Seq::empty(),
            forfeited: Seq::empty(),
            resigned: Seq::empty(),
            transfers: TransfersView::none(),
            monitor: Monitor { last_pass: None },
            pause_budget: Quotas::new(config.pause_budget, config.pause_min_charge),
            turns: Turns::new(),
            log: Log::new(),
            feed: Feed::new(config.observer_delay_turns),
            dump: None,
            next_dump_id: 0,
            checkpoints: Chain::new(),
            created_at: None,
            empty_since: None,
            ai_host_name,
            ai_host: None,
            lobby_map: None,
            effects: Seq::empty(),
        }
    }

    /// A held start given up. Nothing of it has reached any client yet, so
    /// going back to setup is enough; the chat line is what tells the
    /// controller to try again.
    #[verifier::opaque]
    pub open spec fn start_refused(self) -> Ctx {
        Ctx { ai_host: None, ..self }.doing(EffectView::StopAiHost).said(None, AI_HOST_FAILED@)
    }

    pub open spec fn controller_present(self) -> bool {
        match self.controller {
            Some(c) => self.peer_of(c) is Some,
            None => false,
        }
    }

    /// Whether a decided match closes: once nobody is left to watch, or the
    /// linger has run out. The AI host alone keeps nothing open.
    pub open spec fn closes(self, ended_at: Option<Time>, now: Time) -> (bool, Option<Time>) {
        if !self.anyone_admitted() {
            (true, ended_at)
        } else {
            let (over, since) = clock::waited(
                ended_at,
                now,
                clock::ms(self.config.post_game_linger),
            );
            (over, Some(since))
        }
    }

    /// Everyone disconnected at once.
    pub open spec fn shut_down(self) -> Seq<EffectView> {
        self.effects + self.sessions.map_values(
            |row: (PeerID, SessionView)|
                EffectView::DisconnectNow {
                    peer: row.0,
                    reason: DisconnectReason::ServerShuttingDown,
                },
        )
    }
}

impl AnyView {
    pub open spec fn ctx(self) -> Ctx {
        match self {
            AnyView::Idle { ctx } => ctx,
            AnyView::Setup { ctx } => ctx,
            AnyView::AwaitSavegame { ctx, .. } => ctx,
            AnyView::AwaitAiHost { ctx, .. } => ctx,
            AnyView::Loading { ctx, .. } => ctx,
            AnyView::InGame { ctx, .. } => ctx,
            AnyView::PostGame { ctx, .. } => ctx,
        }
    }

    pub open spec fn with_effects(self, effects: Seq<EffectView>) -> AnyView {
        match self {
            AnyView::Idle { ctx } => AnyView::Idle { ctx: Ctx { effects, ..ctx } },
            AnyView::Setup { ctx } => AnyView::Setup { ctx: Ctx { effects, ..ctx } },
            AnyView::AwaitSavegame { ctx, settings_json } => AnyView::AwaitSavegame {
                ctx: Ctx { effects, ..ctx },
                settings_json,
            },
            AnyView::AwaitAiHost { ctx, held, requested_at } => AnyView::AwaitAiHost {
                ctx: Ctx { effects, ..ctx },
                held,
                requested_at,
            },
            AnyView::Loading { ctx, settings, saved_state } => AnyView::Loading {
                ctx: Ctx { effects, ..ctx },
                settings,
                saved_state,
            },
            AnyView::InGame { ctx, settings } => AnyView::InGame {
                ctx: Ctx { effects, ..ctx },
                settings,
            },
            AnyView::PostGame { ctx, settings, resolved_by, ended_at } => AnyView::PostGame {
                ctx: Ctx { effects, ..ctx },
                settings,
                resolved_by,
                ended_at,
            },
        }
    }

    pub open spec fn wf(self) -> bool {
        self.ctx().wf()
    }

    /// A message during setup.
    pub open spec fn setup_received(
        c: Ctx,
        peer: PeerID,
        msg: WireMessageView,
        issued: Option<Seq<char>>,
    ) -> AnyView {
        if setup::is_setup_message(msg) {
            AnyView::Setup { ctx: c.setup_message(Phase::Setup, peer, msg) }
        } else {
            match msg {
                WireMessageView::StartSettings(m) => {
                    let ctx = c.start_asked(Phase::Setup, peer, m.init_attributes);
                    match c.start_outcome(peer, m.init_attributes) {
                        StartView::Ignored => AnyView::Setup { ctx },
                        StartView::Started(settings) => AnyView::Loading {
                            ctx: ctx.start_listed(),
                            settings,
                            saved_state: None,
                        },
                        StartView::Held(held) => AnyView::AwaitAiHost {
                            ctx,
                            held,
                            requested_at: None,
                        },
                    }
                },
                WireMessageView::StartSavegameSettings(_) => AnyView::Setup {
                    ctx: c.said(Some(peer), NO_SAVED_GAMES@),
                },
                _ => AnyView::Setup {
                    ctx: c.common_message(Phase::Setup, None, peer, msg, issued),
                },
            }
        }
    }

    pub open spec fn setup_handled(
        c: Ctx,
        input: InputView,
        issued: Option<Seq<char>>,
    ) -> AnyView {
        match input {
            InputView::Received { peer, msg } => Self::setup_received(c, peer, msg, issued),
            _ => AnyView::Setup { ctx: c.common_input(Phase::Setup, None, input, issued) },
        }
    }

    pub open spec fn savegame_handled(
        c: Ctx,
        settings_json: Seq<u8>,
        input: InputView,
        issued: Option<Seq<char>>,
    ) -> AnyView {
        AnyView::AwaitSavegame {
            ctx: match input {
                InputView::Received { peer, msg } => if setup::is_setup_message(msg) {
                    c.setup_message(Phase::Setup, peer, msg)
                } else {
                    c.common_message(Phase::Setup, None, peer, msg, issued)
                },
                _ => c.common_input(Phase::Setup, None, input, issued),
            },
            settings_json,
        }
    }

    /// A message while a start is held. Once the AI host is admitted the start
    /// goes out.
    pub open spec fn held_received(
        c: Ctx,
        held: HeldStart,
        requested_at: Option<Time>,
        peer: PeerID,
        msg: WireMessageView,
        issued: Option<Seq<char>>,
    ) -> AnyView {
        if setup::is_setup_message(msg) {
            AnyView::AwaitAiHost {
                ctx: c.setup_message(Phase::Setup, peer, msg),
                held,
                requested_at,
            }
        } else {
            match msg {
                WireMessageView::StartSettings(_) => AnyView::AwaitAiHost {
                    ctx: c,
                    held,
                    requested_at,
                },
                WireMessageView::StartSavegameSettings(_) => AnyView::AwaitAiHost {
                    ctx: c,
                    held,
                    requested_at,
                },
                _ => {
                    let ctx = c.common_message(Phase::Setup, None, peer, msg, issued);
                    if msg is Authenticate && ctx.ai_peer() is Some {
                        AnyView::Loading {
                            ctx: ctx.match_begun(
                                Phase::Setup,
                                held.start,
                                Some(held.ai_host_start),
                            ).start_listed(),
                            settings: held.settings,
                            saved_state: None,
                        }
                    } else {
                        AnyView::AwaitAiHost { ctx, held, requested_at }
                    }
                },
            }
        }
    }

    pub open spec fn held_handled(
        c: Ctx,
        held: HeldStart,
        requested_at: Option<Time>,
        input: InputView,
        issued: Option<Seq<char>>,
    ) -> AnyView {
        match input {
            InputView::Received { peer, msg } => Self::held_received(
                c,
                held,
                requested_at,
                peer,
                msg,
                issued,
            ),
            InputView::AiHostExited => AnyView::Setup { ctx: c.start_refused() },
            InputView::Tick { now, stats } => {
                let ctx = c.ticked(Phase::Setup, now, stats);
                let (over, since) = clock::waited(
                    requested_at,
                    now,
                    clock::ms(AI_HOST_ADMIT_TIMEOUT),
                );
                if over {
                    AnyView::Setup { ctx: ctx.start_refused() }
                } else {
                    AnyView::AwaitAiHost { ctx, held, requested_at: Some(since) }
                }
            },
            InputView::Disconnected { peer } => {
                let ctx = c.departed(Phase::Setup, None, peer);
                if ctx.controller_present() {
                    AnyView::AwaitAiHost { ctx, held, requested_at }
                } else {
                    AnyView::Setup { ctx: ctx.start_refused() }
                }
            },
            _ => AnyView::AwaitAiHost {
                ctx: c.common_input(Phase::Setup, None, input, issued),
                held,
                requested_at,
            },
        }
    }

    /// The match is on once everyone has loaded.
    pub open spec fn loading_or_on(
        c: Ctx,
        settings: Frozen,
        saved_state: Option<Seq<u8>>,
        announce: bool,
    ) -> AnyView {
        let ctx = c.loading_told(announce);
        if c.everyone_loaded() {
            AnyView::InGame { ctx, settings }
        } else {
            AnyView::Loading { ctx, settings, saved_state }
        }
    }

    pub open spec fn loading_handled(
        c: Ctx,
        settings: Frozen,
        saved_state: Option<Seq<u8>>,
        input: InputView,
        issued: Option<Seq<char>>,
    ) -> AnyView {
        match input {
            InputView::Received { peer, msg: WireMessageView::LoadedGame(_) } => if c.is_loading(
                peer,
            ) {
                Self::loading_or_on(
                    c.with_role(peer, Role::InGame),
                    settings,
                    saved_state,
                    true,
                )
            } else {
                AnyView::Loading { ctx: c, settings, saved_state }
            },
            InputView::Received { peer, msg: WireMessageView::PreGameStatus(_) } => {
                AnyView::Loading { ctx: c, settings, saved_state }
            },
            InputView::Disconnected { peer } => Self::loading_or_on(
                c.departed(Phase::Loading, Some(settings), peer),
                settings,
                saved_state,
                false,
            ),
            _ => AnyView::Loading {
                ctx: c.common_input(Phase::Loading, Some(settings), input, issued),
                settings,
                saved_state,
            },
        }
    }

    /// After anything that happened in a match: it may be decided, and if not
    /// a checkpoint may be due.
    pub open spec fn played_on(c: Ctx, settings: Frozen) -> AnyView {
        if c.resigned_out(settings) {
            AnyView::PostGame {
                ctx: c.ended(None),
                settings,
                resolved_by: None,
                ended_at: None,
            }
        } else {
            AnyView::InGame { ctx: c.checkpointing(settings), settings }
        }
    }

    pub open spec fn game_handled(
        c: Ctx,
        settings: Frozen,
        input: InputView,
        issued: Option<Seq<char>>,
    ) -> AnyView {
        match input {
            InputView::Received { peer, msg } => Self::played_on(
                c.match_message(Phase::InGame, settings, peer, msg, issued),
                settings,
            ),
            InputView::StateDumped { id, state } => Self::played_on(
                c.state_dumped(Some(settings), id, state),
                settings,
            ),
            InputView::Checkpointed { id, state, players } => {
                let ctx = c.checkpointed(id, state);
                if c.decided_by(id, state, players) {
                    AnyView::PostGame {
                        ctx: ctx.ended(Some(id)),
                        settings,
                        resolved_by: Some(id),
                        ended_at: None,
                    }
                } else {
                    Self::played_on(ctx, settings)
                }
            },
            InputView::Disconnected { peer } => Self::played_on(
                c.departure_probed(peer).common_input(
                    Phase::InGame,
                    Some(settings),
                    input,
                    issued,
                ),
                settings,
            ),
            _ => Self::played_on(
                c.common_input(Phase::InGame, Some(settings), input, issued),
                settings,
            ),
        }
    }

    pub open spec fn post_handled(
        c: Ctx,
        settings: Frozen,
        resolved_by: Option<u32>,
        ended_at: Option<Time>,
        input: InputView,
        issued: Option<Seq<char>>,
    ) -> AnyView {
        match input {
            InputView::Received { peer, msg } => AnyView::PostGame {
                ctx: c.match_message(Phase::PostGame, settings, peer, msg, issued),
                settings,
                resolved_by,
                ended_at,
            },
            InputView::StateDumped { id, state } => AnyView::PostGame {
                ctx: c.state_dumped(Some(settings), id, state),
                settings,
                resolved_by,
                ended_at,
            },
            InputView::Tick { now, stats } => {
                let ctx = c.ticked(Phase::PostGame, now, stats);
                let (over, since) = ctx.closes(ended_at, now);
                AnyView::PostGame {
                    ctx: if over {
                        ctx.doing(EffectView::GameOver)
                    } else {
                        ctx
                    },
                    settings,
                    resolved_by,
                    ended_at: since,
                }
            },
            _ => AnyView::PostGame {
                ctx: c.common_input(Phase::PostGame, Some(settings), input, issued),
                settings,
                resolved_by,
                ended_at,
            },
        }
    }

    /// What becomes of a server by anything that happens, given the identity
    /// that is issued should it be one. While idle any input is a mistake
    /// further up.
    pub open spec fn handled(self, input: InputView, issued: Option<Seq<char>>) -> AnyView {
        match self {
            AnyView::Idle { .. } => self,
            AnyView::Setup { ctx } => Self::setup_handled(ctx, input, issued),
            AnyView::AwaitSavegame { ctx, settings_json } => Self::savegame_handled(
                ctx,
                settings_json,
                input,
                issued,
            ),
            AnyView::AwaitAiHost { ctx, held, requested_at } => Self::held_handled(
                ctx,
                held,
                requested_at,
                input,
                issued,
            ),
            AnyView::Loading { ctx, settings, saved_state } => Self::loading_handled(
                ctx,
                settings,
                saved_state,
                input,
                issued,
            ),
            AnyView::InGame { ctx, settings } => Self::game_handled(ctx, settings, input, issued),
            AnyView::PostGame { ctx, settings, resolved_by, ended_at } => Self::post_handled(
                ctx,
                settings,
                resolved_by,
                ended_at,
                input,
                issued,
            ),
        }
    }

    /// What a replay for the match's outcome needs. A match decided by a
    /// checkpoint already has its outcome.
    pub open spec fn outcome_record(self) -> Option<DumpRequestView> {
        match self {
            AnyView::InGame { ctx, settings } => ctx.outcome_record(settings),
            AnyView::PostGame { ctx, settings, resolved_by: None, .. } => ctx.outcome_record(
                settings,
            ),
            _ => None,
        }
    }
}

fn peer_shutdowns(ctx: &Context, effects: &mut Vec<Effect>)
    ensures
        items::views(final(effects)@) == items::views(old(effects)@) + ctx@.sessions.map_values(
            |row: (PeerID, SessionView)|
                EffectView::DisconnectNow {
                    peer: row.0,
                    reason: DisconnectReason::ServerShuttingDown,
                },
        ),
{
    let ghost told = items::views(effects@);
    let ghost all = ctx@.sessions;
    let ghost line = |row: (PeerID, SessionView)|
        EffectView::DisconnectNow {
            peer: row.0,
            reason: DisconnectReason::ServerShuttingDown,
        };
    let mut i: usize = 0;
    assert(told =~= told + all.take(0).map_values(line));
    while i < ctx.sessions.rows.len()
        invariant
            all == ctx@.sessions,
            line == (|row: (PeerID, SessionView)|
                EffectView::DisconnectNow {
                    peer: row.0,
                    reason: DisconnectReason::ServerShuttingDown,
                }),
            i <= ctx.sessions.rows@.len(),
            items::views(effects@) == told + all.take(i as int).map_values(line),
        decreases ctx.sessions.rows@.len() - i,
    {
        let ghost so_far = items::views(effects@);
        assert(all[i as int] == crate::table::row_view(ctx.sessions.rows@[i as int]));
        let effect = Effect::DisconnectNow {
            peer: ctx.sessions.rows[i].0,
            reason: DisconnectReason::ServerShuttingDown,
        };
        let ghost e = effect@;
        effects.push(effect);
        proof {
            assert(items::views(effects@) =~= so_far.push(e));
            assert(so_far.push(e) =~= told + all.take(i + 1).map_values(line));
        }
        i += 1;
    }
    assert(all.take(i as int) =~= all);
}

impl<S> Server<S> {
    pub fn with_state<T>(self, st: T) -> (r: Server<T>)
        ensures
            r.ctx == self.ctx,
            r.st == st,
    {
        Server { ctx: self.ctx, st }
    }

    pub fn take_effects(&mut self) -> (r: Vec<Effect>)
        ensures
            items::views(r@) == old(self).ctx@.effects,
            final(self).ctx@ == (Ctx { effects: Seq::empty(), ..old(self).ctx@ }),
            final(self).st == old(self).st,
    {
        let mut effects: Vec<Effect> = Vec::new();
        std::mem::swap(&mut effects, &mut self.ctx.effects);
        assert(items::views(self.ctx.effects@) =~= Seq::empty());
        effects
    }

    pub fn shutdown(self) -> (r: Vec<Effect>)
        ensures
            items::views(r@) == self.ctx@.shut_down(),
    {
        let mut ctx = self.ctx;
        let mut effects: Vec<Effect> = Vec::new();
        let ghost before = ctx@;
        std::mem::swap(&mut effects, &mut ctx.effects);
        assert(ctx@.sessions == before.sessions);
        peer_shutdowns(&ctx, &mut effects);
        effects
    }
}

impl Server<Idle> {
    pub fn new(config: Config) -> (r: Self)
        requires
            config.wf(),
        ensures
            r.ctx@ == Ctx::fresh(config, r.ctx@.server_uuid, r.ctx@.ai_host_name),
            guid::uuid_shaped(r.ctx@.server_uuid),
            exists|id: Seq<char>|
                #[trigger] guid::uuid_shaped(id) && r.ctx@.ai_host_name == AI_HOST_NAME@ + id.take(
                    8,
                ),
            r.ctx.wf(),
    {
        let pause_budget = PauseBudget::new(config.pause_budget, config.pause_min_charge);
        let feed = ObserverFeed::new(config.observer_delay_turns);
        let tag = Guid::new();
        let part = utils::chars_of(tag.0.as_str());
        let mut ai_host_name = utils::copy_text(AI_HOST_NAME);
        let short = utils::text_of(vstd::slice::slice_subrange(part.as_slice(), 0, 8));
        ai_host_name.append(short.as_str());
        proof {
            assert(short@ =~= tag@.take(8));
            assert(guid::uuid_shaped(tag@));
            assert(ai_host_name@ =~= AI_HOST_NAME@ + tag@.take(8));
        }
        let ctx = Context {
            config,
            sessions: Table::new(),
            slots: Slots::new(),
            controller: None,
            server_uuid: Guid::new(),
            // Client numbers start at 1 and only ever increase.
            next_client_id: 1,
            banned_ips: Vec::new(),
            banned_names: Vec::new(),
            forfeited: Vec::new(),
            resigned: Vec::new(),
            transfers: Transfers::new(),
            monitor: Monitor { last_pass: None },
            pause_budget,
            turns: TurnManager::new(),
            log: MatchLog::new(),
            feed,
            dump: None,
            next_dump_id: 0,
            checkpoints: CheckpointChain::new(),
            created_at: None,
            empty_since: None,
            ai_host_name,
            ai_host: None,
            lobby_map: None,
            effects: Vec::new(),
        };
        proof {
            assert(items::views(ctx.banned_names@) =~= Seq::empty());
            assert(items::views(ctx.forfeited@) =~= Seq::empty());
            assert(items::views(ctx.effects@) =~= Seq::empty());
        }
        Server { ctx, st: Idle }
    }

    pub fn listen(self) -> (r: Server<Setup>)
        ensures
            r.ctx == self.ctx,
    {
        self.with_state(Setup)
    }

    fn on_input(self, _input: Input) -> (r: AnyServer)
        ensures
            r@ == (AnyView::Idle { ctx: self.ctx@ }),
    {
        AnyServer::Idle(self)
    }
}

impl Server<Setup> {
    pub fn start(self, settings: FrozenSettings) -> (r: Server<Loading>)
        requires
            self.ctx.wf(),
        ensures
            r.ctx@ == self.ctx@.start_listed(),
            r.ctx.wf(),
            r.st.settings == settings,
            r.st.saved_state is None,
    {
        let mut ctx = self.ctx;
        ctx.list_start();
        Server { ctx, st: Loading { settings, saved_state: None } }
    }

    pub fn start_savegame(self, settings_json: Vec<u8>) -> (r: Server<AwaitSavegame>)
        ensures
            r.ctx == self.ctx,
            r.st.settings_json == settings_json,
    {
        self.with_state(AwaitSavegame { settings_json })
    }

    fn on_message(self, peer: PeerID, msg: WireMessage, issued: Option<Guid>) -> (r: AnyServer)
        requires
            self.ctx.wf(),
        ensures
            r@ == AnyView::setup_received(self.ctx@, peer, msg@, utils::seen(issued)),
            r@.wf(),
    {
        let mut ctx = self.ctx;
        let msg = match ctx.on_setup_message(Phase::Setup, peer, msg) {
            Some(msg) => msg,
            None => return AnyServer::Setup(Server { ctx, st: Setup }),
        };
        match msg {
            WireMessage::StartSettings(m) => match ctx.on_start_settings(Phase::Setup, peer, m) {
                StartOutcome::Ignored => {},
                StartOutcome::Started(settings) => {
                    let server = Server { ctx, st: Setup };
                    return AnyServer::Loading(server.start(settings));
                },
                StartOutcome::Held { settings, start, ai_host_start } => {
                    return AnyServer::AwaitAiHost(
                        Server {
                            ctx,
                            st: AwaitAiHost { settings, start, ai_host_start, requested_at: None },
                        },
                    );
                },
            },
            // A stock client offers its savegame picker only when it hosts the
            // server itself, so nothing but a modified client sends this.
            WireMessage::StartSavegameSettings(_) => ctx.server_chat(Some(peer), NO_SAVED_GAMES),
            other => ctx.on_common_message(Phase::Setup, None, peer, other, issued),
        }
        AnyServer::Setup(Server { ctx, st: Setup })
    }

    fn on_input(self, input: Input, issued: Option<Guid>) -> (r: AnyServer)
        requires
            self.ctx.wf(),
        ensures
            r@ == AnyView::setup_handled(self.ctx@, input@, utils::seen(issued)),
            r@.wf(),
    {
        match input {
            Input::Received { peer, msg } => self.on_message(peer, msg, issued),
            other => {
                let mut ctx = self.ctx;
                ctx.on_common_input(Phase::Setup, None, other, issued);
                AnyServer::Setup(Server { ctx, st: Setup })
            },
        }
    }
}

impl Server<AwaitSavegame> {
    pub fn savegame_received(self, saved_state: Vec<u8>, settings: FrozenSettings) -> (r: Server<
        Loading,
    >)
        ensures
            r.ctx == self.ctx,
            r.st.settings == settings,
            r.st.saved_state == Some(saved_state),
    {
        self.with_state(Loading { settings, saved_state: Some(saved_state) })
    }

    fn on_input(self, input: Input, issued: Option<Guid>) -> (r: AnyServer)
        requires
            self.ctx.wf(),
        ensures
            r@ == AnyView::savegame_handled(
                self.ctx@,
                self.st.settings_json@,
                input@,
                utils::seen(issued),
            ),
            r@.wf(),
    {
        let mut ctx = self.ctx;
        match input {
            Input::Received { peer, msg } => {
                if let Some(msg) = ctx.on_setup_message(Phase::Setup, peer, msg) {
                    ctx.on_common_message(Phase::Setup, None, peer, msg, issued);
                }
            },
            other => ctx.on_common_input(Phase::Setup, None, other, issued),
        }
        AnyServer::AwaitSavegame(Server { ctx, st: self.st })
    }
}

impl Server<AwaitAiHost> {
    fn refuse_start(self) -> (r: Server<Setup>)
        requires
            self.ctx.wf(),
        ensures
            r.ctx@ == self.ctx@.start_refused(),
            r.ctx.wf(),
    {
        proof {
            reveal(Ctx::start_refused);
        }
        let mut ctx = self.ctx;
        ctx.ai_host = None;
        ctx.push_effect(Effect::StopAiHost);
        ctx.server_chat(None, AI_HOST_FAILED);
        Server { ctx, st: Setup }
    }

    fn ai_host_admitted(self) -> (r: Server<Loading>)
        requires
            self.ctx.wf(),
        ensures
            r.ctx@ == self.ctx@.match_begun(
                Phase::Setup,
                self.st.held().start,
                Some(self.st.held().ai_host_start),
            ).start_listed(),
            r.st.settings == self.st.settings,
            r.st.saved_state is None,
            r.ctx.wf(),
    {
        let mut ctx = self.ctx;
        let st = self.st;
        ctx.begin_match(Phase::Setup, st.start, Some(st.ai_host_start));
        let server = Server { ctx, st: Setup };
        server.start(st.settings)
    }

    fn on_message(self, peer: PeerID, msg: WireMessage, issued: Option<Guid>) -> (r: AnyServer)
        requires
            self.ctx.wf(),
        ensures
            r@ == AnyView::held_received(
                self.ctx@,
                self.st.held(),
                self.st.requested_at,
                peer,
                msg@,
                utils::seen(issued),
            ),
            r@.wf(),
    {
        let mut ctx = self.ctx;
        let st = self.st;
        let msg = match ctx.on_setup_message(Phase::Setup, peer, msg) {
            Some(msg) => msg,
            None => return AnyServer::AwaitAiHost(Server { ctx, st }),
        };
        match msg {
            WireMessage::StartSettings(_) => {},
            WireMessage::StartSavegameSettings(_) => {},
            WireMessage::Authenticate(m) => {
                ctx.on_common_message(
                    Phase::Setup,
                    None,
                    peer,
                    WireMessage::Authenticate(m),
                    issued,
                );
                if ctx.ai_peer().is_some() {
                    let server = Server { ctx, st };
                    return AnyServer::Loading(server.ai_host_admitted());
                }
            },
            other => ctx.on_common_message(Phase::Setup, None, peer, other, issued),
        }
        AnyServer::AwaitAiHost(Server { ctx, st })
    }

    fn on_input(self, input: Input, issued: Option<Guid>) -> (r: AnyServer)
        requires
            self.ctx.wf(),
        ensures
            r@ == AnyView::held_handled(
                self.ctx@,
                self.st.held(),
                self.st.requested_at,
                input@,
                utils::seen(issued),
            ),
            r@.wf(),
    {
        match input {
            Input::Received { peer, msg } => self.on_message(peer, msg, issued),
            Input::AiHostExited => AnyServer::Setup(self.refuse_start()),
            Input::Tick { now, stats } => {
                let mut server = self;
                server.ctx.on_tick(Phase::Setup, now, &stats);
                let (over, since) = clock::wait_over(
                    server.st.requested_at,
                    now,
                    AI_HOST_ADMIT_TIMEOUT,
                );
                server.st.requested_at = Some(since);
                if over {
                    AnyServer::Setup(server.refuse_start())
                } else {
                    AnyServer::AwaitAiHost(server)
                }
            },
            Input::Disconnected { peer } => {
                let mut server = self;
                server.ctx.on_disconnected(Phase::Setup, None, peer);
                // Nobody would be left to take the match through loading.
                let present = match &server.ctx.controller {
                    Some(c) => server.ctx.peer_of(c).is_some(),
                    None => false,
                };
                if present {
                    AnyServer::AwaitAiHost(server)
                } else {
                    AnyServer::Setup(server.refuse_start())
                }
            },
            other => {
                let mut server = self;
                server.ctx.on_common_input(Phase::Setup, None, other, issued);
                AnyServer::AwaitAiHost(server)
            },
        }
    }
}

impl Server<Loading> {
    pub fn all_loaded(self) -> (r: Server<InGame>)
        ensures
            r.ctx == self.ctx,
            r.st.settings == self.st.settings,
    {
        let settings = self.st.settings;
        Server { ctx: self.ctx, st: InGame { settings } }
    }

    fn finish(self, announce: bool) -> (r: AnyServer)
        requires
            self.ctx.wf(),
        ensures
            r@ == AnyView::loading_or_on(
                self.ctx@,
                self.st.settings@,
                utils::seen(self.st.saved_state),
                announce,
            ),
            r@.wf(),
    {
        let mut server = self;
        if server.ctx.finish_if_everyone_loaded(announce) {
            AnyServer::InGame(server.all_loaded())
        } else {
            AnyServer::Loading(server)
        }
    }

    fn on_input(self, input: Input, issued: Option<Guid>) -> (r: AnyServer)
        requires
            self.ctx.wf(),
        ensures
            r@ == AnyView::loading_handled(
                self.ctx@,
                self.st.settings@,
                utils::seen(self.st.saved_state),
                input@,
                utils::seen(issued),
            ),
            r@.wf(),
    {
        match input {
            Input::Received { peer, msg: WireMessage::LoadedGame(_) } => {
                let mut server = self;
                if !server.ctx.is_loading(peer) {
                    return AnyServer::Loading(server);
                }
                server.ctx.set_role(peer, Role::InGame);
                server.finish(true)
            },
            Input::Received { peer: _, msg: WireMessage::PreGameStatus(_) } => AnyServer::Loading(
                self,
            ),
            Input::Disconnected { peer } => {
                let mut ctx = self.ctx;
                let st = self.st;
                ctx.on_disconnected(Phase::Loading, Some(&st.settings), peer);
                // A departure can leave everyone else loaded, which also
                // starts the match; progress is never told for one.
                let server = Server { ctx, st };
                server.finish(false)
            },
            other => {
                let mut ctx = self.ctx;
                let st = self.st;
                ctx.on_common_input(Phase::Loading, Some(&st.settings), other, issued);
                AnyServer::Loading(Server { ctx, st })
            },
        }
    }
}

impl Server<InGame> {
    fn end_match(self, resolved_by: Option<u32>) -> (r: Server<PostGame>)
        requires
            self.ctx.wf(),
        ensures
            r.ctx@ == self.ctx@.ended(resolved_by),
            r.st.settings == self.st.settings,
            r.st.resolved_by == resolved_by,
            r.st.ended_at is None,
            r.ctx.wf(),
    {
        let mut ctx = self.ctx;
        ctx.end_match(resolved_by);
        Server { ctx, st: PostGame { settings: self.st.settings, resolved_by, ended_at: None } }
    }

    fn play_on(self) -> (r: AnyServer)
        requires
            self.ctx.wf(),
        ensures
            r@ == AnyView::played_on(self.ctx@, self.st.settings@),
            r@.wf(),
    {
        if self.ctx.resigned_out(&self.st.settings) {
            return AnyServer::PostGame(self.end_match(None));
        }
        let mut ctx = self.ctx;
        let st = self.st;
        ctx.maybe_checkpoint(&st.settings);
        AnyServer::InGame(Server { ctx, st })
    }

    fn on_input(self, input: Input, issued: Option<Guid>) -> (r: AnyServer)
        requires
            self.ctx.wf(),
        ensures
            r@ == AnyView::game_handled(
                self.ctx@,
                self.st.settings@,
                input@,
                utils::seen(issued),
            ),
            r@.wf(),
    {
        let mut ctx = self.ctx;
        let st = self.st;
        match input {
            Input::Received { peer, msg } => ctx.on_match_message(
                Phase::InGame,
                &st.settings,
                peer,
                msg,
                issued,
            ),
            Input::StateDumped { id, state } => ctx.on_state_dumped(
                Some(&st.settings),
                id,
                state,
            ),
            Input::Checkpointed { id, state, players } => {
                if ctx.on_checkpointed(id, state, &players) {
                    let server = Server { ctx, st };
                    return AnyServer::PostGame(server.end_match(Some(id)));
                }
            },
            Input::Disconnected { peer } => {
                ctx.probe_departure(peer);
                ctx.on_common_input(
                    Phase::InGame,
                    Some(&st.settings),
                    Input::Disconnected { peer },
                    issued,
                );
            },
            other => ctx.on_common_input(Phase::InGame, Some(&st.settings), other, issued),
        }
        let server = Server { ctx, st };
        server.play_on()
    }
}

impl Server<PostGame> {
    fn close_due(&mut self, now: Time) -> (r: bool)
        ensures
            (r, final(self).st.ended_at) == old(self).ctx@.closes(old(self).st.ended_at, now),
            final(self).ctx == old(self).ctx,
            final(self).st.settings == old(self).st.settings,
            final(self).st.resolved_by == old(self).st.resolved_by,
    {
        if !self.ctx.anyone_admitted() {
            return true;
        }
        let (over, since) = clock::wait_over(
            self.st.ended_at,
            now,
            self.ctx.config.post_game_linger,
        );
        self.st.ended_at = Some(since);
        over
    }

    fn on_input(self, input: Input, issued: Option<Guid>) -> (r: AnyServer)
        requires
            self.ctx.wf(),
        ensures
            r@ == AnyView::post_handled(
                self.ctx@,
                self.st.settings@,
                self.st.resolved_by,
                self.st.ended_at,
                input@,
                utils::seen(issued),
            ),
            r@.wf(),
    {
        let mut ctx = self.ctx;
        let st = self.st;
        match input {
            Input::Received { peer, msg } => ctx.on_match_message(
                Phase::PostGame,
                &st.settings,
                peer,
                msg,
                issued,
            ),
            Input::StateDumped { id, state } => ctx.on_state_dumped(
                Some(&st.settings),
                id,
                state,
            ),
            Input::Tick { now, stats } => {
                ctx.on_tick(Phase::PostGame, now, &stats);
                let mut server = Server { ctx, st };
                if server.close_due(now) {
                    server.ctx.push_effect(Effect::GameOver);
                }
                return AnyServer::PostGame(server);
            },
            other => ctx.on_common_input(Phase::PostGame, Some(&st.settings), other, issued),
        }
        AnyServer::PostGame(Server { ctx, st })
    }
}

/// Whether an input is a client's request for an identity.
pub open spec fn asks_identity(input: InputView) -> bool {
    input matches InputView::Received { msg: WireMessageView::SynAck(_), .. }
}

impl AnyServer {
    pub open spec fn wf(self) -> bool {
        self@.wf()
    }

    pub fn context(&self) -> (r: &Context)
        ensures
            r@ == self@.ctx(),
    {
        match self {
            AnyServer::Idle(s) => &s.ctx,
            AnyServer::Setup(s) => &s.ctx,
            AnyServer::AwaitSavegame(s) => &s.ctx,
            AnyServer::AwaitAiHost(s) => &s.ctx,
            AnyServer::Loading(s) => &s.ctx,
            AnyServer::InGame(s) => &s.ctx,
            AnyServer::PostGame(s) => &s.ctx,
        }
    }

    /// Read once the game is done with the server, however it got there.
    pub fn outcome_request(&self) -> (r: Option<DumpRequest>)
        ensures
            utils::seen(r) == self@.outcome_record(),
    {
        match self {
            AnyServer::InGame(s) => s.ctx.outcome_request(&s.st.settings),
            AnyServer::PostGame(s) => if s.st.resolved_by.is_none() {
                s.ctx.outcome_request(&s.st.settings)
            } else {
                None
            },
            _ => None,
        }
    }

    /// What becomes of the server by an input, given the identity to issue
    /// should it be one that asks for it.
    pub fn handle_with(self, input: Input, issued: Option<Guid>) -> (r: AnyServer)
        requires
            self.wf(),
        ensures
            r@ == self@.handled(input@, utils::seen(issued)),
            r.wf(),
    {
        match self {
            AnyServer::Idle(s) => s.on_input(input),
            AnyServer::Setup(s) => s.on_input(input, issued),
            AnyServer::AwaitSavegame(s) => s.on_input(input, issued),
            AnyServer::AwaitAiHost(s) => s.on_input(input, issued),
            AnyServer::Loading(s) => s.on_input(input, issued),
            AnyServer::InGame(s) => s.on_input(input, issued),
            AnyServer::PostGame(s) => s.on_input(input, issued),
        }
    }

    /// What becomes of the server by an input. A client that asks for an
    /// identity is issued the first free one of those drawn for it.
    pub fn handle(self, input: Input) -> (r: AnyServer)
        requires
            self.wf(),
        ensures
            asks_identity(input@) ==> exists|drawn: Seq<Seq<char>>|
                admission::was_drawn(drawn) && r@ == self@.handled(
                    input@,
                    #[trigger] self@.ctx().first_free(drawn),
                ),
            !asks_identity(input@) ==> r@ == self@.handled(input@, None),
            r.wf(),
    {
        let ghost before = self@;
        let ghost i = input@;
        let asks = match &input {
            Input::Received { peer: _, msg: WireMessage::SynAck(_) } => true,
            _ => false,
        };
        let issued = if asks {
            self.context().issue_uuid()
        } else {
            None
        };
        let ghost u = utils::seen(issued);
        let r = self.handle_with(input, issued);
        assert(r@ == before.handled(i, u));
        r
    }

    pub fn take_effects(&mut self) -> (r: Vec<Effect>)
        ensures
            items::views(r@) == old(self)@.ctx().effects,
            final(self)@ == old(self)@.with_effects(Seq::empty()),
            old(self).wf() ==> final(self).wf(),
    {
        match self {
            AnyServer::Idle(s) => s.take_effects(),
            AnyServer::Setup(s) => s.take_effects(),
            AnyServer::AwaitSavegame(s) => s.take_effects(),
            AnyServer::AwaitAiHost(s) => s.take_effects(),
            AnyServer::Loading(s) => s.take_effects(),
            AnyServer::InGame(s) => s.take_effects(),
            AnyServer::PostGame(s) => s.take_effects(),
        }
    }

    pub fn shutdown(self) -> (r: Vec<Effect>)
        ensures
            items::views(r@) == self@.ctx().shut_down(),
    {
        match self {
            AnyServer::Idle(s) => s.shutdown(),
            AnyServer::Setup(s) => s.shutdown(),
            AnyServer::AwaitSavegame(s) => s.shutdown(),
            AnyServer::AwaitAiHost(s) => s.shutdown(),
            AnyServer::Loading(s) => s.shutdown(),
            AnyServer::InGame(s) => s.shutdown(),
            AnyServer::PostGame(s) => s.shutdown(),
        }
    }
}

} // verus!
