//! Setting a match up, and starting it.

use vstd::prelude::*;

use crate::json;
use crate::lobby::link;
use crate::lobby::link::LobbyMap;
use crate::lobby::link::LobbyMapView;
use crate::network_message::PeerID;
use crate::relay::messages::game_settings::GameSettingsView;
use crate::relay::messages::items;
use crate::relay::messages::map_player_id_to_slot::MapPlayerIdToSlotView;
use crate::relay::messages::players_loading::PlayersLoadingView;
use crate::relay::messages::pre_game_status::PreGameStatusView;
use crate::relay::messages::start_settings::StartSettingsView;
use crate::relay::messages::GameSettings;
use crate::relay::messages::Guid;
use crate::relay::messages::LoadedGame;
use crate::relay::messages::MapPlayerIdToSlot;
use crate::relay::messages::PlayersLoading;
use crate::relay::messages::PreGameStatus;
use crate::relay::messages::StartSettings;
use crate::relay::messages::WireMessage;
use crate::relay::messages::WireMessageView;
use crate::relay::script_value;
use crate::relay::server_fsm::context::AiHost;
use crate::relay::server_fsm::context::AiHostView;
use crate::relay::server_fsm::context::Audience;
use crate::relay::server_fsm::context::Context;
use crate::relay::server_fsm::context::Ctx;
use crate::relay::server_fsm::event::Effect;
use crate::relay::server_fsm::event::EffectView;
use crate::relay::server_fsm::event::Phase;
use crate::relay::server_fsm::reason::DisconnectReason;
use crate::relay::server_fsm::settings;
use crate::relay::server_fsm::settings::Frozen;
use crate::relay::server_fsm::settings::FrozenSettings;
use crate::relay::session::Role;
use crate::relay::session::SessionView;
use crate::relay::slots;
use crate::relay::turn::INITIAL_READY_TURN;
use crate::table;
use crate::utils;

verus! {

/// Turn 0 is never simulated, so a fresh client owes its first state hash for
/// turn 1 and its simulated-turn counter starts one below that.
pub const FIRST_SIMULATED_TURN: u32 = 0;

pub const NO_SAVED_GAMES: &'static str = "Loading a saved game is not supported on this server.";

/// What the map's settings say for the listing; what does not decode keeps
/// what was last decoded, and so does a map not selected yet.
pub open spec fn relisted(data: Seq<u8>, listed: Option<LobbyMapView>) -> Option<LobbyMapView> {
    match script_value::decoded(data) {
        Ok(root) => match link::map_in(root) {
            Some(map) => if listed == Some(map) {
                None
            } else {
                Some(map)
            },
            None => None,
        },
        Err(_) => None,
    }
}

/// Whether a message is one that only setup takes.
pub open spec fn is_setup_message(msg: WireMessageView) -> bool {
    match msg {
        WireMessageView::PreGameStatus(_) => true,
        WireMessageView::ResetPregameStatus => true,
        WireMessageView::GameSettings(_) => true,
        WireMessageView::MapPlayerIdToSlot(_) => true,
        _ => false,
    }
}

/// The peers that have not been admitted.
pub open spec fn unauthenticated(sessions: Seq<(PeerID, SessionView)>) -> Seq<PeerID> {
    sessions.filter(|row: (PeerID, SessionView)| row.1.admitted is None).map_values(
        |row: (PeerID, SessionView)| row.0,
    )
}

/// Who is still on the loading screen.
pub open spec fn loading(sessions: Seq<(PeerID, SessionView)>) -> Seq<Seq<char>>
    decreases sessions.len(),
{
    if sessions.len() == 0 {
        Seq::empty()
    } else {
        let before = loading(sessions.drop_last());
        match sessions.last().1.uuid {
            Some(uuid) if sessions.last().1.is_setup() => before.push(uuid),
            _ => before,
        }
    }
}

/// Whether anyone is in the match.
pub open spec fn someone_in_game(sessions: Seq<(PeerID, SessionView)>) -> bool {
    exists|i: int| 0 <= i < sessions.len() && (#[trigger] sessions[i]).1.is_in_game()
}

/// A held start: what every stock client is sent, and the AI host's own copy.
pub struct HeldStart {
    pub settings: Frozen,
    pub start: Seq<u8>,
    pub ai_host_start: Seq<u8>,
}

/// What becomes of a start.
pub enum StartView {
    Ignored,
    Started(Frozen),
    Held(HeldStart),
}

impl Ctx {
    /// A client is ready, or no longer. The status travels in the relayed
    /// message, so no slot list goes out.
    #[verifier::opaque]
    pub open spec fn readied(self, peer: PeerID, m: PreGameStatusView) -> Ctx {
        match self.speaker(peer, Audience::Setup) {
            Err(fault) => self.faulted(peer, fault),
            Ok(uuid) => {
                let told = self.broadcast(
                    WireMessageView::PreGameStatus(
                        PreGameStatusView { guid: uuid, status: m.status },
                    ),
                    Audience::Setup,
                );
                Ctx { slots: slots::with_status(told.slots, uuid, m.status), ..told }
            },
        }
    }

    #[verifier::opaque]
    pub open spec fn unreadied(self, phase: Phase, peer: PeerID) -> Ctx {
        match self.controlled_by(peer) {
            Err(fault) => self.faulted(peer, fault),
            Ok(_) => Ctx { slots: slots::with_reset(self.slots), ..self }.slots_told_in(phase),
        }
    }

    /// The settings are decoded only for the listing; they are relayed as they
    /// are and never validated.
    #[verifier::opaque]
    pub open spec fn reconfigured(self, peer: PeerID, m: GameSettingsView) -> Ctx {
        match self.controlled_by(peer) {
            Err(fault) => self.faulted(peer, fault),
            Ok(_) => {
                let listed = match relisted(m.data, self.lobby_map) {
                    Some(map) => Ctx { lobby_map: Some(map), ..self }.listed(),
                    None => self,
                };
                listed.broadcast(WireMessageView::GameSettings(m), Audience::Setup)
            },
        }
    }

    /// The controller's setup screen gives every joiner a free slot, AI slots
    /// included, but a slot would make the AI host a player.
    #[verifier::opaque]
    pub open spec fn assigned(self, phase: Phase, peer: PeerID, m: MapPlayerIdToSlotView) -> Ctx {
        match self.controlled_by(peer) {
            Err(fault) => self.faulted(peer, fault),
            Ok(_) => if self.is_ai_host_uuid(m.guid) {
                self
            } else {
                Ctx {
                    slots: slots::with_player(self.slots, m.player_id, m.guid),
                    ..self
                }.slots_told_in(phase)
            },
        }
    }

    pub open spec fn setup_message(self, phase: Phase, peer: PeerID, msg: WireMessageView) -> Ctx {
        match msg {
            WireMessageView::PreGameStatus(m) => self.readied(peer, m),
            WireMessageView::ResetPregameStatus => self.unreadied(phase, peer),
            WireMessageView::GameSettings(m) => self.reconfigured(peer, m),
            WireMessageView::MapPlayerIdToSlot(m) => self.assigned(phase, peer, m),
            _ => self,
        }
    }

    pub open spec fn frozen_from(self, json: Seq<u8>) -> Frozen {
        let (player_ids, endless) = settings::players_in(json::json_read(json));
        Frozen {
            json,
            cheats_enabled: settings::allows_cheats(json),
            turn_length_ms: self.config.turn_length_ms,
            player_ids,
            endless,
        }
    }

    pub open spec fn all_dropped_in(
        self,
        phase: Phase,
        peers: Seq<PeerID>,
        reason: DisconnectReason,
    ) -> Ctx
        decreases peers.len(),
    {
        if peers.len() == 0 {
            self
        } else {
            self.all_dropped_in(phase, peers.drop_last(), reason).dropped_in(
                phase,
                peers.last(),
                reason,
            )
        }
    }

    /// The start goes to everyone in setup; the AI host has its own copy.
    #[verifier::opaque]
    pub open spec fn start_told(self, start: Seq<u8>, ai_host_start: Option<Seq<u8>>) -> Ctx {
        let msg = WireMessageView::StartSettings(StartSettingsView { init_attributes: start });
        match (self.ai_peer(), ai_host_start) {
            (Some(ai_peer), Some(own)) => self.broadcast_except(
                ai_peer,
                msg,
                Audience::Setup,
            ).sent(
                ai_peer,
                WireMessageView::StartSettings(StartSettingsView { init_attributes: own }),
            ),
            _ => self.broadcast(msg, Audience::Setup),
        }
    }

    /// One session that was in setup counts for turn release, and owes a seal
    /// for the first turn past those every match begins with and a hash for
    /// turn 1.
    pub open spec fn registered(self, row: (PeerID, SessionView)) -> Ctx {
        match (row.1.client_id(), row.1.uuid) {
            (Some(client_id), Some(uuid)) if row.1.is_setup() => Ctx {
                turns: self.turns.registered(
                    row.0,
                    client_id,
                    INITIAL_READY_TURN,
                    FIRST_SIMULATED_TURN,
                    self.is_observer(uuid),
                    self.is_delayed_observer(uuid),
                ),
                ..self
            },
            _ => self,
        }
    }

    #[verifier::opaque]
    pub open spec fn all_registered(self, rows: Seq<(PeerID, SessionView)>) -> Ctx
        decreases rows.len(),
    {
        if rows.len() == 0 {
            self
        } else {
            self.all_registered(rows.drop_last()).registered(rows.last())
        }
    }

    #[verifier::opaque]
    pub open spec fn with_ai_marked(self) -> Ctx {
        match self.ai_peer() {
            Some(peer) => Ctx { turns: self.turns.with_ai_host(peer), ..self },
            None => self,
        }
    }

    /// The match begins: whoever has not been admitted is turned away, then
    /// everyone sees the slots, then the start, in this order.
    #[verifier::opaque]
    pub open spec fn match_begun(
        self,
        phase: Phase,
        start: Seq<u8>,
        ai_host_start: Option<Seq<u8>>,
    ) -> Ctx {
        let told = self.all_dropped_in(
            phase,
            unauthenticated(self.sessions),
            DisconnectReason::ServerLoading,
        ).slots_told_in(phase).start_told(start, ai_host_start);
        told.all_registered(told.sessions).with_ai_marked()
    }

    /// The last listing update the match ever gets.
    pub open spec fn start_listed(self) -> Ctx {
        let (nbp, players) = self.lobby_counts();
        self.doing(EffectView::LobbyStarted { nbp, players })
    }

    /// What becomes of a start. One that not every player is ready for is
    /// rejected outright: relayed anyway, it would strand every client on the
    /// loading screen. With AI slots to host, it goes out only once the AI
    /// host is in, so that it loads with everyone else.
    pub open spec fn start_outcome(self, peer: PeerID, start: Seq<u8>) -> StartView {
        if self.controlled_by(peer) is Err || !slots::everyone_ready(self.slots) {
            StartView::Ignored
        } else if self.config.hosted_ai && settings::split_text(start) is Some {
            let split = settings::split_text(start)->0;
            StartView::Held(
                HeldStart {
                    settings: self.frozen_from(split.stock),
                    start: split.stock,
                    ai_host_start: split.ai_host,
                },
            )
        } else {
            StartView::Started(self.frozen_from(start))
        }
    }

    pub open spec fn start_asked(self, phase: Phase, peer: PeerID, start: Seq<u8>) -> Ctx {
        match self.start_outcome(peer, start) {
            StartView::Ignored => self,
            StartView::Started(_) => self.match_begun(phase, start, None),
            StartView::Held(_) => Ctx {
                ai_host: Some(
                    AiHostView {
                        peer: None,
                        players: (settings::split_text(start)->0).players,
                    },
                ),
                ..self
            }.doing(EffectView::SpawnAiHost { name: self.ai_host_name }),
        }
    }

    /// Everyone who is still loading is told to those who are not; once nobody
    /// is, the match is on. Everyone leaving is not everyone loading.
    pub open spec fn everyone_loaded(self) -> bool {
        loading(self.sessions).len() == 0 && someone_in_game(self.sessions)
    }

    #[verifier::opaque]
    pub open spec fn loading_told(self, announce: bool) -> Ctx {
        let waiting = loading(self.sessions);
        if waiting.len() > 0 {
            if announce {
                self.broadcast(
                    WireMessageView::PlayersLoading(PlayersLoadingView { clients: waiting }),
                    Audience::InGame,
                )
            } else {
                self
            }
        } else if someone_in_game(self.sessions) {
            self.broadcast(
                WireMessageView::LoadedGame(LoadedGame { current_turn: 0 }),
                Audience::InGame,
            )
        } else {
            self
        }
    }

    /// Whether a peer is on the loading screen.
    pub open spec fn is_loading(self, peer: PeerID) -> bool {
        match table::lookup(self.sessions, peer) {
            Some(s) => s.is_setup(),
            None => false,
        }
    }

    pub open spec fn with_role(self, peer: PeerID, role: Role) -> Ctx {
        match table::lookup(self.sessions, peer) {
            Some(s) => Ctx {
                sessions: table::with_row(self.sessions, peer, s.with_role(role)),
                ..self
            },
            None => self,
        }
    }
}

/// What becomes of a start.
#[derive(Debug)]
pub enum StartOutcome {
    Ignored,
    Started(FrozenSettings),
    Held { settings: FrozenSettings, start: StartSettings, ai_host_start: StartSettings },
}

impl View for StartOutcome {
    type V = StartView;

    open spec fn view(&self) -> StartView {
        match *self {
            StartOutcome::Ignored => StartView::Ignored,
            StartOutcome::Started(settings) => StartView::Started(settings@),
            StartOutcome::Held { settings, start, ai_host_start } => StartView::Held(
                HeldStart {
                    settings: settings@,
                    start: start.init_attributes@,
                    ai_host_start: ai_host_start.init_attributes@,
                },
            ),
        }
    }
}

impl Context {
    fn on_pre_game_status(&mut self, peer: PeerID, msg: &PreGameStatus)
        requires
            old(self).wf(),
        ensures
            final(self)@ == old(self)@.readied(peer, msg@),
            final(self).wf(),
    {
        proof {
            reveal(Ctx::readied);
        }
        let uuid = match self.speaker(peer, Audience::Setup) {
            Ok(uuid) => uuid,
            Err(fault) => {
                self.fault(peer, fault);
                return ;
            },
        };
        let relayed = WireMessage::PreGameStatus(
            PreGameStatus { guid: uuid.clone(), status: msg.status },
        );
        self.broadcast(&relayed, Audience::Setup);
        self.slots.set_status(&uuid, msg.status);
    }

    fn on_reset_pregame_status(&mut self, phase: Phase, peer: PeerID)
        requires
            old(self).wf(),
        ensures
            final(self)@ == old(self)@.unreadied(phase, peer),
            final(self).wf(),
    {
        proof {
            reveal(Ctx::unreadied);
        }
        if let Err(fault) = self.require_controller(peer) {
            self.fault(peer, fault);
            return ;
        }
        self.slots.reset_pregame();
        self.tell_slots(phase);
    }

    /// The map to list, where the settings change it.
    fn relist(&self, data: &Vec<u8>) -> (r: Option<LobbyMap>)
        ensures
            utils::seen(r) == relisted(data@, self@.lobby_map),
    {
        let root = match script_value::decode(data.as_slice()) {
            Ok(root) => root,
            Err(_) => return None,
        };
        let map = match LobbyMap::from_settings(&root) {
            Some(map) => map,
            None => return None,
        };
        let same = match &self.lobby_map {
            Some(listed) => listed.same(&map),
            None => false,
        };
        if same {
            None
        } else {
            Some(map)
        }
    }

    fn on_game_settings(&mut self, peer: PeerID, msg: GameSettings)
        requires
            old(self).wf(),
        ensures
            final(self)@ == old(self)@.reconfigured(peer, msg@),
            final(self).wf(),
    {
        proof {
            reveal(Ctx::reconfigured);
        }
        if let Err(fault) = self.require_controller(peer) {
            self.fault(peer, fault);
            return ;
        }
        if let Some(map) = self.relist(&msg.data) {
            self.lobby_map = Some(map);
            self.push_lobby_listing();
        }
        let relayed = WireMessage::GameSettings(msg);
        self.broadcast(&relayed, Audience::Setup);
    }

    fn on_map_player_id_to_slot(&mut self, phase: Phase, peer: PeerID, msg: &MapPlayerIdToSlot)
        requires
            old(self).wf(),
        ensures
            final(self)@ == old(self)@.assigned(phase, peer, msg@),
            final(self).wf(),
    {
        proof {
            reveal(Ctx::assigned);
        }
        if let Err(fault) = self.require_controller(peer) {
            self.fault(peer, fault);
            return ;
        }
        if self.is_ai_host_uuid(&msg.guid) {
            return ;
        }
        self.slots.assign(msg.player_id, &msg.guid);
        self.tell_slots(phase);
    }

    /// Hands back what it did not take, so each phase like setup can add its
    /// own.
    pub fn on_setup_message(&mut self, phase: Phase, peer: PeerID, msg: WireMessage) -> (r: Option<
        WireMessage,
    >)
        requires
            old(self).wf(),
        ensures
            match r {
                Some(rest) => !is_setup_message(msg@) && rest@ == msg@ && final(self)@ == old(
                    self,
                )@,
                None => is_setup_message(msg@) && final(self)@ == old(self)@.setup_message(
                    phase,
                    peer,
                    msg@,
                ),
            },
            final(self).wf(),
    {
        match msg {
            WireMessage::PreGameStatus(m) => self.on_pre_game_status(peer, &m),
            WireMessage::ResetPregameStatus => self.on_reset_pregame_status(phase, peer),
            WireMessage::GameSettings(m) => self.on_game_settings(peer, m),
            WireMessage::MapPlayerIdToSlot(m) => self.on_map_player_id_to_slot(phase, peer, &m),
            other => return Some(other),
        }
        None
    }

    pub fn freeze(&self, json: &Vec<u8>) -> (r: FrozenSettings)
        ensures
            r@ == self@.frozen_from(json@),
    {
        let (player_ids, endless) = settings::match_players(json.as_slice());
        FrozenSettings {
            cheats_enabled: settings::cheats_enabled(json.as_slice()),
            json: vstd::slice::slice_to_vec(json.as_slice()),
            turn_length_ms: self.config.turn_length_ms,
            player_ids,
            endless,
        }
    }

    fn peers_unauthenticated(&self) -> (r: Vec<PeerID>)
        ensures
            r@ == unauthenticated(self@.sessions),
    {
        let ghost all = self.sessions@;
        let ghost stale = |row: (PeerID, SessionView)| row.1.admitted is None;
        let ghost peer = |row: (PeerID, SessionView)| row.0;
        let mut out: Vec<PeerID> = Vec::new();
        let mut i: usize = 0;
        proof {
            utils::lemma_filter_ends(all, stale);
            assert(out@ =~= all.take(0).filter(stale).map_values(peer));
        }
        while i < self.sessions.rows.len()
            invariant
                all == self.sessions@,
                stale == (|row: (PeerID, SessionView)| row.1.admitted is None),
                peer == (|row: (PeerID, SessionView)| row.0),
                i <= self.sessions.rows@.len(),
                out@ == all.take(i as int).filter(stale).map_values(peer),
            decreases self.sessions.rows@.len() - i,
        {
            let ghost before = all.take(i as int).filter(stale);
            proof {
                utils::lemma_filter_step(all, i as int, stale);
                assert(all[i as int] == table::row_view(self.sessions.rows@[i as int]));
                assert(before.push(all[i as int]).map_values(peer) =~= before.map_values(
                    peer,
                ).push(peer(all[i as int])));
            }
            if self.sessions.rows[i].1.is_unauthenticated() {
                out.push(self.sessions.rows[i].0);
            }
            i += 1;
        }
        out
    }

    fn drop_all(&mut self, phase: Phase, peers: &Vec<PeerID>, reason: DisconnectReason)
        requires
            old(self).wf(),
        ensures
            final(self)@ == old(self)@.all_dropped_in(phase, peers@, reason),
            final(self).wf(),
    {
        let ghost c = self@;
        let mut i: usize = 0;
        assert(peers@.take(0) =~= Seq::empty());
        while i < peers.len()
            invariant
                c == old(self)@,
                self.wf(),
                i <= peers@.len(),
                self@ == c.all_dropped_in(phase, peers@.take(i as int), reason),
            decreases peers@.len() - i,
        {
            proof {
                assert(peers@.take(i + 1).drop_last() =~= peers@.take(i as int));
                assert(peers@.take(i + 1).last() == peers@[i as int]);
            }
            self.drop_peer(phase, peers[i], reason);
            i += 1;
        }
        assert(peers@.take(i as int) =~= peers@);
    }

    fn tell_start(&mut self, start: StartSettings, ai_host_start: Option<StartSettings>)
        requires
            old(self).wf(),
        ensures
            final(self)@ == old(self)@.start_told(
                start.init_attributes@,
                match ai_host_start {
                    Some(s) => Some(s.init_attributes@),
                    None => None,
                },
            ),
            final(self).wf(),
    {
        proof {
            reveal(Ctx::start_told);
        }
        let relayed = WireMessage::StartSettings(start);
        match (self.ai_peer(), ai_host_start) {
            (Some(ai_peer), Some(own)) => {
                self.broadcast_except(ai_peer, &relayed, Audience::Setup);
                self.send(ai_peer, WireMessage::StartSettings(own));
            },
            _ => self.broadcast(&relayed, Audience::Setup),
        }
    }

    fn register_all(&mut self)
        requires
            old(self).wf(),
        ensures
            final(self)@ == old(self)@.all_registered(old(self)@.sessions),
            final(self).wf(),
    {
        let ghost c = self@;
        let ghost all = self@.sessions;
        let mut i: usize = 0;
        proof {
            reveal(Ctx::all_registered);
            assert(all.take(0) =~= Seq::empty());
        }
        while i < self.sessions.rows.len()
            invariant
                c == old(self)@,
                all == c.sessions,
                self.wf(),
                self@ == (Ctx { turns: self@.turns, ..c }),
                i <= self.sessions.rows@.len() == all.len(),
                self@ == c.all_registered(all.take(i as int)),
            decreases self.sessions.rows@.len() - i,
        {
            proof {
                reveal(Ctx::all_registered);
                assert(all[i as int] == table::row_view(self.sessions.rows@[i as int]));
                assert(all.take(i + 1).drop_last() =~= all.take(i as int));
                assert(all.take(i + 1).last() == all[i as int]);
            }
            let peer = self.sessions.rows[i].0;
            let s = &self.sessions.rows[i].1;
            if s.is_setup() {
                if let Some(client_id) = s.client_id() {
                    if let Some(uuid) = &s.uuid {
                        let observer = self.is_observer(uuid);
                        let delayed = self.is_delayed_observer(uuid);
                        self.turns.register(
                            peer,
                            client_id,
                            INITIAL_READY_TURN,
                            FIRST_SIMULATED_TURN,
                            observer,
                            delayed,
                        );
                    }
                }
            }
            i += 1;
        }
        assert(all.take(i as int) =~= all);
    }

    fn mark_ai_host(&mut self)
        requires
            old(self).wf(),
        ensures
            final(self)@ == old(self)@.with_ai_marked(),
            final(self).wf(),
    {
        proof {
            reveal(Ctx::with_ai_marked);
        }
        if let Some(peer) = self.ai_peer() {
            self.turns.mark_ai_host(peer);
        }
    }

    /// Sends the start and registers every session in setup for turn release.
    pub fn begin_match(
        &mut self,
        phase: Phase,
        start: StartSettings,
        ai_host_start: Option<StartSettings>,
    )
        requires
            old(self).wf(),
        ensures
            final(self)@ == old(self)@.match_begun(
                phase,
                start.init_attributes@,
                match ai_host_start {
                    Some(s) => Some(s.init_attributes@),
                    None => None,
                },
            ),
            final(self).wf(),
    {
        proof {
            reveal(Ctx::match_begun);
        }
        let stale = self.peers_unauthenticated();
        self.drop_all(phase, &stale, DisconnectReason::ServerLoading);
        self.tell_slots(phase);
        self.tell_start(start, ai_host_start);
        self.register_all();
        self.mark_ai_host();
    }

    pub fn list_start(&mut self)
        requires
            old(self).wf(),
        ensures
            final(self)@ == old(self)@.start_listed(),
            final(self).wf(),
    {
        let (nbp, players) = self.lobby_counts();
        self.push_effect(Effect::LobbyStarted { nbp, players });
    }

    pub fn on_start_settings(&mut self, phase: Phase, peer: PeerID, msg: StartSettings) -> (r:
        StartOutcome)
        requires
            old(self).wf(),
        ensures
            r@ == old(self)@.start_outcome(peer, msg.init_attributes@),
            final(self)@ == old(self)@.start_asked(phase, peer, msg.init_attributes@),
            final(self).wf(),
    {
        if self.require_controller(peer).is_err() {
            return StartOutcome::Ignored;
        }
        if !self.slots.all_ready() {
            return StartOutcome::Ignored;
        }
        let split = if self.config.hosted_ai {
            settings::split_ai_settings(msg.init_attributes.as_slice())
        } else {
            None
        };
        let split = match split {
            Some(split) => split,
            None => {
                let settings = self.freeze(&msg.init_attributes);
                self.begin_match(phase, msg, None);
                return StartOutcome::Started(settings);
            },
        };
        let settings = self.freeze(&split.stock);
        self.ai_host = Some(AiHost { peer: None, players: split.players });
        let name = utils::copy_text(self.ai_host_name.as_str());
        self.push_effect(Effect::SpawnAiHost { name });
        StartOutcome::Held {
            settings,
            start: StartSettings { init_attributes: split.stock },
            ai_host_start: StartSettings { init_attributes: split.ai_host },
        }
    }

    fn still_loading(&self) -> (r: Vec<Guid>)
        ensures
            items::views(r@) == loading(self@.sessions),
    {
        let ghost all = self.sessions@;
        let mut out: Vec<Guid> = Vec::new();
        let mut i: usize = 0;
        proof {
            assert(all.take(0) =~= Seq::empty());
            assert(items::views(out@) =~= Seq::empty());
        }
        while i < self.sessions.rows.len()
            invariant
                all == self.sessions@,
                i <= self.sessions.rows@.len(),
                items::views(out@) == loading(all.take(i as int)),
            decreases self.sessions.rows@.len() - i,
        {
            let ghost so_far = items::views(out@);
            proof {
                assert(all[i as int] == table::row_view(self.sessions.rows@[i as int]));
                assert(all.take(i + 1).drop_last() =~= all.take(i as int));
                assert(all.take(i + 1).last() == all[i as int]);
            }
            let s = &self.sessions.rows[i].1;
            if s.is_setup() {
                if let Some(uuid) = &s.uuid {
                    let uuid = uuid.clone();
                    let ghost v = uuid@;
                    out.push(uuid);
                    assert(items::views(out@) =~= so_far.push(v));
                }
            }
            i += 1;
        }
        assert(all.take(i as int) =~= all);
        out
    }

    fn someone_in_game(&self) -> (r: bool)
        ensures
            r == someone_in_game(self@.sessions),
    {
        let mut i: usize = 0;
        while i < self.sessions.rows.len()
            invariant
                i <= self.sessions.rows@.len(),
                forall|j: int| 0 <= j < i ==> !(#[trigger] self@.sessions[j]).1.is_in_game(),
            decreases self.sessions.rows@.len() - i,
        {
            assert(self@.sessions[i as int] == table::row_view(self.sessions.rows@[i as int]));
            if self.sessions.rows[i].1.is_in_game() {
                return true;
            }
            i += 1;
        }
        false
    }

    /// True once everyone is in. All sessions must load, observers included; a
    /// session still in setup is one still on the loading screen.
    pub fn finish_if_everyone_loaded(&mut self, announce_progress: bool) -> (r: bool)
        requires
            old(self).wf(),
        ensures
            r == old(self)@.everyone_loaded(),
            final(self)@ == old(self)@.loading_told(announce_progress),
            final(self).wf(),
    {
        proof {
            reveal(Ctx::loading_told);
        }
        let waiting = self.still_loading();
        if waiting.len() > 0 {
            if announce_progress {
                let msg = WireMessage::PlayersLoading(PlayersLoading { clients: waiting });
                // The sender has just come in, so this reaches it too.
                self.broadcast(&msg, Audience::InGame);
            }
            return false;
        }
        if !self.someone_in_game() {
            return false;
        }
        let msg = WireMessage::LoadedGame(LoadedGame { current_turn: 0 });
        self.broadcast(&msg, Audience::InGame);
        true
    }

    pub fn is_loading(&self, peer: PeerID) -> (r: bool)
        ensures
            r == self@.is_loading(peer),
    {
        match self.sessions.get(&peer) {
            Some(s) => s.is_setup(),
            None => false,
        }
    }

    pub fn set_role(&mut self, peer: PeerID, role: Role)
        requires
            old(self).wf(),
        ensures
            final(self)@ == old(self)@.with_role(peer, role),
            final(self).wf(),
    {
        let ghost before = self@.sessions;
        if let Some(at) = self.sessions.position(&peer) {
            assert(before[at as int] == table::row_view(self.sessions.rows@[at as int]));
            let row = &mut self.sessions.rows[at];
            row.1.set_role(role);
            proof {
                let s = table::lookup(before, peer)->0;
                assert(self.sessions@ =~= before.update(
                    at as int,
                    (peer, s.with_role(role)),
                ));
            }
        }
    }
}

} // verus!
