//! A running match.

use std::sync::Arc;

use vstd::prelude::*;

use crate::network_message::PeerID;
use crate::relay::fault::PeerFault;
use crate::relay::messages::flare::FlareView;
use crate::relay::messages::items;
use crate::relay::messages::joined::JoinedView;
use crate::relay::messages::player_command;
use crate::relay::messages::player_command::PlayerCommandView;
use crate::relay::messages::player_pause::PlayerPauseView;
use crate::relay::messages::state_hash::StateHashView;
use crate::relay::messages::Flare;
use crate::relay::messages::Guid;
use crate::relay::messages::Joined;
use crate::relay::messages::LoadedGame;
use crate::relay::messages::PlayerCommand;
use crate::relay::messages::PlayerPause;
use crate::relay::messages::StateHash;
use crate::relay::messages::TurnSealed;
use crate::relay::messages::WireMessage;
use crate::relay::messages::WireMessageView;
use crate::relay::server_fsm::context;
use crate::relay::server_fsm::context::Audience;
use crate::relay::server_fsm::context::Chain;
use crate::relay::server_fsm::context::Context;
use crate::relay::server_fsm::context::Ctx;
use crate::relay::server_fsm::context::PendingCheckpoint;
use crate::relay::server_fsm::context::CHECKPOINT_FAILURE_LIMIT;
use crate::relay::server_fsm::event::Effect;
use crate::relay::server_fsm::event::EffectView;
use crate::relay::server_fsm::event::Phase;
use crate::relay::server_fsm::settings;
use crate::relay::server_fsm::settings::Frozen;
use crate::relay::server_fsm::settings::FrozenSettings;
use crate::relay::server_fsm::snapshot;
use crate::relay::server_fsm::stream;
use crate::relay::server_fsm::timing;
use crate::relay::session::Role;
use crate::relay::slots;
use crate::relay::slots::UNASSIGNED;
use crate::relay::turn;
use crate::relay::turn::COMMAND_DELAY;
use crate::relay::turn::INITIAL_READY_TURN;
use crate::sidecar;
use crate::sidecar::BaseState;
use crate::sidecar::BaseStateView;
use crate::sidecar::DumpRequest;
use crate::sidecar::DumpRequestView;
use crate::sidecar::TurnHash;
use crate::sidecar::TurnHashView;
use crate::table;
use crate::utils;

verus! {

pub const ONLY_PLAYERS_PAUSE: &'static str = "Only players can pause the game.";

pub const OUT_OF_BUDGET: &'static str = "You are out of pause budget.";

pub const MATCH_OVER: &'static str = "The match is over. This server closes in ";

pub const OR_ONCE_LEFT: &'static str = ", or once everyone has left.";

/// Messages to one peer.
pub open spec fn sends_to(peer: PeerID, msgs: Seq<WireMessageView>) -> Seq<EffectView> {
    msgs.map_values(|msg: WireMessageView| EffectView::Send { peer, msg })
}

/// That these players hold the match.
pub open spec fn pause_messages(uuids: Seq<Seq<char>>) -> Seq<WireMessageView> {
    uuids.map_values(
        |guid: Seq<char>|
            WireMessageView::PlayerPause(PlayerPauseView { guid, pause: true }),
    )
}

/// The agreed hashes of the turns after `after`, through `through`.
pub open spec fn hashes_between(
    references: Seq<(u32, Seq<u8>)>,
    after: u32,
    through: u32,
) -> Seq<TurnHashView>
    decreases through,
{
    if through <= after {
        Seq::empty()
    } else {
        let before = hashes_between(references, after, (through - 1) as u32);
        match table::lookup(references, through) {
            Some(hash) => before.push(TurnHashView { turn: through, hash }),
            None => before,
        }
    }
}

/// The newest state at or before the head, and those after it.
pub open spec fn still_wanted(states: Seq<BaseStateView>, head: u32) -> Seq<BaseStateView>
    decreases states.len(),
{
    if states.len() == 0 {
        states
    } else if states.last().turn <= head {
        seq![states.last()]
    } else {
        let before = still_wanted(states.drop_last(), head);
        before.push(states.last())
    }
}

/// Whether every player has either won or been defeated. Gaia comes first and
/// is never decided, so it is passed over.
pub open spec fn all_decided(players: Seq<Seq<char>>) -> bool {
    &&& players.len() > 1
    &&& forall|i: int|
        1 <= i < players.len() ==> #[trigger] players[i] == "won"@ || players[i] == "defeated"@
}

/// Whether a command gives the match up.
pub open spec fn is_resign(data: Seq<u8>) -> bool {
    player_command::command_type(data) == Some("resign"@)
}

impl Ctx {
    pub open spec fn sent_each(self, peer: PeerID, msgs: Seq<WireMessageView>) -> Ctx {
        Ctx { effects: self.effects + sends_to(peer, msgs), ..self }
    }

    /// A joiner is in. It missed every pause that happened before it arrived,
    /// the relay's own hold among them: the next tick lifts that for everyone
    /// at once.
    #[verifier::opaque]
    pub open spec fn came_in(self, peer: PeerID) -> Ctx {
        match self.speaker(peer, Audience::InGame) {
            Err(fault) => self.faulted(peer, fault),
            Ok(uuid) => {
                let told = self.broadcast(
                    WireMessageView::Joined(JoinedView { guid: uuid }),
                    Audience::InGame,
                ).sent_each(peer, pause_messages(self.pause_budget.pausing));
                if self.pause_budget.held {
                    told.sent(
                        peer,
                        WireMessageView::PlayerPause(
                            PlayerPauseView { guid: self.server_uuid, pause: true },
                        ),
                    )
                } else {
                    told
                }
            },
        }
    }

    /// A pause refused. The client pauses itself the moment it asks, so it has
    /// to be told to lift its own overlay.
    pub open spec fn pause_refused(self, peer: PeerID, uuid: Seq<char>, why: Seq<char>) -> Ctx {
        self.said(Some(peer), why).sent(
            peer,
            WireMessageView::PlayerPause(PlayerPauseView { guid: uuid, pause: false }),
        )
    }

    pub open spec fn pause_relayed(self, peer: PeerID, uuid: Seq<char>, pause: bool) -> Ctx {
        self.broadcast_except(
            peer,
            WireMessageView::PlayerPause(PlayerPauseView { guid: uuid, pause }),
            Audience::InGame,
        )
    }

    /// Whether an identity plays a player.
    pub open spec fn owns_player(self, uuid: Seq<char>) -> bool {
        match slots::slot_of(self.slots, uuid) {
            Some(slot) => slot != UNASSIGNED,
            None => false,
        }
    }

    /// A client pauses or resumes. A delayed observer's pause stops only its
    /// own feed, so it is neither relayed nor charged. An observer on the live
    /// stream owns no player, so its pause would cost it nothing and freeze
    /// everyone else's screen.
    #[verifier::opaque]
    pub open spec fn pause_asked(self, peer: PeerID, pause: bool) -> Ctx {
        match self.speaker(peer, Audience::InGame) {
            Err(fault) => self.faulted(peer, fault),
            Ok(uuid) => if self.turns.is_delayed(peer) {
                self
            } else if !pause {
                Ctx {
                    pause_budget: self.pause_budget.resumed(uuid),
                    ..self
                }.pause_relayed(peer, uuid, false)
            } else if !self.owns_player(uuid) {
                self.pause_refused(peer, uuid, ONLY_PLAYERS_PAUSE@)
            } else if self.pause_budget.remaining(uuid) <= 0 {
                self.pause_refused(peer, uuid, OUT_OF_BUDGET@)
            } else {
                let relayed = Ctx {
                    pause_budget: self.pause_budget.paused(uuid),
                    ..self
                }.pause_relayed(peer, uuid, true);
                match relayed.name_of(uuid) {
                    Some(name) => relayed.said(
                        None,
                        timing::left_line(
                            ""@,
                            name,
                            " paused. "@,
                            self.pause_budget.remaining(uuid) as int,
                        ),
                    ),
                    None => relayed,
                }
            },
        }
    }

    /// Whether a peer is the AI host and the player one of its own.
    pub open spec fn speaks_for_ai(self, peer: PeerID, player: i32) -> bool {
        &&& self.is_ai_host(peer)
        &&& self.ai_host matches Some(h) && h.players.contains(player)
    }

    /// Whether an identity's own slot is this player.
    pub open spec fn speaks_for_self(self, uuid: Seq<char>, player: i32) -> bool {
        match slots::slot_of(self.slots, uuid) {
            Some(slot) => slot as i32 == player,
            None => false,
        }
    }

    /// Whether a command is one the sender may give. Without cheats it may
    /// only command its own player; an observer owns none, so a command that
    /// claims to be for nobody must not be allowed to match it.
    pub open spec fn may_command(
        self,
        settings: Frozen,
        peer: PeerID,
        uuid: Seq<char>,
        player: i32,
    ) -> bool {
        ||| settings.cheats_enabled
        ||| self.speaks_for_ai(peer, player)
        ||| self.speaks_for_self(uuid, player) && self.owns_player(uuid)
    }

    /// A command is relayed unchanged, back to its sender too: a client
    /// executes its own commands only when the server returns them. Resigning
    /// counts only for the sender's own player, or one of the AI host's, even
    /// with cheats, so nobody can release the match from waiting on someone
    /// else.
    #[verifier::opaque]
    pub open spec fn commanded(self, settings: Frozen, peer: PeerID, m: PlayerCommandView) -> Ctx {
        match self.speaker(peer, Audience::InGame) {
            Err(fault) => self.faulted(peer, fault),
            Ok(uuid) => if !self.may_command(settings, peer, uuid, m.player) {
                self
            } else {
                let own = self.speaks_for_self(uuid, m.player) || self.speaks_for_ai(
                    peer,
                    m.player,
                );
                let noted = if own && is_resign(m.data) {
                    Ctx {
                        resigned: utils::with_member(self.resigned, m.player),
                        checkpoints: self.checkpoints.probed(m.turn),
                        ..self
                    }
                } else {
                    self
                };
                let told = noted.told_live(WireMessageView::PlayerCommand(m));
                Ctx { log: told.log.with_command(m), ..told }
            },
        }
    }

    /// A flare marks a place at the moment it is raised, which for a player is
    /// the live turn and would tell a delayed observer where things are going
    /// to be.
    #[verifier::opaque]
    pub open spec fn flared(self, peer: PeerID, m: FlareView) -> Ctx {
        match self.speaker(peer, Audience::InGame) {
            Err(fault) => self.faulted(peer, fault),
            Ok(uuid) => {
                let flare = FlareView { guid: uuid, ..m };
                let told = self.told_live(WireMessageView::Flare(flare));
                let turn = if told.turns.is_delayed(peer) {
                    told.feed.head
                } else {
                    told.turns.ready
                };
                if turn <= told.feed.head {
                    told.told_delayed(WireMessageView::Flare(flare))
                } else {
                    Ctx { feed: told.feed.with_flare(turn, flare), ..told }
                }
            },
        }
    }

    #[verifier::opaque]
    pub open spec fn seal_taken(self, settings: Frozen, peer: PeerID, m: TurnSealed) -> Ctx {
        match self.turns.seal_fault(peer, m.turn) {
            Some(fault) => self.faulted(peer, fault),
            None => Ctx { turns: self.turns.sealed(peer, m.turn), ..self }.turns_released(
                settings.turn_length_ms,
            ),
        }
    }

    #[verifier::opaque]
    pub open spec fn hash_taken(self, peer: PeerID, m: StateHashView) -> Ctx {
        match self.turns.hash_fault(peer, m.turn) {
            Some(fault) => self.faulted(peer, fault),
            None => {
                let (turns, found) = self.turns.hashed(peer, m.turn, m.hash);
                Ctx { turns, ..self }.mismatches_told(found)
            },
        }
    }

    /// One turn replayed to a joiner: its commands, and its seal where it has
    /// been released.
    pub open spec fn turn_replayed(
        self,
        peer: PeerID,
        turn: u32,
        sealed_through: u32,
        turn_length: u16,
    ) -> Ctx {
        let told = self.sent_each(
            peer,
            stream::command_messages(self.log.commands_for(turn)),
        );
        if turn <= sealed_through {
            told.sent(
                peer,
                WireMessageView::TurnSealed(
                    TurnSealed { turn, turn_length: self.log.length_or(turn, turn_length) },
                ),
            )
        } else {
            told
        }
    }

    /// Every turn after `from`, through `to`, replayed to a joiner.
    pub open spec fn replayed(
        self,
        peer: PeerID,
        from: u32,
        to: u32,
        sealed_through: u32,
        turn_length: u16,
    ) -> Ctx
        decreases to,
    {
        if to <= from {
            self
        } else {
            self.replayed(
                peer,
                from,
                (to - 1) as u32,
                sealed_through,
                turn_length,
            ).turn_replayed(peer, to, sealed_through, turn_length)
        }
    }

    /// How far the replay goes: at least one turn past the released ones, so
    /// the joiner's own next turn is contiguous, and further whenever commands
    /// are already stored beyond it.
    pub open spec fn replay_end(self) -> u32 {
        let next = (self.turns.ready + 1) as u32;
        match turn::last_turn(self.log.commands) {
            Some(t) if t > next => t,
            _ => next,
        }
    }

    /// A live joiner is in the match.
    #[verifier::opaque]
    pub open spec fn live_resumed(
        self,
        settings: Frozen,
        peer: PeerID,
        uuid: Seq<char>,
        client_id: u16,
        snapshot_turn: u32,
    ) -> Ctx {
        let ready = self.turns.ready;
        let caught_up = self.replayed(
            peer,
            snapshot_turn,
            self.replay_end(),
            ready,
            settings.turn_length_ms as u16,
        ).sent(
            peer,
            WireMessageView::LoadedGame(LoadedGame { current_turn: ready }),
        ).with_role(peer, Role::InGame);
        Ctx {
            turns: caught_up.turns.registered(
                peer,
                client_id,
                (ready + COMMAND_DELAY - 1) as u32,
                ready,
                caught_up.is_observer(uuid),
                false,
            ),
            ..caught_up
        }
    }

    /// A delayed joiner is in the match. The replay is cut at the feed's head:
    /// the feed sends each turn's commands together with its seal, so those
    /// past the head are still to come.
    #[verifier::opaque]
    pub open spec fn delayed_resumed(
        self,
        settings: Frozen,
        peer: PeerID,
        client_id: u16,
        snapshot_turn: u32,
    ) -> Ctx {
        let head = self.feed.head;
        let caught_up = self.replayed(
            peer,
            snapshot_turn,
            head,
            head,
            settings.turn_length_ms as u16,
        ).sent(
            peer,
            WireMessageView::LoadedGame(LoadedGame { current_turn: head }),
        ).with_role(peer, Role::InGame);
        Ctx {
            feed: caught_up.feed.forgotten(peer),
            turns: caught_up.turns.registered(
                peer,
                client_id,
                (head + COMMAND_DELAY - 1) as u32,
                head,
                true,
                true,
            ),
            ..caught_up
        }
    }

    /// A joiner has loaded its snapshot.
    #[verifier::opaque]
    pub open spec fn snapshot_loaded(self, settings: Frozen, peer: PeerID, m: LoadedGame) -> Ctx {
        match table::lookup(self.sessions, peer) {
            None => self.faulted(peer, PeerFault::NoSession),
            Some(s) => if !s.is_syncing() {
                self.faulted(peer, PeerFault::WrongPhase)
            } else {
                match (s.uuid, s.client_id()) {
                    (Some(uuid), Some(client_id)) => if self.is_delayed_observer(uuid) {
                        self.delayed_resumed(settings, peer, client_id, m.current_turn)
                    } else {
                        self.live_resumed(settings, peer, uuid, client_id, m.current_turn)
                    },
                    _ => self.faulted(peer, PeerFault::NoSession),
                }
            },
        }
    }

    /// A message while turns are being released.
    #[verifier::opaque]
    pub open spec fn match_message(
        self,
        phase: Phase,
        settings: Frozen,
        peer: PeerID,
        msg: WireMessageView,
        issued: Option<Seq<char>>,
    ) -> Ctx {
        match msg {
            WireMessageView::Joined(_) => self.came_in(peer),
            WireMessageView::PlayerPause(m) => self.pause_asked(peer, m.pause),
            WireMessageView::PlayerCommand(m) => self.commanded(settings, peer, m),
            WireMessageView::Flare(m) => self.flared(peer, m),
            WireMessageView::TurnSealed(m) => self.seal_taken(settings, peer, m),
            WireMessageView::StateHash(m) => self.hash_taken(peer, m),
            WireMessageView::LoadedGame(m) => self.snapshot_loaded(settings, peer, m),
            WireMessageView::GamestateChunk(m) => self.snapshot_chunk_taken(
                Some(settings),
                peer,
                m,
            ),
            _ => self.common_message(phase, Some(settings), peer, msg, issued),
        }
    }

    /// The whole match as released, with the players' agreed hashes, for the
    /// replay that works out who won. None when no turn was ever released, or
    /// when there is nothing to replay it with.
    pub open spec fn outcome_record(self, settings: Frozen) -> Option<DumpRequestView> {
        let turn = self.turns.ready;
        if !self.config.sidecar_dumps || turn <= INITIAL_READY_TURN {
            None
        } else {
            match self.record(Some(settings), turn) {
                None => None,
                Some(request) => Some(
                    DumpRequestView {
                        hashes: hashes_between(
                            self.turns.references,
                            sidecar::base_turn(request.base),
                            turn,
                        ),
                        ..request
                    },
                ),
            }
        }
    }

    /// Whether resigning has decided the match. Certain without simulating: a
    /// resign is a defeat, and after a defeat the engine declares the one
    /// player left, if any, the winner. Resigns the relay never sees only make
    /// this miss an ending, never invent one.
    pub open spec fn resigned_out(self, settings: Frozen) -> bool {
        &&& !settings.endless
        &&& settings.player_ids.len() > 0
        &&& self.resigned.len() > 0
        &&& settings.player_ids.filter(|p: i32| !self.resigned.contains(p)).len() <= 1
    }

    /// The match is decided.
    #[verifier::opaque]
    pub open spec fn ended(self, resolved_by: Option<u32>) -> Ctx {
        self.doing(EffectView::MatchEnded { checkpoint: resolved_by }).said(
            None,
            MATCH_OVER@ + settings::span_text(
                settings::shown_secs(self.config.post_game_linger),
            ) + OR_ONCE_LEFT@,
        )
    }

    /// The newest checkpoint.
    pub open spec fn newest_checkpoint(self) -> Option<BaseStateView> {
        if self.checkpoints.states.len() == 0 {
            None
        } else {
            Some(self.checkpoints.states.last())
        }
    }

    /// Whether the next checkpoint is due: once the match has run a whole
    /// interval past the last one, or there is reason to look earlier. At most
    /// one run is under way at a time.
    pub open spec fn checkpoint_due(self) -> bool {
        let chain = self.checkpoints;
        let turn = self.turns.ready;
        let last = sidecar::base_turn(self.newest_checkpoint());
        &&& self.config.sidecar_dumps
        &&& self.config.checkpoint_interval_turns != 0
        &&& !chain.disabled
        &&& chain.pending is None
        &&& if chain.prefetch {
            turn > last
        } else {
            ||| turn >= last + self.config.checkpoint_interval_turns
            ||| last + self.config.checkpoint_interval_turns > u32::MAX && turn == u32::MAX
            ||| chain.probe matches Some(p) && turn > p && turn > last
        }
    }

    /// The next checkpoint asked for, where it is due.
    #[verifier::opaque]
    pub open spec fn checkpointing(self, settings: Frozen) -> Ctx {
        if !self.checkpoint_due() {
            self
        } else {
            let chain = self.checkpoints;
            let turn = self.turns.ready;
            let base = self.newest_checkpoint();
            let last = sidecar::base_turn(base);
            let request = self.record_from(Some(settings), base, turn)->0;
            Ctx {
                checkpoints: Chain {
                    prefetch: false,
                    probe: match chain.probe {
                        Some(p) if p >= turn => Some(p),
                        _ => None,
                    },
                    next_id: snapshot::next_number(chain.next_id),
                    pending: Some(
                        PendingCheckpoint {
                            id: chain.next_id,
                            turn,
                            from_scratch: base is None,
                        },
                    ),
                    ..chain
                },
                ..self
            }.doing(
                EffectView::Checkpoint {
                    id: chain.next_id,
                    turn,
                    request: DumpRequestView {
                        hashes: hashes_between(self.turns.references, last, turn),
                        ..request
                    },
                },
            )
        }
    }

    /// Whether a finished run is the one that was asked for.
    pub open spec fn awaits_checkpoint(self, id: u32) -> bool {
        self.checkpoints.pending matches Some(p) && p.id == id
    }

    /// The chain after a run. A run from the beginning that fails would fail
    /// again, so there are no more; enough failures in a row drop the chain.
    #[verifier::opaque]
    pub open spec fn checkpointed(self, id: u32, state: Option<Seq<u8>>) -> Ctx {
        if !self.awaits_checkpoint(id) {
            self
        } else {
            let pending = self.checkpoints.pending->0;
            let chain = Chain { pending: None, ..self.checkpoints };
            Ctx {
                checkpoints: match state {
                    None => if pending.from_scratch {
                        Chain { disabled: true, ..chain }
                    } else if chain.failures + 1 >= CHECKPOINT_FAILURE_LIMIT {
                        Chain { states: Seq::empty(), failures: 0, ..chain }
                    } else {
                        Chain { failures: (chain.failures + 1) as u8, ..chain }
                    },
                    Some(state) => Chain {
                        failures: 0,
                        states: still_wanted(
                            chain.states.push(BaseStateView { turn: pending.turn, state }),
                            self.feed.head,
                        ),
                        ..chain
                    },
                },
                ..self
            }
        }
    }

    /// Whether a run shows the match decided.
    pub open spec fn decided_by(
        self,
        id: u32,
        state: Option<Seq<u8>>,
        players: Seq<Seq<char>>,
    ) -> bool {
        self.awaits_checkpoint(id) && state is Some && all_decided(players)
    }

    /// The losing side often just leaves, so a player going is worth an early
    /// look at whether the match is over.
    #[verifier::opaque]
    pub open spec fn departure_probed(self, peer: PeerID) -> Ctx {
        match self.uuid_of(peer) {
            Some(uuid) if self.owns_player(uuid) => Ctx {
                checkpoints: self.checkpoints.probed(self.turns.ready),
                ..self
            },
            _ => self,
        }
    }
}

impl Context {
    fn send_each(&mut self, peer: PeerID, msgs: &Vec<WireMessage>)
        ensures
            final(self)@ == old(self)@.sent_each(peer, items::views(msgs@)),
    {
        let ghost c = self@;
        let ghost all = items::views(msgs@);
        let mut i: usize = 0;
        assert(c.effects + sends_to(peer, all.take(0)) =~= c.effects);
        while i < msgs.len()
            invariant
                c == old(self)@,
                all == items::views(msgs@),
                i <= msgs@.len(),
                self@ == c.sent_each(peer, all.take(i as int)),
            decreases msgs@.len() - i,
        {
            self.send(peer, msgs[i].clone());
            proof {
                let more = sends_to(peer, all.take(i + 1));
                assert(more =~= sends_to(peer, all.take(i as int)).push(
                    EffectView::Send { peer, msg: msgs@[i as int]@ },
                ));
                assert(self@.effects =~= c.effects + more);
            }
            i += 1;
        }
        assert(all.take(i as int) =~= all);
    }

    fn on_joined(&mut self, peer: PeerID)
        requires
            old(self).wf(),
        ensures
            final(self)@ == old(self)@.came_in(peer),
            final(self).wf(),
    {
        proof {
            reveal(Ctx::came_in);
        }
        let uuid = match self.speaker(peer, Audience::InGame) {
            Ok(uuid) => uuid,
            Err(fault) => {
                self.fault(peer, fault);
                return ;
            },
        };
        self.broadcast(&WireMessage::Joined(Joined { guid: uuid }), Audience::InGame);
        let pausing = self.pause_budget.pausing();
        let mut msgs: Vec<WireMessage> = Vec::new();
        let mut i: usize = 0;
        while i < pausing.len()
            invariant
                i <= pausing@.len(),
                msgs@.len() == i,
                forall|j: int|
                    0 <= j < i ==> (#[trigger] msgs@[j])@ == WireMessageView::PlayerPause(
                        PlayerPauseView { guid: pausing@[j]@, pause: true },
                    ),
            decreases pausing@.len() - i,
        {
            msgs.push(
                WireMessage::PlayerPause(PlayerPause { guid: pausing[i].clone(), pause: true }),
            );
            i += 1;
        }
        assert(items::views(msgs@) =~= pause_messages(items::views(pausing@)));
        self.send_each(peer, &msgs);
        if self.pause_budget.auto_paused() {
            let guid = self.server_uuid.clone();
            self.send(peer, WireMessage::PlayerPause(PlayerPause { guid, pause: true }));
        }
    }

    fn refuse_pause(&mut self, peer: PeerID, uuid: Guid, why: &str)
        ensures
            final(self)@ == old(self)@.pause_refused(peer, uuid@, why@),
            old(self).wf() ==> final(self).wf(),
    {
        self.server_chat(Some(peer), why);
        self.send(peer, WireMessage::PlayerPause(PlayerPause { guid: uuid, pause: false }));
    }

    fn owns_player(&self, uuid: &Guid) -> (r: bool)
        ensures
            r == self@.owns_player(uuid@),
    {
        match self.slots.slot_of(uuid) {
            Some(slot) => slot != UNASSIGNED,
            None => false,
        }
    }

    fn on_player_pause(&mut self, peer: PeerID, msg: &PlayerPause)
        requires
            old(self).wf(),
        ensures
            final(self)@ == old(self)@.pause_asked(peer, msg.pause),
            final(self).wf(),
    {
        proof {
            reveal(Ctx::pause_asked);
        }
        let uuid = match self.speaker(peer, Audience::InGame) {
            Ok(uuid) => uuid,
            Err(fault) => {
                self.fault(peer, fault);
                return ;
            },
        };
        if self.turns.is_delayed(peer) {
            return ;
        }
        if !msg.pause {
            let _ = self.pause_budget.set_pausing(&uuid, false);
            let relayed = WireMessage::PlayerPause(PlayerPause { guid: uuid, pause: false });
            self.broadcast_except(peer, &relayed, Audience::InGame);
            return ;
        }
        if !self.owns_player(&uuid) {
            self.refuse_pause(peer, uuid, ONLY_PLAYERS_PAUSE);
            return ;
        }
        let left: i128 = self.pause_budget.remaining(&uuid);
        if left <= 0 {
            self.refuse_pause(peer, uuid, OUT_OF_BUDGET);
            return ;
        }
        let _ = self.pause_budget.set_pausing(&uuid, true);
        let relayed = WireMessage::PlayerPause(PlayerPause { guid: uuid.clone(), pause: true });
        // Advisory only, and the client accepts it nowhere but in a match.
        self.broadcast_except(peer, &relayed, Audience::InGame);
        if let Some(name) = self.name_of(&uuid) {
            let text = timing::left_text("", name.as_str(), " paused. ", left);
            self.server_chat(None, text.as_str());
        }
    }

    fn speaks_for_ai(&self, peer: PeerID, player: i32) -> (r: bool)
        ensures
            r == self@.speaks_for_ai(peer, player),
    {
        if !self.is_ai_host(peer) {
            return false;
        }
        match &self.ai_host {
            Some(h) => context::has_number(&h.players, player),
            None => false,
        }
    }

    fn speaks_for_self(&self, uuid: &Guid, player: i32) -> (r: bool)
        ensures
            r == self@.speaks_for_self(uuid@, player),
    {
        match self.slots.slot_of(uuid) {
            Some(slot) => slot as i32 == player,
            None => false,
        }
    }

    fn on_player_command(&mut self, settings: &FrozenSettings, peer: PeerID, msg: PlayerCommand)
        requires
            old(self).wf(),
        ensures
            final(self)@ == old(self)@.commanded(settings@, peer, msg@),
            final(self).wf(),
    {
        proof {
            reveal(Ctx::commanded);
        }
        let uuid = match self.speaker(peer, Audience::InGame) {
            Ok(uuid) => uuid,
            Err(fault) => {
                self.fault(peer, fault);
                return ;
            },
        };
        let for_ai = self.speaks_for_ai(peer, msg.player);
        let for_self = self.speaks_for_self(&uuid, msg.player);
        if !settings.cheats_enabled && !for_ai && !(for_self && self.owns_player(&uuid)) {
            // Silently, because a cheat attempt is not worth a disconnect.
            return ;
        }
        if for_self || for_ai {
            let resigns = match PlayerCommand::extract_command_type(msg.data.as_slice()) {
                Some(kind) => utils::same_text(kind.as_str(), "resign"),
                None => false,
            };
            if resigns {
                if !context::has_number(&self.resigned, msg.player) {
                    self.resigned.push(msg.player);
                }
                // The resign takes effect at the turn it is scheduled for, so
                // that is the earliest turn a replay could show the match over.
                self.checkpoints.probe_at(msg.turn);
            }
        }
        let relayed = WireMessage::PlayerCommand(msg.clone());
        self.broadcast_live(&relayed);
        self.log.record_command(msg);
    }

    fn on_flare(&mut self, peer: PeerID, msg: &Flare)
        requires
            old(self).wf(),
        ensures
            final(self)@ == old(self)@.flared(peer, msg@),
            final(self).wf(),
    {
        proof {
            reveal(Ctx::flared);
        }
        let uuid = match self.speaker(peer, Audience::InGame) {
            Ok(uuid) => uuid,
            Err(fault) => {
                self.fault(peer, fault);
                return ;
            },
        };
        let flare = Flare {
            guid: uuid,
            position_x: utils::copy_text(msg.position_x.as_str()),
            position_y: utils::copy_text(msg.position_y.as_str()),
            position_z: utils::copy_text(msg.position_z.as_str()),
        };
        self.broadcast_live(&WireMessage::Flare(flare.clone()));
        let turn: u32 = if self.turns.is_delayed(peer) {
            self.feed.head()
        } else {
            self.turns.ready_turn()
        };
        if turn <= self.feed.head() {
            self.broadcast_delayed(&WireMessage::Flare(flare));
        } else {
            self.feed.queue_flare(turn, flare);
        }
    }

    fn on_turn_sealed(&mut self, settings: &FrozenSettings, peer: PeerID, msg: TurnSealed)
        requires
            old(self).wf(),
        ensures
            final(self)@ == old(self)@.seal_taken(settings@, peer, msg),
            final(self).wf(),
    {
        proof {
            reveal(Ctx::seal_taken);
        }
        match self.turns.on_turn_sealed(peer, msg.turn) {
            Ok(_) => self.release_turns(settings.turn_length_ms),
            Err(fault) => self.fault(peer, fault),
        }
    }

    fn on_state_hash(&mut self, peer: PeerID, msg: StateHash)
        requires
            old(self).wf(),
        ensures
            final(self)@ == old(self)@.hash_taken(peer, msg@),
            final(self).wf(),
    {
        proof {
            reveal(Ctx::hash_taken);
        }
        match self.turns.on_state_hash(peer, msg.turn, msg.hash) {
            Ok(found) => self.report_mismatches(&found),
            Err(fault) => self.fault(peer, fault),
        }
    }

    fn replay_turn(&mut self, peer: PeerID, turn: u32, sealed_through: u32, turn_length: u16)
        ensures
            final(self)@ == old(self)@.turn_replayed(peer, turn, sealed_through, turn_length),
            final(self)@ == (Ctx { effects: final(self)@.effects, ..old(self)@ }),
    {
        let commands = self.log.commands_for(turn);
        let mut msgs: Vec<WireMessage> = Vec::new();
        let mut i: usize = 0;
        while i < commands.len()
            invariant
                i <= commands@.len(),
                msgs@.len() == i,
                forall|j: int|
                    0 <= j < i ==> (#[trigger] msgs@[j])@ == WireMessageView::PlayerCommand(
                        commands@[j]@,
                    ),
            decreases commands@.len() - i,
        {
            msgs.push(WireMessage::PlayerCommand(commands[i].clone()));
            i += 1;
        }
        assert(items::views(msgs@) =~= stream::command_messages(items::views(commands@)));
        self.send_each(peer, &msgs);
        if turn <= sealed_through {
            let turn_length: u16 = self.log.length_or(turn, turn_length);
            self.send(peer, WireMessage::TurnSealed(TurnSealed { turn, turn_length }));
        }
    }

    fn replay(&mut self, peer: PeerID, from: u32, to: u32, sealed_through: u32, turn_length: u16)
        requires
            old(self).wf(),
        ensures
            final(self)@ == old(self)@.replayed(peer, from, to, sealed_through, turn_length),
            final(self)@ == (Ctx { effects: final(self)@.effects, ..old(self)@ }),
            final(self).wf(),
    {
        let ghost c = self@;
        let mut turn: u32 = from;
        while turn < to
            invariant
                c == old(self)@,
                self.wf(),
                from <= turn,
                turn <= to || turn == from,
                self@ == c.replayed(peer, from, turn, sealed_through, turn_length),
                self@ == (Ctx { effects: self@.effects, ..c }),
            decreases to - turn,
        {
            turn = turn + 1;
            self.replay_turn(peer, turn, sealed_through, turn_length);
        }
    }

    fn resume_live(
        &mut self,
        settings: &FrozenSettings,
        peer: PeerID,
        uuid: &Guid,
        client_id: u16,
        snapshot_turn: u32,
    )
        requires
            old(self).wf(),
        ensures
            final(self)@ == old(self)@.live_resumed(
                settings@,
                peer,
                uuid@,
                client_id,
                snapshot_turn,
            ),
            final(self).wf(),
    {
        proof {
            reveal(Ctx::live_resumed);
        }
        let ready: u32 = self.turns.ready_turn();
        let next: u32 = ready + 1;
        let upper: u32 = match self.log.last_command_turn() {
            Some(t) if t > next => t,
            _ => next,
        };
        self.replay(peer, snapshot_turn, upper, ready, settings.turn_length_ms as u16);
        self.send(peer, WireMessage::LoadedGame(LoadedGame { current_turn: ready }));
        self.set_role(peer, Role::InGame);
        let observer = self.is_observer(uuid);
        self.turns.register(peer, client_id, ready + COMMAND_DELAY - 1, ready, observer, false);
    }

    fn resume_delayed(
        &mut self,
        settings: &FrozenSettings,
        peer: PeerID,
        client_id: u16,
        snapshot_turn: u32,
    )
        requires
            old(self).wf(),
        ensures
            final(self)@ == old(self)@.delayed_resumed(settings@, peer, client_id, snapshot_turn),
            final(self).wf(),
    {
        proof {
            reveal(Ctx::delayed_resumed);
        }
        let head: u32 = self.feed.head();
        self.replay(peer, snapshot_turn, head, head, settings.turn_length_ms as u16);
        self.send(peer, WireMessage::LoadedGame(LoadedGame { current_turn: head }));
        self.set_role(peer, Role::InGame);
        self.feed.forget(peer);
        self.turns.register(peer, client_id, head + COMMAND_DELAY - 1, head, true, true);
    }

    /// Only a syncing joiner sends this once the match is running.
    fn on_snapshot_loaded(&mut self, settings: &FrozenSettings, peer: PeerID, msg: LoadedGame)
        requires
            old(self).wf(),
        ensures
            final(self)@ == old(self)@.snapshot_loaded(settings@, peer, msg),
            final(self).wf(),
    {
        proof {
            reveal(Ctx::snapshot_loaded);
        }
        let (syncing, uuid, client_id) = match self.sessions.get(&peer) {
            Some(s) => (
                s.is_syncing(),
                match &s.uuid {
                    Some(uuid) => Some(uuid.clone()),
                    None => None,
                },
                s.client_id(),
            ),
            None => {
                self.fault(peer, PeerFault::NoSession);
                return ;
            },
        };
        if !syncing {
            self.fault(peer, PeerFault::WrongPhase);
            return ;
        }
        match (uuid, client_id) {
            (Some(uuid), Some(client_id)) => {
                if self.is_delayed_observer(&uuid) {
                    self.resume_delayed(settings, peer, client_id, msg.current_turn);
                } else {
                    self.resume_live(settings, peer, &uuid, client_id, msg.current_turn);
                }
            },
            _ => self.fault(peer, PeerFault::NoSession),
        }
    }

    pub fn on_match_message(
        &mut self,
        phase: Phase,
        settings: &FrozenSettings,
        peer: PeerID,
        msg: WireMessage,
        issued: Option<Guid>,
    )
        requires
            old(self).wf(),
        ensures
            final(self)@ == old(self)@.match_message(
                phase,
                settings@,
                peer,
                msg@,
                utils::seen(issued),
            ),
            final(self).wf(),
    {
        proof {
            reveal(Ctx::match_message);
        }
        match msg {
            WireMessage::Joined(_) => self.on_joined(peer),
            WireMessage::PlayerPause(m) => self.on_player_pause(peer, &m),
            WireMessage::PlayerCommand(m) => self.on_player_command(settings, peer, m),
            WireMessage::Flare(m) => self.on_flare(peer, &m),
            WireMessage::TurnSealed(m) => self.on_turn_sealed(settings, peer, m),
            WireMessage::StateHash(m) => self.on_state_hash(peer, m),
            WireMessage::LoadedGame(m) => self.on_snapshot_loaded(settings, peer, m),
            WireMessage::GamestateChunk(m) => self.on_snapshot_chunk(Some(settings), peer, &m),
            other => self.on_common_message(phase, Some(settings), peer, other, issued),
        }
    }

    /// The players' agreed hashes, for a replay to check itself against.
    fn reference_hashes(&self, after: u32, through: u32) -> (r: Vec<TurnHash>)
        ensures
            items::views(r@) == hashes_between(self@.turns.references, after, through),
    {
        let mut out: Vec<TurnHash> = Vec::new();
        let mut turn: u32 = after;
        assert(items::views(out@) =~= Seq::empty());
        while turn < through
            invariant
                after <= turn,
                turn <= through || turn == after,
                items::views(out@) == hashes_between(self@.turns.references, after, turn),
            decreases through - turn,
        {
            turn = turn + 1;
            let ghost so_far = items::views(out@);
            if let Some(hash) = self.turns.reference(turn) {
                let entry = TurnHash {
                    turn,
                    hash: vstd::slice::slice_to_vec(hash.as_slice()),
                };
                let ghost e = entry@;
                out.push(entry);
                assert(items::views(out@) =~= so_far.push(e));
            }
        }
        out
    }

    pub fn outcome_request(&self, settings: &FrozenSettings) -> (r: Option<DumpRequest>)
        ensures
            utils::seen(r) == self@.outcome_record(settings@),
    {
        let turn: u32 = self.turns.ready_turn();
        if !self.config.sidecar_dumps || turn <= INITIAL_READY_TURN {
            return None;
        }
        let mut request = match self.match_record(Some(settings), turn) {
            Some(request) => request,
            None => return None,
        };
        let first: u32 = request.first_turn();
        request.hashes = self.reference_hashes(first, turn);
        Some(request)
    }

    pub fn resigned_out(&self, settings: &FrozenSettings) -> (r: bool)
        ensures
            r == self@.resigned_out(settings@),
    {
        if settings.endless || settings.player_ids.len() == 0 || self.resigned.len() == 0 {
            return false;
        }
        let ghost resigned = self@.resigned;
        let ghost all = settings.player_ids@;
        let ghost c = self@;
        let ghost plays = |p: i32| !c.resigned.contains(p);
        let mut remaining: usize = 0;
        let mut i: usize = 0;
        proof {
            utils::lemma_filter_ends(all, plays);
        }
        while i < settings.player_ids.len()
            invariant
                c == self@,
                all == settings.player_ids@,
                plays == (|p: i32| !c.resigned.contains(p)),
                remaining <= i <= all.len(),
                remaining == all.take(i as int).filter(plays).len(),
            decreases all.len() - i,
        {
            proof {
                utils::lemma_filter_step(all, i as int, plays);
            }
            if !context::has_number(&self.resigned, settings.player_ids[i]) {
                remaining += 1;
            }
            i += 1;
        }
        remaining <= 1
    }

    pub fn end_match(&mut self, resolved_by: Option<u32>)
        requires
            old(self).wf(),
        ensures
            final(self)@ == old(self)@.ended(resolved_by),
            final(self).wf(),
    {
        proof {
            reveal(Ctx::ended);
        }
        self.push_effect(Effect::MatchEnded { checkpoint: resolved_by });
        let mut text = utils::copy_text(MATCH_OVER);
        let span = settings::describe_span(self.config.post_game_linger);
        text.append(span.as_str());
        text.append(OR_ONCE_LEFT);
        self.server_chat(None, text.as_str());
    }

    pub fn maybe_checkpoint(&mut self, settings: &FrozenSettings)
        requires
            old(self).wf(),
        ensures
            final(self)@ == old(self)@.checkpointing(settings@),
            final(self).wf(),
    {
        proof {
            reveal(Ctx::checkpointing);
        }
        let interval: u32 = self.config.checkpoint_interval_turns;
        if !self.config.sidecar_dumps || interval == 0 || self.checkpoints.disabled
            || self.checkpoints.pending.is_some() {
            return ;
        }
        let turn: u32 = self.turns.ready_turn();
        let count: usize = self.checkpoints.states.len();
        let base = if count == 0 {
            None
        } else {
            assert(self@.checkpoints.states.last() == self.checkpoints.states@[count - 1]@);
            Some(self.checkpoints.states[count - 1].clone())
        };
        let last: u32 = match &base {
            Some(b) => b.turn,
            None => 0,
        };
        let probed = match self.checkpoints.probe {
            Some(p) => turn > p && turn > last,
            None => false,
        };
        let due = if self.checkpoints.prefetch {
            turn > last
        } else {
            turn >= last.saturating_add(interval) || probed
        };
        if !due {
            return ;
        }
        let from_scratch = base.is_none();
        let mut request = match self.match_record_from(Some(settings), base, turn) {
            Some(request) => request,
            None => return ,
        };
        request.hashes = self.reference_hashes(last, turn);
        let id: u32 = self.checkpoints.next_id;
        self.checkpoints.prefetch = false;
        let spent = match self.checkpoints.probe {
            Some(p) => p < turn,
            None => false,
        };
        if spent {
            self.checkpoints.probe = None;
        }
        self.checkpoints.next_id = snapshot::number_after(id);
        self.checkpoints.pending = Some(PendingCheckpoint { id, turn, from_scratch });
        self.push_effect(Effect::Checkpoint { id, turn, request });
    }

    /// True when the run shows the match decided. The chain is updated either
    /// way.
    pub fn on_checkpointed(&mut self, id: u32, state: Option<Vec<u8>>, players: &Vec<String>) -> (r:
        bool)
        requires
            old(self).wf(),
        ensures
            r == old(self)@.decided_by(id, utils::seen(state), items::views(players@)),
            final(self)@ == old(self)@.checkpointed(id, utils::seen(state)),
            final(self).wf(),
    {
        proof {
            reveal(Ctx::checkpointed);
        }
        let pending = match self.checkpoints.pending {
            Some(p) => p,
            None => return false,
        };
        if pending.id != id {
            return false;
        }
        self.checkpoints.pending = None;
        let bytes = match state {
            Some(bytes) => bytes,
            None => {
                if pending.from_scratch {
                    self.checkpoints.disabled = true;
                } else if self.checkpoints.failures + 1 >= CHECKPOINT_FAILURE_LIMIT {
                    self.checkpoints.states = Vec::new();
                    self.checkpoints.failures = 0;
                    assert(items::views(self.checkpoints.states@) =~= Seq::empty());
                } else {
                    self.checkpoints.failures = self.checkpoints.failures + 1;
                }
                return false;
            },
        };
        self.checkpoints.failures = 0;
        let ghost states = self@.checkpoints.states;
        let base = BaseState { turn: pending.turn, state: Arc::new(bytes) };
        let ghost b = base@;
        self.checkpoints.states.push(base);
        assert(items::views(self.checkpoints.states@) =~= states.push(b));
        let head: u32 = self.feed.head();
        self.checkpoints.states = keep_wanted(&self.checkpoints.states, head);
        decided(players)
    }

    pub fn probe_departure(&mut self, peer: PeerID)
        requires
            old(self).wf(),
        ensures
            final(self)@ == old(self)@.departure_probed(peer),
            final(self).wf(),
    {
        proof {
            reveal(Ctx::departure_probed);
        }
        if let Some(uuid) = self.uuid_of(peer) {
            if self.owns_player(&uuid) {
                let turn: u32 = self.turns.ready_turn();
                self.checkpoints.probe_at(turn);
            }
        }
    }
}

fn keep_wanted(states: &Vec<BaseState>, head: u32) -> (r: Vec<BaseState>)
    ensures
        items::views(r@) == still_wanted(items::views(states@), head),
{
    let ghost all = items::views(states@);
    let mut out: Vec<BaseState> = Vec::new();
    let mut i: usize = 0;
    proof {
        assert(all.take(0) =~= Seq::empty());
        assert(items::views(out@) =~= Seq::empty());
    }
    while i < states.len()
        invariant
            all == items::views(states@),
            i <= states@.len(),
            items::views(out@) == still_wanted(all.take(i as int), head),
        decreases states@.len() - i,
    {
        let ghost so_far = items::views(out@);
        proof {
            assert(all.take(i + 1).drop_last() =~= all.take(i as int));
            assert(all.take(i + 1).last() == states@[i as int]@);
        }
        let state = states[i].clone();
        let ghost v = state@;
        if state.turn <= head {
            let mut only: Vec<BaseState> = Vec::new();
            only.push(state);
            assert(items::views(only@) =~= seq![v]);
            out = only;
        } else {
            out.push(state);
            assert(items::views(out@) =~= so_far.push(v));
        }
        i += 1;
    }
    assert(all.take(i as int) =~= all);
    out
}

fn decided(players: &Vec<String>) -> (r: bool)
    ensures
        r == all_decided(items::views(players@)),
{
    let ghost all = items::views(players@);
    if players.len() <= 1 {
        return false;
    }
    let mut i: usize = 1;
    while i < players.len()
        invariant
            all == items::views(players@),
            1 <= i <= players@.len(),
            forall|j: int|
                1 <= j < i ==> #[trigger] all[j] == "won"@ || all[j] == "defeated"@,
        decreases players@.len() - i,
    {
        assert(all[i as int] == players@[i as int]@);
        if !utils::same_text(players[i].as_str(), "won") && !utils::same_text(
            players[i].as_str(),
            "defeated",
        ) {
            return false;
        }
        i += 1;
    }
    true
}

} // verus!
