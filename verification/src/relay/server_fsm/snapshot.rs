//! How a joiner gets the state of a running match.

use std::sync::Arc;

use vstd::prelude::*;

use crate::network_message::PeerID;
use crate::relay::fault::PeerFault;
use crate::relay::gamestate_transfer;
use crate::relay::gamestate_transfer::Purpose;
use crate::relay::gamestate_transfer::Received;
use crate::relay::gamestate_transfer::TransfersView;
use crate::relay::gamestate_transfer::KIND_RUNNING_GAME;
use crate::relay::messages::gamestate_chunk::GamestateChunkView;
use crate::relay::messages::items;
use crate::relay::messages::join::JoinView;
use crate::relay::messages::player_command::PlayerCommandView;
use crate::relay::messages::GamestateChunk;
use crate::relay::messages::GamestateChunkAck;
use crate::relay::messages::GamestateRequest;
use crate::relay::messages::GamestateResponse;
use crate::relay::messages::Join;
use crate::relay::messages::PlayerCommand;
use crate::relay::messages::WireMessage;
use crate::relay::messages::WireMessageView;
use crate::relay::server_fsm::config::SIMULATION_VERSION;
use crate::relay::server_fsm::context;
use crate::relay::server_fsm::context::Context;
use crate::relay::server_fsm::context::Ctx;
use crate::relay::server_fsm::context::PendingDump;
use crate::relay::server_fsm::context::PendingDumpView;
use crate::relay::server_fsm::event::Effect;
use crate::relay::server_fsm::event::EffectView;
use crate::relay::server_fsm::reason::DisconnectReason;
use crate::relay::server_fsm::settings::Frozen;
use crate::relay::server_fsm::settings::FrozenSettings;
use crate::relay::session::SessionView;
use crate::relay::turn::Log;
use crate::sidecar;
use crate::sidecar::BaseState;
use crate::sidecar::BaseStateView;
use crate::sidecar::DumpRequest;
use crate::sidecar::DumpRequestView;
use crate::sidecar::TurnHash;
use crate::table;
use crate::table::TransferKey;
use crate::utils;

verus! {

/// The settings of a match, where one has been configured.
pub open spec fn frozen(settings: Option<&FrozenSettings>) -> Option<Frozen> {
    match settings {
        Some(s) => Some(s@),
        None => None,
    }
}

/// How long each turn after `from`, through `to`, was.
pub open spec fn lengths(log: Log, from: u32, to: u32, default: u16) -> Seq<u16>
    decreases to,
{
    if to <= from {
        Seq::empty()
    } else {
        lengths(log, from, (to - 1) as u32, default).push(log.length_or(to, default))
    }
}

/// The commands of the turns after `from`, through `to`.
pub open spec fn commands_between(log: Log, from: u32, to: u32) -> Seq<PlayerCommandView>
    decreases to,
{
    if to <= from {
        Seq::empty()
    } else {
        commands_between(log, from, (to - 1) as u32) + log.commands_for(to)
    }
}

/// The number after this one; after the largest they begin anew.
pub open spec fn next_number(n: u32) -> u32 {
    if n == u32::MAX {
        0
    } else {
        (n + 1) as u32
    }
}

pub fn number_after(n: u32) -> (r: u32)
    ensures
        r == next_number(n),
{
    if n == u32::MAX {
        0
    } else {
        n + 1
    }
}

/// How good a source of a snapshot a session is, better ones first. A source
/// on the same feed as the joiner is preferred: a delayed observer's state is
/// already old enough for a delayed joiner to load straight away, and a live
/// joiner sourced from one would only have a longer replay to sit through.
#[derive(Debug, Clone, Copy, PartialEq, Eq, Structural)]
pub struct SourceRank {
    pub other_feed: bool,
    pub desynced: bool,
    pub mean_rtt: i64,
}

impl SourceRank {
    /// Whether this one comes before the other.
    pub open spec fn before(self, other: SourceRank) -> bool {
        if self.other_feed != other.other_feed {
            !self.other_feed
        } else if self.desynced != other.desynced {
            !self.desynced
        } else {
            self.mean_rtt < other.mean_rtt
        }
    }

    fn comes_before(self, other: SourceRank) -> (r: bool)
        ensures
            r == self.before(other),
    {
        if self.other_feed != other.other_feed {
            !self.other_feed
        } else if self.desynced != other.desynced {
            !self.desynced
        } else {
            self.mean_rtt < other.mean_rtt
        }
    }
}

/// What a finished transfer was for.
#[derive(Debug)]
pub enum TransferDone {
    JoinSnapshot { joiner: PeerID, state: Vec<u8> },
    Savegame(Vec<u8>),
}

/// What [`TransferDone`] is.
pub enum TransferDoneView {
    JoinSnapshot { joiner: PeerID, state: Seq<u8> },
    Savegame(Seq<u8>),
}

impl View for TransferDone {
    type V = TransferDoneView;

    open spec fn view(&self) -> TransferDoneView {
        match *self {
            TransferDone::JoinSnapshot { joiner, state } => TransferDoneView::JoinSnapshot {
                joiner,
                state: state@,
            },
            TransferDone::Savegame(state) => TransferDoneView::Savegame(state@),
        }
    }
}

/// Chunks on their way to a peer.
pub open spec fn chunk_sends(peer: PeerID, chunks: Seq<GamestateChunkView>) -> Seq<EffectView> {
    chunks.map_values(
        |c: GamestateChunkView|
            EffectView::Send { peer, msg: WireMessageView::GamestateChunk(c) },
    )
}

impl Ctx {
    /// Everything a run needs to rebuild the match through `turn`. None before
    /// the settings are frozen.
    pub open spec fn record_from(
        self,
        settings: Option<Frozen>,
        base: Option<BaseStateView>,
        turn: u32,
    ) -> Option<DumpRequestView> {
        match settings {
            None => None,
            Some(settings) => {
                let first = sidecar::base_turn(base);
                Some(
                    DumpRequestView {
                        init_attributes: settings.json,
                        engine_version: SIMULATION_VERSION@,
                        mods: items::views(self.config.enabled_mods@),
                        base,
                        turn_lengths: lengths(
                            self.log,
                            first,
                            turn,
                            settings.turn_length_ms as u16,
                        ),
                        commands: commands_between(self.log, first, turn),
                        hashes: Seq::empty(),
                    },
                )
            },
        }
    }

    /// The same, resuming from the newest checkpoint that is not past it.
    pub open spec fn record(self, settings: Option<Frozen>, turn: u32) -> Option<
        DumpRequestView,
    > {
        self.record_from(
            settings,
            context::newest_at(self.checkpoints.states, turn),
            turn,
        )
    }

    /// Whether a joiner can be served by a run that rebuilds the state.
    pub open spec fn can_dump(self, settings: Option<Frozen>, turn: u32) -> bool {
        self.config.sidecar_dumps && turn >= 1 && settings is Some
    }

    /// The joiner waits on a dump: the run under way it attaches to, or a
    /// fresh one. One run per game: a joiner arriving while it runs waits
    /// behind it whatever turn it asked for.
    pub open spec fn dump_requested(
        self,
        settings: Option<Frozen>,
        joiner: PeerID,
        turn: u32,
    ) -> Ctx {
        match self.dump {
            Some(d) => Ctx {
                dump: Some(PendingDumpView { waiting: d.waiting.push(joiner), ..d }),
                ..self
            },
            None => Ctx {
                dump: Some(
                    PendingDumpView { id: self.next_dump_id, turn, waiting: seq![joiner] },
                ),
                next_dump_id: next_number(self.next_dump_id),
                ..self
            }.doing(
                EffectView::StateDump {
                    id: self.next_dump_id,
                    turn,
                    request: self.record(settings, turn)->0,
                },
            ),
        }
    }

    /// Hands a snapshot to one joiner: a delayed joiner waits on the feed until
    /// its state is due, everyone else loads straight away.
    #[verifier::opaque]
    pub open spec fn delivered(
        self,
        settings: Option<Frozen>,
        joiner: PeerID,
        snapshot: Seq<u8>,
        bound: u32,
    ) -> Ctx {
        match settings {
            None => self,
            Some(settings) => {
                let join = JoinView { init_attributes: settings.json };
                if self.is_delayed_peer(joiner) {
                    Ctx {
                        feed: self.feed.with_join(joiner, bound, join, snapshot),
                        ..self
                    }.feed_advanced()
                } else {
                    Ctx { transfers: self.transfers.granting(joiner, snapshot), ..self }.sent(
                        joiner,
                        WireMessageView::Join(join),
                    )
                }
            },
        }
    }

    /// Whether a session can be asked for its state: only one in the match can
    /// serialize it, and the AI host's state carries a live AI registration,
    /// which would start the joiner computing the AI too.
    pub open spec fn can_source(self, row: (PeerID, SessionView), joiner: PeerID) -> bool {
        row.0 != joiner && row.1.is_in_game() && !self.is_ai_host(row.0)
    }

    pub open spec fn source_rank(
        self,
        row: (PeerID, SessionView),
        joiner_delayed: bool,
    ) -> SourceRank {
        SourceRank {
            other_feed: self.turns.is_delayed(row.0) != joiner_delayed,
            desynced: self.turns.is_out_of_sync(row.0),
            mean_rtt: row.1.mean_rtt,
        }
    }

    /// The best of these sessions to ask, the earlier of two as good.
    pub open spec fn best_source(
        self,
        rows: Seq<(PeerID, SessionView)>,
        joiner: PeerID,
        delayed: bool,
    ) -> Option<(PeerID, SourceRank)>
        decreases rows.len(),
    {
        if rows.len() == 0 {
            None
        } else {
            let best = self.best_source(rows.drop_last(), joiner, delayed);
            let row = rows.last();
            let rank = self.source_rank(row, delayed);
            if !self.can_source(row, joiner) {
                best
            } else {
                match best {
                    Some((_, r)) if !rank.before(r) => best,
                    _ => Some((row.0, rank)),
                }
            }
        }
    }

    pub open spec fn asked(self, source: PeerID, joiner: PeerID) -> Ctx {
        let id = self.transfers.next_id();
        Ctx {
            transfers: self.transfers.allocated().expecting(
                TransferKey { peer: source, request_id: id },
                Purpose::JoinSnapshot { joiner },
            ),
            ..self
        }.sent(
            source,
            WireMessageView::GamestateRequest(
                GamestateRequest { request_type: KIND_RUNNING_GAME, request_id: id },
            ),
        )
    }

    /// A snapshot is found for a joiner. A checkpoint beats everything: it is
    /// already built, so the joiner starts at once and no player stalls to
    /// serialize for it; a delayed joiner needs one its feed has passed. A
    /// delayed joiner then tries a run at the feed's head, so it can start
    /// watching without interrupting a player; a live joiner does so only when
    /// no client can serve it. No dump is tried again after one failed.
    #[verifier::opaque]
    pub open spec fn snapshot_sought(
        self,
        settings: Option<Frozen>,
        joiner: PeerID,
        allow_dump: bool,
    ) -> Ctx {
        let delayed = self.is_delayed_peer(joiner);
        let newest_usable = if delayed {
            self.feed.head
        } else {
            u32::MAX
        };
        match context::newest_at(self.checkpoints.states, newest_usable) {
            Some(base) => self.delivered(settings, joiner, base.state, base.turn),
            None => if allow_dump && delayed && self.can_dump(settings, self.feed.head) {
                self.dump_requested(settings, joiner, self.feed.head)
            } else {
                match self.best_source(self.sessions, joiner, delayed) {
                    Some((source, _)) => self.asked(source, joiner),
                    None => if allow_dump && self.can_dump(settings, self.turns.ready) {
                        self.dump_requested(settings, joiner, self.turns.ready)
                    } else {
                        self.dropped(joiner, DisconnectReason::MatchInProgress)
                    },
                }
            },
        }
    }

    /// A snapshot is found for each of these joiners that is still syncing.
    #[verifier::opaque]
    pub open spec fn all_resought(self, settings: Option<Frozen>, joiners: Seq<PeerID>) -> Ctx
        decreases joiners.len(),
    {
        if joiners.len() == 0 {
            self
        } else {
            let before = self.all_resought(settings, joiners.drop_last());
            if before.is_syncing_peer(joiners.last()) {
                before.snapshot_sought(settings, joiners.last(), true)
            } else {
                before
            }
        }
    }

    pub open spec fn is_syncing_peer(self, peer: PeerID) -> bool {
        match table::lookup(self.sessions, peer) {
            Some(s) => s.is_syncing(),
            None => false,
        }
    }

    pub open spec fn chunks_sent(self, peer: PeerID, chunks: Seq<GamestateChunkView>) -> Ctx {
        Ctx { effects: self.effects + chunk_sends(peer, chunks), ..self }
    }

    /// A peer asks for state. It may have only what it was granted, once; what
    /// is not available is simply not answered, because a client told of a
    /// zero length would be stuck.
    #[verifier::opaque]
    pub open spec fn state_asked_for(self, peer: PeerID, m: GamestateRequest) -> Ctx {
        if m.request_type != KIND_RUNNING_GAME {
            self
        } else {
            let taken = Ctx { transfers: self.transfers.grant_taken(peer), ..self };
            match table::lookup(self.transfers.granted, peer) {
                Some(data) if TransfersView::can_send(data) => {
                    let key = TransferKey { peer, request_id: m.request_id };
                    Ctx { transfers: taken.transfers.sending(key, data), ..taken }.sent(
                        peer,
                        WireMessageView::GamestateResponse(
                            GamestateResponse {
                                request_id: m.request_id,
                                length: data.len() as u32,
                            },
                        ),
                    ).chunks_sent(
                        peer,
                        gamestate_transfer::carried(
                            m.request_id,
                            TransfersView::begun(data).pieces(),
                        ),
                    )
                },
                _ => taken,
            }
        }
    }

    #[verifier::opaque]
    pub open spec fn state_promised(self, peer: PeerID, m: GamestateResponse) -> Ctx {
        let key = TransferKey { peer, request_id: m.request_id };
        let after = Ctx { transfers: self.transfers.declared(key, m.length), ..self };
        match self.transfers.response_fault(key, m.length) {
            Some(fault) => after.faulted(peer, fault),
            None => after,
        }
    }

    /// A chunk arrives. It gets exactly one acknowledgement, whatever happens
    /// next, unless it belongs to no transfer: then it has nothing to pace.
    #[verifier::opaque]
    pub open spec fn chunk_taken(self, peer: PeerID, m: GamestateChunkView) -> Ctx {
        let key = TransferKey { peer, request_id: m.request_id };
        if !table::has_key(self.transfers.incoming, key) {
            self.faulted(peer, PeerFault::WrongPhase)
        } else {
            let acked = self.sent(
                peer,
                WireMessageView::GamestateChunkAck(
                    GamestateChunkAck { request_id: m.request_id, num_packets: 1 },
                ),
            );
            let after = Ctx { transfers: self.transfers.chunked(key, m.data), ..acked };
            match self.transfers.chunk_result(key, m.data) {
                Received::Refused(fault) => after.faulted(peer, fault),
                _ => after,
            }
        }
    }

    /// What a chunk completed.
    pub open spec fn chunk_done(self, peer: PeerID, m: GamestateChunkView) -> Option<
        TransferDoneView,
    > {
        let key = TransferKey { peer, request_id: m.request_id };
        match self.transfers.chunk_result(key, m.data) {
            Received::Done { purpose: Purpose::JoinSnapshot { joiner }, data } => Some(
                TransferDoneView::JoinSnapshot { joiner, state: data },
            ),
            Received::Done { purpose: Purpose::Savegame, data } => Some(
                TransferDoneView::Savegame(data),
            ),
            _ => None,
        }
    }

    #[verifier::opaque]
    pub open spec fn chunks_acked(self, peer: PeerID, m: GamestateChunkAck) -> Ctx {
        let key = TransferKey { peer, request_id: m.request_id };
        Ctx { transfers: self.transfers.acked(key, m.num_packets), ..self }.chunks_sent(
            peer,
            gamestate_transfer::carried(
                m.request_id,
                self.transfers.acked_pieces(key, m.num_packets),
            ),
        )
    }

    /// A completed snapshot is what unblocks the joiner that asked for it. It
    /// cannot be past the last turn its source was sealed, so a delayed joiner
    /// waits until the feed reaches that turn before it sees anything.
    #[verifier::opaque]
    pub open spec fn snapshot_chunk_taken(
        self,
        settings: Option<Frozen>,
        peer: PeerID,
        m: GamestateChunkView,
    ) -> Ctx {
        let after = self.chunk_taken(peer, m);
        match self.chunk_done(peer, m) {
            Some(TransferDoneView::JoinSnapshot { joiner, state }) => {
                let bound = if after.turns.is_delayed(peer) {
                    after.feed.head
                } else {
                    after.turns.ready
                };
                after.delivered(settings, joiner, state, bound)
            },
            _ => after,
        }
    }

    /// The snapshot of a finished run goes to everyone who waits for it still.
    pub open spec fn all_delivered(
        self,
        settings: Option<Frozen>,
        joiners: Seq<PeerID>,
        state: Seq<u8>,
        turn: u32,
    ) -> Ctx
        decreases joiners.len(),
    {
        if joiners.len() == 0 {
            self
        } else {
            let before = self.all_delivered(settings, joiners.drop_last(), state, turn);
            if before.is_syncing_peer(joiners.last()) {
                before.delivered(settings, joiners.last(), state, turn)
            } else {
                before
            }
        }
    }

    /// Without a snapshot a delayed joiner falls back to a live client rather
    /// than being dropped outright.
    pub open spec fn all_let_down(self, settings: Option<Frozen>, joiners: Seq<PeerID>) -> Ctx
        decreases joiners.len(),
    {
        if joiners.len() == 0 {
            self
        } else {
            let before = self.all_let_down(settings, joiners.drop_last());
            let joiner = joiners.last();
            if !before.is_syncing_peer(joiner) {
                before
            } else if before.is_delayed_peer(joiner) {
                before.snapshot_sought(settings, joiner, false)
            } else {
                before.dropped(joiner, DisconnectReason::MatchInProgress)
            }
        }
    }

    /// A reply from a cancelled run carries its old number and is dropped, so
    /// it can never be credited to the newer run waiting behind it.
    #[verifier::opaque]
    pub open spec fn state_dumped(
        self,
        settings: Option<Frozen>,
        id: u32,
        state: Option<Seq<u8>>,
    ) -> Ctx {
        match self.dump {
            Some(d) if d.id == id => {
                let after = Ctx { dump: None, ..self };
                match state {
                    Some(bytes) => after.all_delivered(settings, d.waiting, bytes, d.turn),
                    None => after.all_let_down(settings, d.waiting),
                }
            },
            _ => self,
        }
    }
}

impl Context {
    fn turn_lengths(&self, from: u32, to: u32, default: u16) -> (r: Vec<u16>)
        ensures
            r@ == lengths(self@.log, from, to, default),
    {
        let mut out: Vec<u16> = Vec::new();
        let mut turn: u32 = from;
        while turn < to
            invariant
                from <= turn,
                turn <= to || turn == from,
                out@ == lengths(self@.log, from, turn, default),
            decreases to - turn,
        {
            turn = turn + 1;
            out.push(self.log.length_or(turn, default));
        }
        out
    }

    fn commands_between(&self, from: u32, to: u32) -> (r: Vec<PlayerCommand>)
        ensures
            items::views(r@) == commands_between(self@.log, from, to),
    {
        let mut out: Vec<PlayerCommand> = Vec::new();
        let mut turn: u32 = from;
        assert(items::views(out@) =~= Seq::empty());
        while turn < to
            invariant
                from <= turn,
                turn <= to || turn == from,
                items::views(out@) == commands_between(self@.log, from, turn),
            decreases to - turn,
        {
            turn = turn + 1;
            let ghost so_far = items::views(out@);
            let mut more = self.log.commands_for(turn);
            let ghost m = items::views(more@);
            out.append(&mut more);
            assert(items::views(out@) =~= so_far + m);
        }
        out
    }

    pub fn match_record_from(
        &self,
        settings: Option<&FrozenSettings>,
        base: Option<BaseState>,
        turn: u32,
    ) -> (r: Option<DumpRequest>)
        ensures
            utils::seen(r) == self@.record_from(frozen(settings), sidecar::base_view(base), turn),
    {
        let settings = match settings {
            Some(s) => s,
            None => return None,
        };
        let first: u32 = match &base {
            Some(b) => b.turn,
            None => 0,
        };
        let hashes: Vec<TurnHash> = Vec::new();
        assert(items::views(hashes@) =~= Seq::empty());
        Some(
            DumpRequest {
                init_attributes: vstd::slice::slice_to_vec(settings.json.as_slice()),
                engine_version: utils::copy_text(SIMULATION_VERSION),
                mods: items::copy_items(&self.config.enabled_mods),
                base,
                turn_lengths: self.turn_lengths(first, turn, settings.turn_length_ms as u16),
                commands: self.commands_between(first, turn),
                hashes,
            },
        )
    }

    pub fn match_record(&self, settings: Option<&FrozenSettings>, turn: u32) -> (r: Option<
        DumpRequest,
    >)
        ensures
            utils::seen(r) == self@.record(frozen(settings), turn),
    {
        let base = match self.checkpoints.at_or_before(turn) {
            Some(b) => Some(b.clone()),
            None => None,
        };
        self.match_record_from(settings, base, turn)
    }

    /// Asks for a run that rebuilds the state at `turn` for a joiner. False
    /// means no dump was started and the caller should try the next source.
    pub fn request_state_dump(
        &mut self,
        settings: Option<&FrozenSettings>,
        joiner: PeerID,
        turn: u32,
    ) -> (r: bool)
        requires
            old(self).wf(),
        ensures
            r == old(self)@.can_dump(frozen(settings), turn),
            final(self)@ == if r {
                old(self)@.dump_requested(frozen(settings), joiner, turn)
            } else {
                old(self)@
            },
            final(self).wf(),
    {
        if !self.config.sidecar_dumps || turn < 1 {
            return false;
        }
        if settings.is_none() {
            return false;
        }
        if let Some(mut dump) = self.dump.take() {
            dump.waiting.push(joiner);
            self.dump = Some(dump);
            return true;
        }
        let request = match self.match_record(settings, turn) {
            Some(request) => request,
            None => return false,
        };
        let id: u32 = self.next_dump_id;
        self.next_dump_id = number_after(id);
        let mut waiting: Vec<PeerID> = Vec::new();
        waiting.push(joiner);
        assert(waiting@ =~= seq![joiner]);
        self.dump = Some(PendingDump { id, turn, waiting });
        self.push_effect(Effect::StateDump { id, turn, request });
        true
    }

    pub fn deliver_snapshot(
        &mut self,
        settings: Option<&FrozenSettings>,
        joiner: PeerID,
        snapshot: Arc<Vec<u8>>,
        bound: u32,
    )
        requires
            old(self).wf(),
        ensures
            final(self)@ == old(self)@.delivered(frozen(settings), joiner, snapshot@, bound),
            final(self).wf(),
            final(self)@ == (Ctx {
                effects: final(self)@.effects,
                transfers: final(self)@.transfers,
                feed: final(self)@.feed,
                ..old(self)@
            }),
    {
        proof {
            reveal(Ctx::delivered);
        }
        let settings = match settings {
            Some(s) => s,
            None => return ,
        };
        let join = Join {
            init_attributes: vstd::slice::slice_to_vec(settings.json.as_slice()),
        };
        if self.is_delayed_peer(joiner) {
            self.feed.hold_join(joiner, bound, join, snapshot);
            self.advance_feed();
        } else {
            self.transfers.grant(joiner, snapshot);
            self.send(joiner, WireMessage::Join(join));
        }
    }

    fn best_source(&self, joiner: PeerID, delayed: bool) -> (r: Option<(PeerID, SourceRank)>)
        ensures
            r == self@.best_source(self@.sessions, joiner, delayed),
    {
        let ghost all = self.sessions@;
        let mut best: Option<(PeerID, SourceRank)> = None;
        let mut i: usize = 0;
        assert(all.take(0) =~= Seq::empty());
        while i < self.sessions.rows.len()
            invariant
                all == self.sessions@,
                i <= self.sessions.rows@.len(),
                best == self@.best_source(all.take(i as int), joiner, delayed),
            decreases self.sessions.rows@.len() - i,
        {
            proof {
                assert(all[i as int] == table::row_view(self.sessions.rows@[i as int]));
                assert(all.take(i + 1).drop_last() =~= all.take(i as int));
                assert(all.take(i + 1).last() == all[i as int]);
            }
            let peer = self.sessions.rows[i].0;
            let s = &self.sessions.rows[i].1;
            if peer.0 != joiner.0 && s.is_in_game() && !self.is_ai_host(peer) {
                let rank = SourceRank {
                    other_feed: self.turns.is_delayed(peer) != delayed,
                    desynced: self.turns.is_out_of_sync(peer),
                    mean_rtt: s.mean_rtt,
                };
                let keep = match best {
                    Some((_, r)) => !rank.comes_before(r),
                    None => false,
                };
                if !keep {
                    best = Some((peer, rank));
                }
            }
            i += 1;
        }
        assert(all.take(i as int) =~= all);
        best
    }

    pub fn start_snapshot_fetch(
        &mut self,
        settings: Option<&FrozenSettings>,
        joiner: PeerID,
        allow_dump: bool,
    )
        requires
            old(self).wf(),
        ensures
            final(self)@ == old(self)@.snapshot_sought(frozen(settings), joiner, allow_dump),
            final(self).wf(),
    {
        proof {
            reveal(Ctx::snapshot_sought);
        }
        let delayed = self.is_delayed_peer(joiner);
        let newest_usable: u32 = if delayed {
            self.feed.head()
        } else {
            u32::MAX
        };
        let base = match self.checkpoints.at_or_before(newest_usable) {
            Some(b) => Some(b.clone()),
            None => None,
        };
        if let Some(base) = base {
            self.deliver_snapshot(settings, joiner, base.state, base.turn);
            return ;
        }
        let head: u32 = self.feed.head();
        if allow_dump && delayed && self.request_state_dump(settings, joiner, head) {
            return ;
        }
        let source = match self.best_source(joiner, delayed) {
            Some((source, _)) => source,
            None => {
                let ready: u32 = self.turns.ready_turn();
                if allow_dump && self.request_state_dump(settings, joiner, ready) {
                    return ;
                }
                self.disconnect(joiner, DisconnectReason::MatchInProgress);
                return ;
            },
        };
        let request_id: u32 = self.transfers.allocate();
        self.transfers.expect(source, request_id, Purpose::JoinSnapshot { joiner });
        self.send(
            source,
            WireMessage::GamestateRequest(
                GamestateRequest { request_type: KIND_RUNNING_GAME, request_id },
            ),
        );
    }

    pub fn is_syncing_peer(&self, peer: PeerID) -> (r: bool)
        ensures
            r == self@.is_syncing_peer(peer),
    {
        match self.sessions.get(&peer) {
            Some(s) => s.is_syncing(),
            None => false,
        }
    }

    /// Finds another source for joiners whose source has left.
    pub fn resource(&mut self, settings: Option<&FrozenSettings>, joiners: &Vec<PeerID>)
        requires
            old(self).wf(),
        ensures
            final(self)@ == old(self)@.all_resought(frozen(settings), joiners@),
            final(self).wf(),
    {
        proof {
            reveal(Ctx::all_resought);
        }
        let ghost c = self@;
        let mut i: usize = 0;
        assert(joiners@.take(0) =~= Seq::empty());
        while i < joiners.len()
            invariant
                c == old(self)@,
                self.wf(),
                i <= joiners@.len(),
                self@ == c.all_resought(frozen(settings), joiners@.take(i as int)),
            decreases joiners@.len() - i,
        {
            proof {
                reveal(Ctx::all_resought);
                assert(joiners@.take(i + 1).drop_last() =~= joiners@.take(i as int));
                assert(joiners@.take(i + 1).last() == joiners@[i as int]);
            }
            if self.is_syncing_peer(joiners[i]) {
                self.start_snapshot_fetch(settings, joiners[i], true);
            }
            i += 1;
        }
        assert(joiners@.take(i as int) =~= joiners@);
    }

    fn send_chunks(&mut self, peer: PeerID, chunks: &Vec<GamestateChunk>)
        ensures
            final(self)@ == old(self)@.chunks_sent(peer, items::views(chunks@)),
    {
        let ghost c = self@;
        let ghost all = items::views(chunks@);
        let mut i: usize = 0;
        assert(c.effects + chunk_sends(peer, all.take(0)) =~= c.effects);
        while i < chunks.len()
            invariant
                c == old(self)@,
                all == items::views(chunks@),
                i <= chunks@.len(),
                self@ == c.chunks_sent(peer, all.take(i as int)),
            decreases chunks@.len() - i,
        {
            self.send(peer, WireMessage::GamestateChunk(chunks[i].clone()));
            proof {
                let more = chunk_sends(peer, all.take(i + 1));
                assert(more =~= chunk_sends(peer, all.take(i as int)).push(
                    EffectView::Send {
                        peer,
                        msg: WireMessageView::GamestateChunk(chunks@[i as int]@),
                    },
                ));
                assert(self@.effects =~= c.effects + more);
            }
            i += 1;
        }
        assert(all.take(i as int) =~= all);
    }

    pub fn on_gamestate_request(&mut self, peer: PeerID, msg: GamestateRequest)
        requires
            old(self).wf(),
        ensures
            final(self)@ == old(self)@.state_asked_for(peer, msg),
            final(self).wf(),
    {
        proof {
            reveal(Ctx::state_asked_for);
        }
        if msg.request_type != KIND_RUNNING_GAME {
            return ;
        }
        let data = match self.transfers.take_grant(peer) {
            Some(data) => data,
            None => return ,
        };
        if let Some((length, chunks)) = self.transfers.begin_send(peer, msg.request_id, data) {
            self.send(
                peer,
                WireMessage::GamestateResponse(
                    GamestateResponse { request_id: msg.request_id, length },
                ),
            );
            self.send_chunks(peer, &chunks);
        }
    }

    pub fn on_gamestate_response(&mut self, peer: PeerID, msg: GamestateResponse)
        requires
            old(self).wf(),
        ensures
            final(self)@ == old(self)@.state_promised(peer, msg),
            final(self).wf(),
    {
        proof {
            reveal(Ctx::state_promised);
        }
        match self.transfers.on_response(peer, msg.request_id, msg.length) {
            Ok(_) => {},
            Err(fault) => self.fault(peer, fault),
        }
    }

    /// Returns what a completed transfer was for, so the phase that cares can
    /// act on it.
    pub fn on_gamestate_chunk(&mut self, peer: PeerID, msg: &GamestateChunk) -> (r: Option<
        TransferDone,
    >)
        requires
            old(self).wf(),
        ensures
            final(self)@ == old(self)@.chunk_taken(peer, msg@),
            utils::seen(r) == old(self)@.chunk_done(peer, msg@),
            final(self).wf(),
    {
        proof {
            reveal(Ctx::chunk_taken);
        }
        if !self.transfers.knows_incoming(peer, msg.request_id) {
            self.fault(peer, PeerFault::WrongPhase);
            return None;
        }
        self.send(
            peer,
            WireMessage::GamestateChunkAck(
                GamestateChunkAck { request_id: msg.request_id, num_packets: 1 },
            ),
        );
        match self.transfers.on_chunk(peer, msg.request_id, msg.data.as_slice()) {
            Ok(Some((Purpose::JoinSnapshot { joiner }, state))) => Some(
                TransferDone::JoinSnapshot { joiner, state },
            ),
            Ok(Some((Purpose::Savegame, state))) => Some(TransferDone::Savegame(state)),
            Ok(None) => None,
            Err(fault) => {
                self.fault(peer, fault);
                None
            },
        }
    }

    pub fn on_gamestate_chunk_ack(&mut self, peer: PeerID, msg: GamestateChunkAck)
        requires
            old(self).wf(),
        ensures
            final(self)@ == old(self)@.chunks_acked(peer, msg),
            final(self).wf(),
    {
        proof {
            reveal(Ctx::chunks_acked);
        }
        let chunks = self.transfers.on_ack(peer, msg.request_id, msg.num_packets);
        self.send_chunks(peer, &chunks);
    }

    pub fn on_snapshot_chunk(
        &mut self,
        settings: Option<&FrozenSettings>,
        peer: PeerID,
        msg: &GamestateChunk,
    )
        requires
            old(self).wf(),
        ensures
            final(self)@ == old(self)@.snapshot_chunk_taken(frozen(settings), peer, msg@),
            final(self).wf(),
    {
        proof {
            reveal(Ctx::snapshot_chunk_taken);
        }
        if let Some(TransferDone::JoinSnapshot { joiner, state }) = self.on_gamestate_chunk(
            peer,
            msg,
        ) {
            let bound: u32 = if self.turns.is_delayed(peer) {
                self.feed.head()
            } else {
                self.turns.ready_turn()
            };
            self.deliver_snapshot(settings, joiner, Arc::new(state), bound);
        }
    }

    fn deliver_all(
        &mut self,
        settings: Option<&FrozenSettings>,
        joiners: &Vec<PeerID>,
        state: Vec<u8>,
        turn: u32,
    )
        requires
            old(self).wf(),
        ensures
            final(self)@ == old(self)@.all_delivered(frozen(settings), joiners@, state@, turn),
            final(self).wf(),
    {
        let ghost c = self@;
        let ghost bytes = state@;
        let snapshot = Arc::new(state);
        let mut i: usize = 0;
        assert(joiners@.take(0) =~= Seq::empty());
        while i < joiners.len()
            invariant
                c == old(self)@,
                self.wf(),
                snapshot@ == bytes,
                i <= joiners@.len(),
                self@ == c.all_delivered(
                    frozen(settings),
                    joiners@.take(i as int),
                    bytes,
                    turn,
                ),
            decreases joiners@.len() - i,
        {
            proof {
                assert(joiners@.take(i + 1).drop_last() =~= joiners@.take(i as int));
                assert(joiners@.take(i + 1).last() == joiners@[i as int]);
            }
            if self.is_syncing_peer(joiners[i]) {
                self.deliver_snapshot(settings, joiners[i], snapshot.clone(), turn);
            }
            i += 1;
        }
        assert(joiners@.take(i as int) =~= joiners@);
    }

    fn let_down_all(&mut self, settings: Option<&FrozenSettings>, joiners: &Vec<PeerID>)
        requires
            old(self).wf(),
        ensures
            final(self)@ == old(self)@.all_let_down(frozen(settings), joiners@),
            final(self).wf(),
    {
        let ghost c = self@;
        let mut i: usize = 0;
        assert(joiners@.take(0) =~= Seq::empty());
        while i < joiners.len()
            invariant
                c == old(self)@,
                self.wf(),
                i <= joiners@.len(),
                self@ == c.all_let_down(frozen(settings), joiners@.take(i as int)),
            decreases joiners@.len() - i,
        {
            proof {
                assert(joiners@.take(i + 1).drop_last() =~= joiners@.take(i as int));
                assert(joiners@.take(i + 1).last() == joiners@[i as int]);
            }
            if self.is_syncing_peer(joiners[i]) {
                if self.is_delayed_peer(joiners[i]) {
                    self.start_snapshot_fetch(settings, joiners[i], false);
                } else {
                    self.disconnect(joiners[i], DisconnectReason::MatchInProgress);
                }
            }
            i += 1;
        }
        assert(joiners@.take(i as int) =~= joiners@);
    }

    pub fn on_state_dumped(
        &mut self,
        settings: Option<&FrozenSettings>,
        id: u32,
        state: Option<Vec<u8>>,
    )
        requires
            old(self).wf(),
        ensures
            final(self)@ == old(self)@.state_dumped(
                frozen(settings),
                id,
                utils::seen(state),
            ),
            final(self).wf(),
    {
        proof {
            reveal(Ctx::state_dumped);
        }
        let ours = match &self.dump {
            Some(dump) => dump.id == id,
            None => false,
        };
        if !ours {
            return ;
        }
        if let Some(dump) = self.dump.take() {
            match state {
                Some(bytes) => self.deliver_all(settings, &dump.waiting, bytes, dump.turn),
                None => self.let_down_all(settings, &dump.waiting),
            }
        }
    }
}

} // verus!
