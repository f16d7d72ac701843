//! How a joiner comes by the state of the match, and what is kept so that it
//! can be built anew.

use vstd::prelude::*;

use crate::network_message::PeerID;
use crate::relay::gamestate_transfer;
use crate::relay::gamestate_transfer::Purpose;
use crate::relay::gamestate_transfer::TransfersView;
use crate::relay::gamestate_transfer::KIND_RUNNING_GAME;
use crate::relay::gamestate_transfer::MAX_TRANSFER;
use crate::relay::gamestate_transfer::WINDOW;
use crate::relay::messages::items;
use crate::relay::messages::GamestateChunkAck;
use crate::relay::messages::GamestateChunkView;
use crate::relay::messages::GamestateRequest;
use crate::relay::messages::GamestateResponse;
use crate::relay::messages::JoinView;
use crate::relay::messages::PlayerCommandView;
use crate::relay::messages::WireMessageView;
use crate::relay::server_fsm::admission;
use crate::relay::server_fsm::config::SIMULATION_VERSION;
use crate::relay::server_fsm::context;
use crate::relay::server_fsm::context::Ctx;
use crate::relay::server_fsm::delivery;
use crate::relay::server_fsm::event::EffectView;
use crate::relay::server_fsm::event::Phase;
use crate::relay::server_fsm::laws;
use crate::relay::server_fsm::phases::AnyView;
use crate::relay::server_fsm::playing;
use crate::relay::server_fsm::reason::DisconnectReason;
use crate::relay::server_fsm::settings::Frozen;
use crate::relay::server_fsm::snapshot;
use crate::relay::session::Role;
use crate::relay::session::SessionView;
use crate::relay::turn::Log;
use crate::relay::turn::INITIAL_READY_TURN;
use crate::sidecar;
use crate::sidecar::BaseStateView;
use crate::sidecar::TurnHashView;
use crate::table;
use crate::table::TransferKey;
use crate::utils;

verus! {

/// The bytes that the chunks among these messages carry, put together.
pub open spec fn carried_bytes(msgs: Seq<WireMessageView>) -> Seq<u8>
    decreases msgs.len(),
{
    if msgs.len() == 0 {
        Seq::empty()
    } else {
        let before = carried_bytes(msgs.drop_last());
        match msgs.last() {
            WireMessageView::GamestateChunk(c) => before + c.data,
            _ => before,
        }
    }
}

spec fn as_chunks(request_id: u32, pieces: Seq<Seq<u8>>) -> Seq<WireMessageView> {
    pieces.map_values(
        |data: Seq<u8>| WireMessageView::GamestateChunk(GamestateChunkView { request_id, data }),
    )
}

proof fn lemma_carried_bytes(request_id: u32, pieces: Seq<Seq<u8>>)
    ensures
        carried_bytes(as_chunks(request_id, pieces)) == gamestate_transfer::joined(pieces),
    decreases pieces.len(),
{
    if pieces.len() > 0 {
        lemma_carried_bytes(request_id, pieces.drop_last());
        let all = as_chunks(request_id, pieces);
        assert(all.drop_last() =~= as_chunks(request_id, pieces.drop_last()));
    }
}

impl Ctx {
    /// A snapshot for a joiner that is not on the delayed feed is theirs to
    /// fetch, just as it is, and they are told to join with the attributes the
    /// match was started with; nobody else notices.
    pub proof fn snapshots_are_handed_over(
        self,
        settings: Frozen,
        joiner: PeerID,
        bytes: Seq<u8>,
        bound: u32,
        p: PeerID,
    )
        requires
            !self.is_delayed_peer(joiner),
        ensures
            ({
                let later = self.delivered(Some(settings), joiner, bytes, bound);
                &&& table::lookup(later.transfers.granted, joiner) == Some(bytes)
                &&& laws::grows(self.effects, later.effects)
                &&& self.hears(later, p) == (if p == joiner {
                    seq![WireMessageView::Join(JoinView { init_attributes: settings.json })]
                } else {
                    Seq::empty()
                })
            }),
    {
        reveal(Ctx::delivered);
        table::lemma_with_row_lookup(self.transfers.granted, joiner, bytes, joiner);
        let mid = Ctx { transfers: self.transfers.granting(joiner, bytes), ..self };
        mid.lemma_sent_heard(
            joiner,
            WireMessageView::Join(JoinView { init_attributes: settings.json }),
            p,
        );
    }

    /// A joiner that asks for the state it was granted is told how long it is
    /// and then sent the beginning of it, in chunks under the number it asked
    /// with; and the grant is used up.
    pub proof fn grants_are_served(
        self,
        phase: Phase,
        settings: Option<Frozen>,
        peer: PeerID,
        m: GamestateRequest,
        issued: Option<Seq<char>>,
        data: Seq<u8>,
    )
        requires
            table::distinct(self.transfers.granted),
            m.request_type == KIND_RUNNING_GAME,
            table::lookup(self.transfers.granted, peer) == Some(data),
            0 < data.len() <= MAX_TRANSFER,
        ensures
            ({
                let msg = WireMessageView::GamestateRequest(m);
                let later = self.common_message(phase, settings, peer, msg, issued);
                let heard = self.hears(later, peer);
                let sent = carried_bytes(heard.skip(1));
                &&& heard.len() > 1
                &&& heard[0] == WireMessageView::GamestateResponse(
                    GamestateResponse { request_id: m.request_id, length: data.len() as u32 },
                )
                &&& forall|k: int|
                    1 <= k < heard.len() ==> ((#[trigger] heard[k])
                        matches WireMessageView::GamestateChunk(c) && c.request_id == m.request_id)
                &&& 0 < sent.len() <= data.len()
                &&& sent == data.take(sent.len() as int)
                &&& table::lookup(later.transfers.granted, peer) is None
            }),
    {
        reveal(Ctx::common_message);
        reveal(Ctx::state_asked_for);
        let key = TransferKey { peer, request_id: m.request_id };
        let taken = Ctx { transfers: self.transfers.grant_taken(peer), ..self };
        table::lemma_without_row_distinct(self.transfers.granted, peer);
        let mid = Ctx { transfers: taken.transfers.sending(key, data), ..taken };
        let answer = WireMessageView::GamestateResponse(
            GamestateResponse { request_id: m.request_id, length: data.len() as u32 },
        );
        let begun = mid.sent(peer, answer);
        let pieces = TransfersView::begun(data).pieces();
        gamestate_transfer::chunks_are_the_data(data, 0, WINDOW as int);
        reveal_with_fuel(gamestate_transfer::chunks_from, 2);
        assert(pieces.len() > 0);
        let msgs = as_chunks(m.request_id, pieces);
        let chunks = gamestate_transfer::carried(m.request_id, pieces);
        let later = begun.chunks_sent(peer, chunks);
        assert(snapshot::chunk_sends(peer, chunks) =~= playing::sends_to(peer, msgs));
        mid.lemma_sent_heard(peer, answer, peer);
        delivery::lemma_told_sends_to(peer, msgs, peer);
        assert(later.effects.skip(begun.effects.len() as int) =~= playing::sends_to(peer, msgs));
        mid.lemma_hears_then(begun, later, peer);
        let heard = self.hears(later, peer);
        assert(heard == mid.hears(later, peer));
        assert(heard =~= seq![answer] + msgs);
        assert(heard.skip(1) =~= msgs);
        lemma_carried_bytes(m.request_id, pieces);
        let sent = carried_bytes(heard.skip(1));
        assert(pieces[0].len() > 0);
        lemma_joined_len(pieces);
        assert(sent =~= data.take(sent.len() as int));
    }

    /// A chunk of a snapshot that completes it hands what came in, put
    /// together, to the joiner it was asked for; and every chunk of a transfer
    /// that is under way is acknowledged, once.
    pub proof fn completed_snapshots_go_on(
        self,
        phase: Phase,
        settings: Frozen,
        peer: PeerID,
        m: GamestateChunkView,
        issued: Option<Seq<char>>,
        joiner: PeerID,
    )
        requires
            joiner != peer,
            !self.is_delayed_peer(joiner),
            table::lookup(
                self.transfers.incoming,
                TransferKey { peer, request_id: m.request_id },
            ) matches Some(rx) && rx.purpose == (Purpose::JoinSnapshot { joiner })
                && rx.buf.len() + m.data.len() == rx.declared,
        ensures
            ({
                let msg = WireMessageView::GamestateChunk(m);
                let later = self.match_message(phase, settings, peer, msg, issued);
                let rx = table::lookup(
                    self.transfers.incoming,
                    TransferKey { peer, request_id: m.request_id },
                )->0;
                &&& table::lookup(later.transfers.granted, joiner) == Some(rx.buf + m.data)
                &&& self.hears(later, joiner) == seq![
                    WireMessageView::Join(JoinView { init_attributes: settings.json }),
                ]
                &&& self.hears(later, peer) == seq![
                    WireMessageView::GamestateChunkAck(
                        GamestateChunkAck { request_id: m.request_id, num_packets: 1 },
                    ),
                ]
            }),
    {
        reveal(Ctx::match_message);
        reveal(Ctx::snapshot_chunk_taken);
        reveal(Ctx::chunk_taken);
        let key = TransferKey { peer, request_id: m.request_id };
        let rx = table::lookup(self.transfers.incoming, key)->0;
        let ack = WireMessageView::GamestateChunkAck(
            GamestateChunkAck { request_id: m.request_id, num_packets: 1 },
        );
        let acked = self.sent(peer, ack);
        self.lemma_sent_heard(peer, ack, joiner);
        self.lemma_sent_heard(peer, ack, peer);
        let after = self.chunk_taken(peer, m);
        let bound = if after.turns.is_delayed(peer) {
            after.feed.head
        } else {
            after.turns.ready
        };
        let state = rx.buf + m.data;
        assert(self.chunk_done(peer, m) == Some(
            snapshot::TransferDoneView::JoinSnapshot { joiner, state },
        ));
        assert(after.effects == acked.effects);
        assert(self.hears(after, peer) == self.hears(acked, peer));
        assert(self.hears(after, joiner) == self.hears(acked, joiner));
        after.snapshots_are_handed_over(settings, joiner, state, bound, joiner);
        after.snapshots_are_handed_over(settings, joiner, state, bound, peer);
        let later = after.delivered(Some(settings), joiner, state, bound);
        self.lemma_hears_then(after, later, joiner);
        self.lemma_hears_then(after, later, peer);
        assert(self.hears(later, joiner) =~= after.hears(later, joiner));
        assert(self.hears(later, peer) =~= self.hears(after, peer));
    }
}

proof fn lemma_joined_len(pieces: Seq<Seq<u8>>)
    ensures
        pieces.len() > 0 ==> gamestate_transfer::joined(pieces).len() >= pieces[0].len(),
    decreases pieces.len(),
{
    reveal_with_fuel(gamestate_transfer::joined, 2);
    if pieces.len() > 1 {
        lemma_joined_len(pieces.drop_last());
    }
}

/// Whether a session can be asked for the state of the match: it is in it, it
/// is not the joiner, and it is not the AI host.
pub open spec fn has_the_state(c: Ctx, row: (PeerID, SessionView), joiner: PeerID) -> bool {
    &&& row.0 != joiner
    &&& row.1.admitted matches Some(a) && a.role == Role::InGame
    &&& !(c.ai_host matches Some(ai) && ai.peer == Some(row.0))
}

/// Whether one session is a better source than another: above all one on the
/// joiner's own feed, then one that agrees with the others, then the quicker.
pub open spec fn is_better(
    c: Ctx,
    a: (PeerID, SessionView),
    b: (PeerID, SessionView),
    delayed: bool,
) -> bool {
    let (a_feed, b_feed) = (
        delivery::on_feed(c.turns.clients, a.0) == delayed,
        delivery::on_feed(c.turns.clients, b.0) == delayed,
    );
    let (a_off, b_off) = (
        table::lookup(c.turns.clients, a.0) matches Some(x) && x.out_of_sync,
        table::lookup(c.turns.clients, b.0) matches Some(x) && x.out_of_sync,
    );
    ||| a_feed && !b_feed
    ||| a_feed == b_feed && !a_off && b_off
    ||| a_feed == b_feed && a_off == b_off && a.1.mean_rtt < b.1.mean_rtt
}

impl Ctx {
    /// Whoever is asked for the state of the match has it, and nobody who has
    /// it would be a better source; nobody is asked only where nobody has it.
    pub proof fn sources_are_the_best(
        self,
        rows: Seq<(PeerID, SessionView)>,
        joiner: PeerID,
        delayed: bool,
    )
        ensures
            match self.best_source(rows, joiner, delayed) {
                Some((source, _)) => exists|i: int|
                    #![trigger rows[i]]
                    0 <= i < rows.len() && rows[i].0 == source && has_the_state(
                        self,
                        rows[i],
                        joiner,
                    ) && forall|j: int|
                        #![trigger rows[j]]
                        0 <= j < rows.len() && has_the_state(self, rows[j], joiner)
                            ==> !is_better(self, rows[j], rows[i], delayed),
                None => forall|j: int|
                    #![trigger rows[j]]
                    0 <= j < rows.len() ==> !has_the_state(self, rows[j], joiner),
            },
    {
        self.lemma_best(rows, joiner, delayed);
    }

    proof fn lemma_best(
        self,
        rows: Seq<(PeerID, SessionView)>,
        joiner: PeerID,
        delayed: bool,
    ) -> (at: int)
        ensures
            match self.best_source(rows, joiner, delayed) {
                Some((source, rank)) => {
                    &&& 0 <= at < rows.len()
                    &&& rows[at].0 == source
                    &&& rank == self.source_rank(rows[at], delayed)
                    &&& has_the_state(self, rows[at], joiner)
                    &&& forall|j: int|
                        #![trigger rows[j]]
                        0 <= j < rows.len() && has_the_state(self, rows[j], joiner)
                            ==> !is_better(self, rows[j], rows[at], delayed)
                },
                None => forall|j: int|
                    #![trigger rows[j]]
                    0 <= j < rows.len() ==> !has_the_state(self, rows[j], joiner),
            },
        decreases rows.len(),
    {
        if rows.len() == 0 {
            0
        } else {
            let rest = rows.drop_last();
            let last = rows.last();
            let before = self.lemma_best(rest, joiner, delayed);
            assert(rows[rows.len() - 1] == last);
            assert forall|j: int| 0 <= j < rest.len() implies rest[j] == #[trigger] rows[j] by {}
            if self.best_source(rest, joiner, delayed) == self.best_source(rows, joiner, delayed)
                && self.best_source(rest, joiner, delayed) is Some && !(self.can_source(
                last,
                joiner,
            ) && self.source_rank(last, delayed).before(
                self.source_rank(rows[before], delayed),
            )) {
                before
            } else {
                rows.len() - 1
            }
        }
    }

    /// A joiner that no checkpoint and no run serves is served by the best
    /// source there is: that client is asked for the state, under a number by
    /// which what it sends is the joiner's. Where there is no source, and no
    /// run to be had, the joiner is sent away.
    pub proof fn someone_is_asked(self, settings: Option<Frozen>, joiner: PeerID)
        requires
            table::lookup(self.sessions, joiner) matches Some(s) && s.admitted is Some,
            context::newest_at(
                self.checkpoints.states,
                if self.is_delayed_peer(joiner) {
                    self.feed.head
                } else {
                    u32::MAX
                },
            ) is None,
        ensures
            ({
                let later = self.snapshot_sought(settings, joiner, false);
                match self.best_source(self.sessions, joiner, self.is_delayed_peer(joiner)) {
                    Some((source, _)) => {
                        &&& self.hears(later, source).len() == 1
                        &&& self.hears(later, source)[0]
                            matches WireMessageView::GamestateRequest(m)
                        &&& m.request_type == KIND_RUNNING_GAME
                        &&& table::lookup(
                            later.transfers.incoming,
                            TransferKey { peer: source, request_id: m.request_id },
                        ) matches Some(rx)
                        &&& rx.purpose == (Purpose::JoinSnapshot { joiner })
                        &&& rx.buf.len() == 0
                    },
                    None => later.effects.last() == (EffectView::Disconnect {
                        peer: joiner,
                        reason: DisconnectReason::MatchInProgress,
                    }),
                }
            }),
    {
        reveal(Ctx::snapshot_sought);
        reveal(Ctx::dropped);
        let delayed = self.is_delayed_peer(joiner);
        if let Some((source, _)) = self.best_source(self.sessions, joiner, delayed) {
            let id = self.transfers.next_id();
            let key = TransferKey { peer: source, request_id: id };
            let asking = self.transfers.allocated().expecting(
                key,
                Purpose::JoinSnapshot { joiner },
            );
            table::lemma_index_of(self.transfers.incoming, key);
            table::lemma_with_row_lookup(
                self.transfers.incoming,
                key,
                gamestate_transfer::IncomingView {
                    purpose: Purpose::JoinSnapshot { joiner },
                    declared: 0,
                    buf: Seq::empty(),
                    last_progress: None,
                },
                key,
            );
            let mid = Ctx { transfers: asking, ..self };
            mid.lemma_sent_heard(
                source,
                WireMessageView::GamestateRequest(
                    GamestateRequest { request_type: KIND_RUNNING_GAME, request_id: id },
                ),
                source,
            );
        }
    }

    /// What a run is handed rebuilds the match: the attributes it was started
    /// with, every command that was recorded of the turns between the state it
    /// resumes from and the one it is to reach, unchanged and in order, and how
    /// long each of those turns was.
    pub proof fn records_hold_the_match(
        self,
        settings: Frozen,
        base: Option<BaseStateView>,
        turn: u32,
        t: u32,
    )
        requires
            sidecar::base_turn(base) <= turn,
        ensures
            ({
                let from = match base {
                    Some(b) => b.turn,
                    None => 0,
                };
                let r = self.record_from(Some(settings), base, turn)->0;
                &&& self.record_from(Some(settings), base, turn) is Some
                &&& r.init_attributes == settings.json
                &&& r.engine_version == SIMULATION_VERSION@
                &&& r.mods == items::views(self.config.enabled_mods@)
                &&& r.base == base
                &&& delivery::of_turn(r.commands, t) == (if from < t <= turn {
                    delivery::of_turn(self.log.commands, t)
                } else {
                    Seq::empty()
                })
                &&& forall|i: int, j: int|
                    0 <= i < j < r.commands.len() ==> (#[trigger] r.commands[i]).turn <= (
                    #[trigger] r.commands[j]).turn
                &&& r.turn_lengths.len() == turn - from
                &&& from < t <= turn ==> r.turn_lengths[t - from - 1] == (match table::lookup(
                    self.log.turn_lengths,
                    t,
                ) {
                    Some(length) => length,
                    None => settings.turn_length_ms as u16,
                })
            }),
    {
        let from = sidecar::base_turn(base);
        lemma_commands_between(self.log, from, turn, t);
        lemma_lengths(self.log, from, turn, settings.turn_length_ms as u16, t);
    }
}

proof fn lemma_commands_between(log: Log, from: u32, to: u32, t: u32)
    ensures
        ({
            let all = snapshot::commands_between(log, from, to);
            &&& delivery::of_turn(all, t) == (if from < t <= to {
                delivery::of_turn(log.commands, t)
            } else {
                Seq::empty()
            })
            &&& forall|i: int|
                0 <= i < all.len() ==> from < (#[trigger] all[i]).turn <= to
            &&& forall|i: int, j: int|
                0 <= i < j < all.len() ==> (#[trigger] all[i]).turn <= (#[trigger] all[j]).turn
        }),
    decreases to,
{
    if to > from {
        let before = snapshot::commands_between(log, from, (to - 1) as u32);
        let here = log.commands_for(to);
        lemma_commands_between(log, from, (to - 1) as u32, t);
        delivery::lemma_of_turn_is(log, to);
        delivery::lemma_of_turn_all(log.commands, to);
        delivery::lemma_of_turn_add(before, here, t);
        assert forall|i: int| 0 <= i < here.len() implies (#[trigger] here[i]).turn == to by {
            assert(here.contains(here[i]));
        }
        if t == to {
            delivery::lemma_whole_of(here, t);
            assert(Seq::<PlayerCommandView>::empty() + here =~= here);
        } else {
            delivery::lemma_none_of(here, t);
            assert(delivery::of_turn(before, t) + Seq::<PlayerCommandView>::empty()
                =~= delivery::of_turn(before, t));
        }
    }
}

proof fn lemma_lengths(log: Log, from: u32, to: u32, default: u16, t: u32)
    requires
        from <= to,
    ensures
        ({
            let all = snapshot::lengths(log, from, to, default);
            &&& all.len() == to - from
            &&& from < t <= to ==> all[t - from - 1] == (match table::lookup(
                log.turn_lengths,
                t,
            ) {
                Some(length) => length,
                None => default,
            })
        }),
    decreases to,
{
    if to > from {
        lemma_lengths(log, from, (to - 1) as u32, default, t);
    }
}

/// The hashes that go with a record are those that were agreed on for the turns
/// it covers, each under its turn, and no others.
pub proof fn records_hold_the_hashes(
    references: Seq<(u32, Seq<u8>)>,
    after: u32,
    through: u32,
    h: TurnHashView,
)
    ensures
        playing::hashes_between(references, after, through).contains(h) == (after < h.turn
            <= through && table::lookup(references, h.turn) == Some(h.hash)),
    decreases through,
{
    if through > after {
        records_hold_the_hashes(references, after, (through - 1) as u32, h);
        if let Some(hash) = table::lookup(references, through) {
            utils::lemma_pushed(
                playing::hashes_between(references, after, (through - 1) as u32),
                TurnHashView { turn: through, hash },
                h,
            );
        }
    }
}

impl Ctx {
    /// A checkpoint is asked for once the match has run a whole interval past
    /// the last one, while none is under way and they have not been given up;
    /// it is to reach the newest released turn, from the last one on. One that
    /// is not due changes nothing.
    pub proof fn checkpoints_are_asked_for(self, settings: Frozen)
        requires
            !self.checkpoints.prefetch,
            self.checkpoints.probe is None,
        ensures
            ({
                let later = self.checkpointing(settings);
                let last = if self.checkpoints.states.len() == 0 {
                    0
                } else {
                    self.checkpoints.states.last().turn
                };
                let every = self.config.checkpoint_interval_turns;
                let may = self.config.sidecar_dumps && every != 0 && !self.checkpoints.disabled
                    && self.checkpoints.pending is None;
                &&& may && self.turns.ready >= last + every ==> {
                    &&& later.effects.len() == self.effects.len() + 1
                    &&& later.effects.last() matches EffectView::Checkpoint { id, turn, request }
                    &&& turn == self.turns.ready
                    &&& later.checkpoints.pending matches Some(asked)
                    &&& asked.id == id
                    &&& asked.turn == turn
                    &&& sidecar::base_turn(request.base) == last
                    &&& request.init_attributes == settings.json
                }
                &&& !may || (self.turns.ready < last + every && self.turns.ready < u32::MAX)
                    ==> later == self
            }),
    {
        reveal(Ctx::checkpointing);
    }
}

impl Ctx {
    proof fn lemma_delivered_keeps(
        self,
        settings: Option<Frozen>,
        joiner: PeerID,
        bytes: Seq<u8>,
        bound: u32,
    )
        ensures
            ({
                let later = self.delivered(settings, joiner, bytes, bound);
                later == (Ctx {
                    effects: later.effects,
                    transfers: later.transfers,
                    feed: later.feed,
                    ..self
                })
            }),
            laws::grows(
                self.effects,
                self.delivered(settings, joiner, bytes, bound).effects,
            ),
    {
        reveal(Ctx::delivered);
        self.lemma_delivered_remembers(settings, joiner, bytes, bound);
        if let Some(f) = settings {
            let join = JoinView { init_attributes: f.json };
            Ctx {
                feed: self.feed.with_join(joiner, bound, join, bytes),
                ..self
            }.lemma_feed_keeps();
        }
    }

    proof fn lemma_all_delivered(
        self,
        settings: Frozen,
        joiners: Seq<PeerID>,
        bytes: Seq<u8>,
        turn: u32,
        p: PeerID,
    )
        requires
            !self.is_delayed_peer(p),
        ensures
            ({
                let later = self.all_delivered(Some(settings), joiners, bytes, turn);
                &&& later == (Ctx {
                    effects: later.effects,
                    transfers: later.transfers,
                    feed: later.feed,
                    ..self
                })
                &&& laws::grows(self.effects, later.effects)
                &&& joiners.contains(p) && self.is_syncing_peer(p) ==> self.hears(
                    later,
                    p,
                ).contains(WireMessageView::Join(JoinView { init_attributes: settings.json }))
            }),
        decreases joiners.len(),
    {
        if joiners.len() > 0 {
            let rest = joiners.drop_last();
            let last = joiners.last();
            self.lemma_all_delivered(settings, rest, bytes, turn, p);
            let mid = self.all_delivered(Some(settings), rest, bytes, turn);
            let later = self.all_delivered(Some(settings), joiners, bytes, turn);
            let msg = WireMessageView::Join(JoinView { init_attributes: settings.json });
            assert(joiners =~= rest.push(last));
            utils::lemma_pushed(rest, last, p);
            if mid.is_syncing_peer(last) {
                mid.lemma_delivered_keeps(Some(settings), last, bytes, turn);
                self.lemma_hears_then(mid, later, p);
                if last == p {
                    mid.snapshots_are_handed_over(settings, p, bytes, turn, p);
                    assert(self.hears(later, p)[self.hears(mid, p).len() as int] == msg);
                } else if rest.contains(p) && self.is_syncing_peer(p) {
                    let heard = self.hears(mid, p);
                    let k = choose|k: int| 0 <= k < heard.len() && heard[k] == msg;
                    assert(self.hears(later, p)[k] == msg);
                }
            }
        }
    }

    /// The state that a run rebuilt goes to everyone who still waits for it:
    /// each of them that is not on the delayed feed is told to join. A run that
    /// is not the one that was asked for changes nothing.
    pub proof fn dumps_reach_who_waits(
        self,
        settings: Frozen,
        id: u32,
        bytes: Seq<u8>,
        p: PeerID,
    )
        requires
            !self.is_delayed_peer(p),
        ensures
            ({
                let later = self.state_dumped(Some(settings), id, Some(bytes));
                &&& (self.dump matches Some(d) && d.id == id && d.waiting.contains(p) && (
                table::lookup(self.sessions, p) matches Some(s) && s.admitted matches Some(a)
                    && a.role == Role::Syncing)) ==> self.hears(later, p).contains(
                    WireMessageView::Join(JoinView { init_attributes: settings.json }),
                ) && later.dump is None
                &&& !(self.dump matches Some(d) && d.id == id) ==> later == self
            }),
    {
        reveal(Ctx::state_dumped);
        if let Some(d) = self.dump {
            let after = Ctx { dump: None, ..self };
            after.lemma_all_delivered(settings, d.waiting, bytes, d.turn, p);
        }
    }

    /// A run that was asked for and came through is kept as the newest
    /// checkpoint, for the turn it was asked for; one that failed from the very
    /// beginning ends the checkpoints, and any other failure leaves what there
    /// is, unless it is one too many.
    pub proof fn checkpoints_are_kept(self, id: u32, state: Option<Seq<u8>>)
        requires
            self.checkpoints.pending matches Some(asked) && asked.id == id,
        ensures
            ({
                let later = self.checkpointed(id, state).checkpoints;
                let asked = self.checkpoints.pending->0;
                &&& later.pending is None
                &&& state matches Some(bytes) ==> {
                    &&& later.states.len() > 0
                    &&& later.states.last() == (BaseStateView { turn: asked.turn, state: bytes })
                    &&& later.failures == 0
                    &&& later.disabled == self.checkpoints.disabled
                }
                &&& state is None && asked.from_scratch ==> later.disabled
                &&& state is None && !asked.from_scratch ==> later.disabled
                    == self.checkpoints.disabled && (later.states == self.checkpoints.states
                    || later.states.len() == 0)
            }),
    {
        reveal(Ctx::checkpointed);
    }
}

impl AnyView {
    /// Who won is worked out from the whole match, as far as it was released,
    /// with the hashes that were agreed on; unless nothing was released, there
    /// is nothing to replay it with, or a checkpoint has decided it already.
    pub proof fn outcomes_are_worked_out(self)
        ensures
            match self.outcome_record() {
                Some(r) => {
                    &&& self is InGame || (self matches AnyView::PostGame { resolved_by, .. }
                        && resolved_by is None)
                    &&& self.ctx().config.sidecar_dumps
                    &&& self.ctx().turns.ready > INITIAL_READY_TURN
                    &&& r.init_attributes == (self.frozen()->0).json
                    &&& r.turn_lengths == snapshot::lengths(
                        self.ctx().log,
                        sidecar::base_turn(r.base),
                        self.ctx().turns.ready,
                        (self.frozen()->0).turn_length_ms as u16,
                    )
                    &&& r.hashes == playing::hashes_between(
                        self.ctx().turns.references,
                        sidecar::base_turn(r.base),
                        self.ctx().turns.ready,
                    )
                },
                None => {
                    ||| !(self is InGame || self is PostGame)
                    ||| self matches AnyView::PostGame { resolved_by: Some(_), .. }
                    ||| !self.ctx().config.sidecar_dumps
                    ||| self.ctx().turns.ready <= INITIAL_READY_TURN
                },
            },
    {
    }
}

impl Ctx {
    /// A joiner that nobody in the match can serve waits for a run that
    /// rebuilds the state: the one under way, or one that is asked for then, of
    /// the newest released turn.
    pub proof fn runs_serve_who_has_no_source(self, settings: Frozen, joiner: PeerID)
        requires
            !self.is_delayed_peer(joiner),
            self.checkpoints.states.len() == 0,
            self.config.sidecar_dumps,
            self.turns.ready >= 1,
            self.best_source(self.sessions, joiner, false) is None,
        ensures
            ({
                let later = self.snapshot_sought(Some(settings), joiner, true);
                &&& later.sessions == self.sessions
                &&& self.dump matches Some(d) ==> {
                    &&& later.effects == self.effects
                    &&& later.dump matches Some(e)
                    &&& e.id == d.id
                    &&& e.turn == d.turn
                    &&& e.waiting == d.waiting.push(joiner)
                }
                &&& self.dump is None ==> {
                    &&& later.dump matches Some(e)
                    &&& e.turn == self.turns.ready
                    &&& e.waiting == seq![joiner]
                    &&& later.effects == self.effects.push(
                        EffectView::StateDump {
                            id: e.id,
                            turn: self.turns.ready,
                            request: self.record_from(Some(settings), None, self.turns.ready)->0,
                        },
                    )
                }
            }),
    {
        reveal(Ctx::snapshot_sought);
    }

    /// A run that nobody waits for any more is cancelled, and only then: while
    /// others still wait, whoever leaves is merely no longer waited for.
    pub proof fn unneeded_runs_are_cancelled(self, peer: PeerID, q: PeerID)
        requires
            self.dump is Some,
            q != peer,
        ensures
            ({
                let d = self.dump->0;
                let later = self.left_dump(peer);
                let alone = forall|j: int|
                    0 <= j < d.waiting.len() ==> #[trigger] d.waiting[j] == peer;
                &&& alone ==> later.dump is None && later.effects == self.effects.push(
                    EffectView::CancelStateDump { id: d.id },
                )
                &&& !alone ==> {
                    &&& later.effects == self.effects
                    &&& later.dump matches Some(e)
                    &&& e.id == d.id
                    &&& e.turn == d.turn
                    &&& !e.waiting.contains(peer)
                    &&& e.waiting.contains(q) == d.waiting.contains(q)
                }
            }),
    {
        reveal(Ctx::left_dump);
        let d = self.dump->0;
        let keep = admission::other_than(peer);
        let left = admission::but(d.waiting, peer);
        if left.len() > 0 {
            d.waiting.lemma_filter_pred(keep, 0);
            assert(left.contains(left[0]));
            d.waiting.lemma_filter_contains_rev(keep, left[0]);
            let j = choose|j: int| 0 <= j < d.waiting.len() && d.waiting[j] == left[0];
            assert(d.waiting[j] != peer);
        }
        assert forall|j: int| 0 <= j < d.waiting.len() && left.len() == 0 implies
            #[trigger] d.waiting[j] == peer by {
            if d.waiting[j] != peer {
                d.waiting.lemma_filter_contains(keep, j);
                assert(left.contains(d.waiting[j]));
            }
        }
        if left.contains(peer) {
            let k = choose|k: int| 0 <= k < left.len() && left[k] == peer;
            d.waiting.lemma_filter_pred(keep, k);
        }
        if left.contains(q) {
            d.waiting.lemma_filter_contains_rev(keep, q);
        }
        if d.waiting.contains(q) {
            let j = choose|j: int| 0 <= j < d.waiting.len() && d.waiting[j] == q;
            d.waiting.lemma_filter_contains(keep, j);
        }
    }

    /// A player who goes is worth an early look at whether the match is over,
    /// from the turn they went at; a hint that is there already is never put
    /// off.
    pub proof fn departures_are_looked_into(self, peer: PeerID, uuid: Seq<char>)
        requires
            table::lookup(self.sessions, peer) matches Some(s) && s.uuid == Some(uuid),
        ensures
            ({
                let later = self.departure_probed(peer);
                let plays = table::lookup(self.slots, uuid) matches Some(e) && e.slot != -1;
                &&& plays ==> (later.checkpoints.probe matches Some(t) && t <= self.turns.ready && (
                self.checkpoints.probe matches Some(was) ==> t <= was))
                &&& !plays ==> later == self
                &&& later.effects == self.effects
            }),
    {
        reveal(Ctx::departure_probed);
    }
}

} // verus!
