//! What holds of a match whatever happens to it.

use vstd::prelude::*;

use crate::clock::Time;
use crate::network_message::Ipv4Addr;
use crate::network_message::PeerID;
use crate::relay::fault::PeerFault;
use crate::relay::gamestate_transfer;
use crate::relay::messages::AuthenticateView;
use crate::relay::messages::ChatView;
use crate::relay::messages::FlareView;
use crate::relay::messages::GameSettingsView;
use crate::relay::messages::GamestateChunkAck;
use crate::relay::messages::GamestateChunkView;
use crate::relay::messages::GamestateRequest;
use crate::relay::messages::GamestateResponse;
use crate::relay::messages::KickedView;
use crate::relay::messages::LoadedGame;
use crate::relay::messages::MapPlayerIdToSlotView;
use crate::relay::messages::PlayerCommandView;
use crate::relay::messages::PreGameStatusView;
use crate::relay::messages::StateHashView;
use crate::relay::messages::SynAckView;
use crate::relay::messages::TurnSealed;
use crate::relay::messages::WireMessageView;
use crate::relay::monitor::PeerStats;
use crate::relay::observer_feed::DueJoinView;
use crate::relay::pause_budget::BudgetEventView;
use crate::relay::server_fsm::admission::AuthVerdictView;
use crate::relay::server_fsm::context;
use crate::relay::server_fsm::context::Audience;
use crate::relay::server_fsm::context::Ctx;
use crate::relay::server_fsm::event::EffectView;
use crate::relay::server_fsm::event::InputView;
use crate::relay::server_fsm::event::Phase;
use crate::relay::server_fsm::order;
use crate::relay::server_fsm::phases::AnyView;
use crate::relay::server_fsm::reason::DisconnectReason;
use crate::relay::server_fsm::settings::Frozen;
use crate::relay::server_fsm::setup;
use crate::relay::server_fsm::stream;
use crate::relay::server_fsm::timing;
use crate::relay::session::Role;
use crate::relay::session::SessionView;
use crate::relay::turn;
use crate::relay::turn::HashMismatchView;
use crate::relay::turn::TurnClient;
use crate::relay::turn::Turns;
use crate::table;

verus! {

/// Whether a list only had something added to its end.
pub open spec fn grows<A>(before: Seq<A>, after: Seq<A>) -> bool {
    &&& before.len() <= after.len()
    &&& forall|i: int| 0 <= i < before.len() ==> #[trigger] after[i] == before[i]
}

impl Turns {
    proof fn lemma_hashed_ready(self, peer: PeerID, turn: u32, hash: Seq<u8>)
        ensures
            self.hashed(peer, turn, hash).0.ready == self.ready,
            self.rechecked().0.ready == self.ready,
    {
        let noted = self.simulated(peer, turn).reported(turn::ReportView { turn, peer, hash });
        noted.lemma_settled_ready(
            turn::reported_through(noted.clients, noted.ready),
            noted.reports.len(),
        );
        self.lemma_settled_ready(
            turn::reported_through(self.clients, self.ready),
            self.reports.len(),
        );
    }

    /// Whether nobody was put on the delayed feed.
    spec fn delays_nobody(self, later: Turns) -> bool {
        table::distinct(self.clients) ==> {
            &&& table::distinct(later.clients)
            &&& forall|peer: PeerID| #[trigger]
                later.is_delayed(peer) ==> self.is_delayed(peer)
        }
    }

    /// Whether those on the delayed feed stayed the same.
    spec fn delays_alike(self, later: Turns) -> bool {
        table::distinct(self.clients) ==> {
            &&& table::distinct(later.clients)
            &&& forall|peer: PeerID| #[trigger]
                later.is_delayed(peer) == self.is_delayed(peer)
        }
    }

    proof fn lemma_delays_chain(self, a: Turns, b: Turns, c: Turns)
        requires
            self.delays_alike(a),
            a.clients == b.clients,
            b.delays_alike(c),
        ensures
            self.delays_alike(b),
            self.delays_alike(c),
    {
        if table::distinct(self.clients) {
            assert forall|peer: PeerID| #[trigger] b.is_delayed(peer) == self.is_delayed(peer) by {
                assert(a.is_delayed(peer) == b.is_delayed(peer));
            }
            assert forall|peer: PeerID| #[trigger] c.is_delayed(peer) == self.is_delayed(peer) by {
                assert(b.is_delayed(peer) == c.is_delayed(peer));
                assert(a.is_delayed(peer) == b.is_delayed(peer));
            }
        }
    }

    proof fn lemma_any_client(self, peer: PeerID)
        ensures
            forall|c: TurnClient|
                table::distinct(self.clients) ==> table::distinct(
                    #[trigger] table::with_row(self.clients, peer, c),
                ),
    {
        assert forall|c: TurnClient| table::distinct(self.clients) implies table::distinct(
            #[trigger] table::with_row(self.clients, peer, c),
        ) by {
            table::lemma_with_row_distinct(self.clients, peer, c);
        }
    }

    proof fn lemma_with_client(self, peer: PeerID, c: TurnClient)
        requires
            c.delayed ==> self.is_delayed(peer),
        ensures
            self.delays_nobody(
                Turns { clients: table::with_row(self.clients, peer, c), ..self },
            ),
            c.delayed == self.is_delayed(peer) ==> self.delays_alike(
                Turns { clients: table::with_row(self.clients, peer, c), ..self },
            ),
    {
        let later = Turns { clients: table::with_row(self.clients, peer, c), ..self };
        if table::distinct(self.clients) {
            table::lemma_with_row_distinct(self.clients, peer, c);
        }
        assert forall|p: PeerID| #[trigger]
            later.is_delayed(p) == (if p == peer {
                c.delayed
            } else {
                self.is_delayed(p)
            }) by {
            table::lemma_with_row_lookup(self.clients, peer, c, p);
        }
    }

    proof fn lemma_marked(self, who: Seq<PeerID>)
        ensures
            self.delays_alike(Turns { clients: turn::marked(self.clients, who), ..self }),
    {
        let later = Turns { clients: turn::marked(self.clients, who), ..self };
        assert forall|i: int| 0 <= i < self.clients.len() implies #[trigger] later.clients[i].0
            == self.clients[i].0 && later.clients[i].1.delayed == self.clients[i].1.delayed by {}
        assert forall|p: PeerID| #[trigger] later.is_delayed(p) == self.is_delayed(p) by {
            table::lemma_index_of(self.clients, p);
            table::lemma_index_of(later.clients, p);
            if let Some(i) = table::index_of(later.clients, p) {
                assert(later.clients[i].0 == self.clients[i].0);
                let k = table::index_of(self.clients, p)->0;
                assert(later.clients[k].0 == self.clients[k].0);
                assert(later.clients[i].1.delayed == self.clients[i].1.delayed);
            }
            if let Some(k) = table::index_of(self.clients, p) {
                assert(later.clients[k].0 == self.clients[k].0);
            }
        }
        if table::distinct(self.clients) {
            assert forall|i: int, j: int| 0 <= i < j < later.clients.len() implies
                #[trigger] later.clients[i].0 != #[trigger] later.clients[j].0 by {
                assert(self.clients[i].0 != self.clients[j].0);
            }
        }
    }

    proof fn lemma_settled(self, through: u32, rounds: nat)
        ensures
            self.delays_alike(self.settled(through, rounds).0),
        decreases rounds,
    {
        if rounds > 0 {
            if let Some(first) = turn::first_complete(self.reports, through) {
                let who = turn::disagreeing(self.reports, first.turn, first.hash);
                let after = self.compared(first);
                self.lemma_marked(who);
                after.lemma_settled(through, (rounds - 1) as nat);
                self.lemma_delays_chain(
                    Turns { clients: turn::marked(self.clients, who), ..self },
                    after,
                    after.settled(through, (rounds - 1) as nat).0,
                );
            }
        }
    }

    proof fn lemma_hashed(self, peer: PeerID, turn: u32, hash: Seq<u8>)
        ensures
            self.hash_fault(peer, turn) is None ==> self.delays_alike(
                self.hashed(peer, turn, hash).0,
            ),
            self.delays_alike(self.rechecked().0),
    {
        if let Some(c) = table::lookup(self.clients, peer) {
            self.lemma_with_client(peer, TurnClient { simulated: turn, ..c });
            let noted = self.simulated(peer, turn);
            noted.lemma_marked(seq![peer]);
            let told = noted.reported(turn::ReportView { turn, peer, hash });
            let through = turn::reported_through(told.clients, told.ready);
            told.lemma_settled(through, told.reports.len());
            self.lemma_delays_chain(noted, told, told.settled(through, told.reports.len()).0);
            self.lemma_delays_chain(
                noted,
                noted,
                Turns { clients: turn::marked(noted.clients, seq![peer]), ..noted },
            );
        }
        self.lemma_settled(
            turn::reported_through(self.clients, self.ready),
            self.reports.len(),
        );
    }

    proof fn lemma_forgotten(self, peer: PeerID)
        ensures
            self.delays_nobody(self.forgotten(peer)),
    {
        let later = self.forgotten(peer);
        if table::distinct(self.clients) {
            table::lemma_without_row_distinct(self.clients, peer);
            assert forall|p: PeerID| #[trigger] later.is_delayed(p) implies self.is_delayed(
                p,
            ) by {
                if p != peer {
                    table::lemma_without_row_lookup(self.clients, peer, p);
                }
            }
        }
    }

    proof fn lemma_released_ready(self, lag_limit: Option<u32>)
        ensures
            self.ready <= self.released(lag_limit).ready,
    {
        if self.ready <= turn::LAST_TURN {
            turn::lemma_released_bounds(self.clients, self.ready, lag_limit);
        }
    }
}

/// The turn a message tells something of.
pub open spec fn turn_told(msg: WireMessageView) -> Option<u32> {
    match msg {
        WireMessageView::PlayerCommand(m) => Some(m.turn),
        WireMessageView::TurnSealed(m) => Some(m.turn),
        _ => None,
    }
}

/// Whether an effect tells this peer, of no turn past this one.
spec fn told_through(effect: EffectView, peer: PeerID, through: u32) -> bool {
    effect matches EffectView::Send { peer: to, msg } && to == peer && (turn_told(
        msg,
    ) matches Some(turn) ==> turn <= through)
}

/// Whether an effect tells somebody something of a turn.
pub open spec fn tells_turn(effect: EffectView) -> bool {
    effect matches EffectView::Send { msg, .. } && turn_told(msg) is Some
}

impl Ctx {
    /// Whether nothing of what was decided before was taken back: the rules
    /// and the relay's own identities stay, everything that was to be done is
    /// still to be done, first and in the same order; no released turn is
    /// taken back, neither from the players nor from the delayed observers, and
    /// no command that was taken leaves the record; who was banned stays
    /// banned, who resigned or forfeited stays so, and client numbers only
    /// rise.
    pub open spec fn remembers(self, later: Ctx) -> bool {
        &&& later.config == self.config
        &&& later.server_uuid == self.server_uuid
        &&& later.ai_host_name == self.ai_host_name
        &&& grows(self.effects, later.effects)
        &&& self.turns.ready <= later.turns.ready
        &&& self.feed.head <= later.feed.head
        &&& grows(self.log.commands, later.log.commands)
        &&& grows(self.banned_ips, later.banned_ips)
        &&& grows(self.banned_names, later.banned_names)
        &&& grows(self.resigned, later.resigned)
        &&& grows(self.forfeited, later.forfeited)
        &&& self.next_client_id <= later.next_client_id
    }

    /// Whether nobody has come by an identity: whoever has one had it before.
    pub open spec fn no_new_ids(self, later: Ctx) -> bool {
        &&& table::distinct(later.sessions)
        &&& forall|peer: PeerID|
            #![trigger later.uuid_of(peer)]
            later.uuid_of(peer) is Some ==> later.uuid_of(peer) == self.uuid_of(peer)
    }

    #[verifier::opaque]
    spec fn follows(self, later: Ctx) -> bool {
        &&& self.remembers(later)
        &&& table::distinct(self.sessions) ==> self.no_new_ids(later)
        &&& table::distinct(self.turns.clients) ==> table::distinct(later.turns.clients)
    }

    /// Whether an effect tells someone on the delayed feed of a turn that the
    /// feed has not reached.
    pub open spec fn gives_away(self, effect: EffectView) -> bool {
        match effect {
            EffectView::Send { peer, msg } => {
                &&& self.turns.is_delayed(peer)
                &&& turn_told(msg) matches Some(turn) && turn > self.feed.head
            },
            _ => false,
        }
    }

    /// Whether nothing that was newly decided gives anything away.
    pub open spec fn keeps_delay(self, later: Ctx) -> bool {
        forall|i: int|
            self.effects.len() <= i < later.effects.len() ==> !later.gives_away(
                #[trigger] later.effects[i],
            )
    }

    spec fn tells_on(self, later: Ctx) -> bool {
        table::distinct(self.sessions) && table::distinct(self.turns.clients) ==> {
            &&& table::distinct(later.sessions)
            &&& table::distinct(later.turns.clients)
            &&& self.told_one_by_one(later)
        }
    }

    spec fn shows_no_more(self, later: Ctx) -> bool {
        table::distinct(self.turns.clients) ==> {
            &&& table::distinct(later.turns.clients)
            &&& self.keeps_delay(later)
        }
    }

    #[verifier::opaque]
    spec fn trails(self, later: Ctx) -> bool {
        &&& grows(self.effects, later.effects)
        &&& self.feed.head <= later.feed.head
        &&& self.turns.delays_nobody(later.turns)
        &&& table::distinct(self.turns.clients) ==> self.keeps_delay(later)
    }

    /// Whether no two sessions share an identity, and none has the relay's.
    pub open spec fn ids_apart(self) -> bool {
        &&& table::distinct(self.sessions)
        &&& forall|peer: PeerID| #[trigger] self.uuid_of(peer) != Some(self.server_uuid)
        &&& forall|a: PeerID, b: PeerID|
            #![trigger self.uuid_of(a), self.uuid_of(b)]
            a != b && self.uuid_of(a) is Some ==> self.uuid_of(a) != self.uuid_of(b)
    }

    proof fn stays(self)
        ensures
            self.follows(self),
            self.trails(self),
            self.paces(self),
    {
        reveal(Ctx::follows);
        reveal(Ctx::trails);
        self.lemma_paces_aside(self);
    }

    proof fn lemma_paces_tells(self)
        ensures
            forall|later: Ctx| #[trigger] self.paces(later) ==> self.tells_on(later),
    {
        reveal(Ctx::paces);
    }

    proof fn lemma_tells_then(self, mid: Ctx, later: Ctx)
        requires
            self.follows(mid),
            self.tells_on(mid),
            mid.paces(later),
        ensures
            self.tells_on(later),
    {
        reveal(Ctx::follows);
        if table::distinct(self.sessions) && table::distinct(self.turns.clients) {
            self.lemma_told_then(mid, later);
        }
    }

    proof fn lemma_shows_then(self, mid: Ctx, later: Ctx)
        requires
            self.follows(mid),
            self.shows_no_more(mid),
            mid.trails(later),
        ensures
            self.shows_no_more(later),
    {
        reveal(Ctx::follows);
        if table::distinct(self.turns.clients) {
            self.lemma_keeps_delay(mid, later);
            assert(table::distinct(later.turns.clients)) by {
                reveal(Ctx::trails);
            }
        }
    }

    proof fn lemma_trails_shows(self)
        ensures
            forall|later: Ctx| #[trigger] self.trails(later) ==> self.shows_no_more(later),
    {
        reveal(Ctx::trails);
    }

    proof fn lemma_keeps_delay(self, mid: Ctx, later: Ctx)
        requires
            grows(self.effects, mid.effects),
            table::distinct(mid.turns.clients),
            self.keeps_delay(mid),
            mid.trails(later),
        ensures
            self.keeps_delay(later),
    {
        reveal(Ctx::trails);
        assert forall|i: int| self.effects.len() <= i < later.effects.len() implies
            !later.gives_away(#[trigger] later.effects[i]) by {
            if i < mid.effects.len() {
                assert(later.effects[i] == mid.effects[i]);
                assert(!mid.gives_away(mid.effects[i]));
            }
        }
    }

    proof fn joined(self, mid: Ctx, later: Ctx)
        requires
            self.follows(mid),
            mid.follows(later),
        ensures
            self.follows(later),
            self.trails(mid) && mid.trails(later) ==> self.trails(later),
            self.paces(mid) && mid.paces(later) ==> self.paces(later),
    {
        if self.paces(mid) && mid.paces(later) {
            self.lemma_paces_joined(mid, later);
        }
        reveal(Ctx::follows);
        if table::distinct(self.sessions) {
            assert forall|peer: PeerID|
                #![trigger later.uuid_of(peer)]
                later.uuid_of(peer) is Some implies later.uuid_of(peer) == self.uuid_of(
                peer,
            ) by {
                assert(later.uuid_of(peer) == mid.uuid_of(peer));
            }
        }
        if self.trails(mid) && mid.trails(later) {
            assert(self.trails(later)) by {
                reveal(Ctx::trails);
                if table::distinct(self.turns.clients) {
                    self.lemma_keeps_delay(mid, later);
                    assert forall|peer: PeerID| #[trigger]
                        later.turns.is_delayed(peer) implies self.turns.is_delayed(peer) by {
                        assert(mid.turns.is_delayed(peer));
                    }
                }
            }
        }
    }

    /// Steps that leave what is remembered, and the sessions, as they are.
    proof fn aside(self, later: Ctx)
        requires
            later.config == self.config,
            later.server_uuid == self.server_uuid,
            later.ai_host_name == self.ai_host_name,
            grows(self.effects, later.effects),
            self.turns.ready <= later.turns.ready,
            self.feed.head <= later.feed.head,
            grows(self.log.commands, later.log.commands),
            grows(self.banned_ips, later.banned_ips),
            grows(self.banned_names, later.banned_names),
            grows(self.resigned, later.resigned),
            grows(self.forfeited, later.forfeited),
            self.next_client_id <= later.next_client_id,
            later.sessions == self.sessions,
            table::distinct(self.turns.clients) ==> table::distinct(later.turns.clients),
        ensures
            self.follows(later),
            self.turns.delays_nobody(later.turns) && (forall|i: int|
                self.effects.len() <= i < later.effects.len() ==> !tells_turn(
                    #[trigger] later.effects[i],
                )) ==> self.trails(later),
            self.turns.delays_alike(later.turns) && later.turns.ready == self.turns.ready
                && later.feed.head == self.feed.head && (forall|i: int|
                self.effects.len() <= i < later.effects.len() ==> !order::is_seal(
                    #[trigger] later.effects[i],
                )) ==> self.paces(later),
    {
        reveal(Ctx::follows);
        reveal(Ctx::trails);
        if self.turns.delays_alike(later.turns) && later.turns.ready == self.turns.ready
            && later.feed.head == self.feed.head && (forall|i: int|
            self.effects.len() <= i < later.effects.len() ==> !order::is_seal(
                #[trigger] later.effects[i],
            )) {
            self.lemma_paces_aside(later);
        }
    }

    proof fn f_doing(self, effect: EffectView)
        ensures
            self.follows(self.doing(effect)),
            !tells_turn(effect) ==> self.trails(self.doing(effect)),
            !order::is_seal(effect) ==> self.paces(self.doing(effect)),
    {
        self.aside(self.doing(effect));
    }

    proof fn f_sent_to(self, peers: Seq<PeerID>, msg: WireMessageView)
        ensures
            self.follows(self.sent_to(peers, msg)),
            turn_told(msg) is None ==> self.trails(self.sent_to(peers, msg)),
            !(msg is TurnSealed) ==> self.paces(self.sent_to(peers, msg)),
    {
        self.aside(self.sent_to(peers, msg));
    }

    proof fn f_broadcast(self, msg: WireMessageView, who: Audience)
        ensures
            self.follows(self.broadcast(msg, who)),
            turn_told(msg) is None ==> self.trails(self.broadcast(msg, who)),
            !(msg is TurnSealed) ==> self.paces(self.broadcast(msg, who)),
    {
        self.f_sent_to(context::hearing(self.sessions, who, None), msg);
    }

    proof fn f_broadcast_except(self, except: PeerID, msg: WireMessageView, who: Audience)
        ensures
            self.follows(self.broadcast_except(except, msg, who)),
            turn_told(msg) is None ==> self.trails(self.broadcast_except(except, msg, who)),
            !(msg is TurnSealed) ==> self.paces(self.broadcast_except(except, msg, who)),
    {
        self.f_sent_to(context::hearing(self.sessions, who, Some(except)), msg);
    }

    proof fn f_slots_told(self)
        ensures
            self.follows(self.slots_told()),
            self.trails(self.slots_told()),
            self.paces(self.slots_told()),
    {
        reveal(Ctx::slots_told);
        self.f_broadcast(WireMessageView::PlayerSlots(self.slot_list()), Audience::Admitted);
    }

    proof fn f_listed(self)
        ensures
            self.follows(self.listed()),
            self.trails(self.listed()),
            self.paces(self.listed()),
    {
        reveal(Ctx::listed);
        self.aside(self.listed());
    }

    proof fn f_said(self, to: Option<PeerID>, text: Seq<char>)
        ensures
            self.follows(self.said(to, text)),
            self.trails(self.said(to, text)),
            self.paces(self.said(to, text)),
    {
        reveal(Ctx::said);
        match to {
            Some(peer) => self.f_doing(EffectView::Send { peer, msg: self.chat_line(text) }),
            None => self.f_broadcast(self.chat_line(text), Audience::Admitted),
        }
    }

    proof fn f_dropped(self, peer: PeerID, reason: DisconnectReason)
        ensures
            self.follows(self.dropped(peer, reason)),
            self.trails(self.dropped(peer, reason)),
            self.paces(self.dropped(peer, reason)),
    {
        reveal(Ctx::dropped);
        let e = EffectView::Disconnect { peer, reason };
        match table::lookup(self.sessions, peer) {
            Some(s) if s.admitted is Some => {
                let marked = match s.uuid {
                    Some(uuid) => Ctx {
                        slots: crate::relay::slots::with_departure(self.slots, uuid),
                        ..self
                    },
                    None => self,
                };
                self.aside(marked);
                marked.f_slots_told();
                marked.slots_told().f_doing(e);
                self.joined(marked, marked.slots_told());
                self.joined(marked.slots_told(), self.dropped(peer, reason));
            },
            _ => self.f_doing(e),
        }
    }

    proof fn f_listed_in(self, phase: Phase)
        ensures
            self.follows(self.listed_in(phase)),
            self.trails(self.listed_in(phase)),
            self.paces(self.listed_in(phase)),
    {
        self.f_listed();
        self.stays();
    }

    proof fn f_slots_told_in(self, phase: Phase)
        ensures
            self.follows(self.slots_told_in(phase)),
            self.trails(self.slots_told_in(phase)),
            self.paces(self.slots_told_in(phase)),
    {
        self.f_slots_told();
        self.slots_told().f_listed_in(phase);
        self.joined(self.slots_told(), self.slots_told_in(phase));
    }

    proof fn f_dropped_in(self, phase: Phase, peer: PeerID, reason: DisconnectReason)
        ensures
            self.follows(self.dropped_in(phase, peer, reason)),
            self.trails(self.dropped_in(phase, peer, reason)),
            self.paces(self.dropped_in(phase, peer, reason)),
    {
        self.f_dropped(peer, reason);
        self.dropped(peer, reason).f_listed_in(phase);
        self.joined(self.dropped(peer, reason), self.dropped_in(phase, peer, reason));
    }

    proof fn f_faulted(self, peer: PeerID, fault: PeerFault)
        ensures
            self.follows(self.faulted(peer, fault)),
            self.trails(self.faulted(peer, fault)),
            self.paces(self.faulted(peer, fault)),
    {
        self.stays();
        if let Some(reason) = fault.consequence() {
            self.f_dropped(peer, reason);
        }
    }

    proof fn lemma_told_reached(self, peers: Seq<PeerID>, msg: WireMessageView)
        ensures
            (turn_told(msg) matches Some(turn) ==> turn <= self.feed.head) ==> self.trails(
                self.sent_to(peers, msg),
            ),
            (forall|i: int|
                0 <= i < peers.len() ==> !self.turns.is_delayed(#[trigger] peers[i]))
                ==> self.trails(self.sent_to(peers, msg)),
    {
        reveal(Ctx::trails);
        let later = self.sent_to(peers, msg);
        assert forall|i: int| self.effects.len() <= i < later.effects.len() implies
            #[trigger] later.effects[i] == (EffectView::Send {
            peer: peers[i - self.effects.len()],
            msg,
        }) by {}
    }

    proof fn lemma_live_undelayed(self)
        ensures
            forall|i: int|
                0 <= i < self.live_peers().len() ==> !self.turns.is_delayed(
                    #[trigger] self.live_peers()[i],
                ),
    {
        let seen = |row: (PeerID, SessionView)|
            row.1.is_in_game() && !self.turns.is_delayed(row.0);
        let kept = self.sessions.filter(seen);
        assert forall|i: int| 0 <= i < self.live_peers().len() implies !self.turns.is_delayed(
            #[trigger] self.live_peers()[i],
        ) by {
            assert(seen(kept[i]));
        }
    }

    proof fn f_told_delayed_all(self, msgs: Seq<WireMessageView>)
        ensures
            self.follows(self.told_delayed_all(msgs)),
            self.told_delayed_all(msgs).feed == self.feed,
            (forall|i: int|
                0 <= i < msgs.len() ==> (turn_told(#[trigger] msgs[i]) matches Some(turn)
                    ==> turn <= self.feed.head)) ==> self.trails(self.told_delayed_all(msgs)),
        decreases msgs.len(),
    {
        self.stays();
        if msgs.len() > 0 {
            let before = self.told_delayed_all(msgs.drop_last());
            self.f_told_delayed_all(msgs.drop_last());
            before.f_sent_to(before.turns.delayed_peers(), msgs.last());
            before.lemma_told_reached(before.turns.delayed_peers(), msgs.last());
            assert(msgs.last() == msgs[msgs.len() - 1]);
            self.joined(before, self.told_delayed_all(msgs));
        }
    }

    proof fn f_all_sealed_live(self, from: u32, to: u32, turn_length: u16)
        ensures
            self.follows(self.all_sealed_live(from, to, turn_length)),
            self.trails(self.all_sealed_live(from, to, turn_length)),
        decreases to,
    {
        self.stays();
        if to > from {
            let before = self.all_sealed_live(from, (to - 1) as u32, turn_length);
            self.f_all_sealed_live(from, (to - 1) as u32, turn_length);
            let noted = Ctx { log: before.log.with_length(to, turn_length), ..before };
            before.aside(noted);
            let msg = WireMessageView::TurnSealed(TurnSealed { turn: to, turn_length });
            noted.f_sent_to(noted.live_peers(), msg);
            noted.lemma_live_undelayed();
            noted.lemma_told_reached(noted.live_peers(), msg);
            before.joined(noted, before.sealed_live(to, turn_length));
            self.joined(before, self.all_sealed_live(from, to, turn_length));
        }
    }

    proof fn f_fed_turns(self, from: u32, to: u32)
        ensures
            self.follows(self.fed_turns(from, to)),
            self.fed_turns(from, to).feed == self.feed,
            to <= self.feed.head ==> self.trails(self.fed_turns(from, to)),
        decreases to,
    {
        self.stays();
        if to > from {
            let before = self.fed_turns(from, (to - 1) as u32);
            self.f_fed_turns(from, (to - 1) as u32);
            let commands = stream::command_messages(before.log.commands_for(to));
            let told = before.told_delayed_all(commands);
            before.f_told_delayed_all(commands);
            assert forall|i: int| 0 <= i < commands.len() implies turn_told(
                #[trigger] commands[i],
            ) == Some(to) by {
                let all = before.log.commands_for(to);
                assert(all[i].turn == to) by {
                    let pick = |c: PlayerCommandView| c.turn == to;
                    assert(pick(before.log.commands.filter(pick)[i]));
                }
            }
            let msg = WireMessageView::TurnSealed(
                TurnSealed {
                    turn: to,
                    turn_length: before.log.length_or(to, before.config.turn_length_ms as u16),
                },
            );
            told.f_sent_to(told.turns.delayed_peers(), msg);
            told.lemma_told_reached(told.turns.delayed_peers(), msg);
            before.joined(told, before.fed_turn(to));
            self.joined(before, self.fed_turns(from, to));
        }
    }

    proof fn f_joins_released(self, joins: Seq<DueJoinView>)
        ensures
            self.follows(self.joins_released(joins)),
            self.trails(self.joins_released(joins)),
            self.paces(self.joins_released(joins)),
        decreases joins.len(),
    {
        self.stays();
        if joins.len() > 0 {
            let before = self.joins_released(joins.drop_last());
            self.f_joins_released(joins.drop_last());
            before.aside(before.join_released(joins.last()));
            self.joined(before, self.joins_released(joins));
        }
    }

    proof fn f_feed_advanced(self)
        ensures
            self.follows(self.feed_advanced()),
            self.trails(self.feed_advanced()),
            self.paces(self.feed_advanced()),
    {
        let moved = Ctx {
            feed: self.feed.advanced(self.turns.ready, !self.players_remain()),
            ..self
        };
        self.aside(moved);
        let fed = moved.fed_turns(self.feed.head, moved.feed.head);
        moved.f_fed_turns(self.feed.head, moved.feed.head);
        self.joined(moved, fed);
        let flares = fed.feed.due_flares();
        let sent = Ctx { feed: fed.feed.flares_sent(), ..fed };
        fed.aside(sent);
        self.joined(fed, sent);
        let flared = sent.told_delayed_all(stream::flare_messages(flares));
        sent.f_told_delayed_all(stream::flare_messages(flares));
        self.joined(sent, flared);
        let out = Ctx { feed: flared.feed.joins_sent(), ..flared };
        flared.aside(out);
        self.joined(flared, out);
        out.f_joins_released(flared.feed.due_joins());
        self.joined(out, self.feed_advanced());
        assert(self.paces(self.feed_advanced())) by {
            reveal(Ctx::follows);
            self.lemma_paces_fed();
        }
    }

    proof fn f_turns_released(self, turn_length_ms: u32)
        ensures
            self.follows(self.turns_released(turn_length_ms)),
            self.trails(self.turns_released(turn_length_ms)),
            self.paces(self.turns_released(turn_length_ms)),
    {
        let after = Ctx { turns: self.turns.released(self.config.observer_lag_limit), ..self };
        self.turns.lemma_released_ready(self.config.observer_lag_limit);
        self.aside(after);
        let sealed = after.all_sealed_live(
            self.turns.ready,
            after.turns.ready,
            turn_length_ms as u16,
        );
        after.f_all_sealed_live(self.turns.ready, after.turns.ready, turn_length_ms as u16);
        self.joined(after, sealed);
        sealed.f_feed_advanced();
        self.joined(sealed, self.turns_released(turn_length_ms));
        assert(self.paces(self.turns_released(turn_length_ms))) by {
            reveal(Ctx::follows);
            self.lemma_paces_released(turn_length_ms);
        }
    }

    proof fn f_mismatches_told(self, found: Seq<HashMismatchView>)
        ensures
            self.follows(self.mismatches_told(found)),
            self.trails(self.mismatches_told(found)),
            self.paces(self.mismatches_told(found)),
        decreases found.len(),
    {
        self.stays();
        if found.len() > 0 {
            let before = self.mismatches_told(found.drop_last());
            self.f_mismatches_told(found.drop_last());
            before.aside(before.mismatch_told(found.last()));
            self.joined(before, self.mismatches_told(found));
        }
    }

    proof fn f_dump_requested(self, settings: Option<Frozen>, joiner: PeerID, turn: u32)
        ensures
            self.follows(self.dump_requested(settings, joiner, turn)),
            self.trails(self.dump_requested(settings, joiner, turn)),
            self.paces(self.dump_requested(settings, joiner, turn)),
    {
        self.aside(self.dump_requested(settings, joiner, turn));
    }

    proof fn f_delivered(
        self,
        settings: Option<Frozen>,
        joiner: PeerID,
        snapshot: Seq<u8>,
        bound: u32,
    )
        ensures
            self.follows(self.delivered(settings, joiner, snapshot, bound)),
            self.trails(self.delivered(settings, joiner, snapshot, bound)),
            self.paces(self.delivered(settings, joiner, snapshot, bound)),
    {
        reveal(Ctx::delivered);
        self.stays();
        if let Some(s) = settings {
            let join = crate::relay::messages::JoinView { init_attributes: s.json };
            if self.is_delayed_peer(joiner) {
                let held = Ctx {
                    feed: self.feed.with_join(joiner, bound, join, snapshot),
                    ..self
                };
                self.aside(held);
                held.f_feed_advanced();
                self.joined(held, held.feed_advanced());
            } else {
                self.aside(self.delivered(settings, joiner, snapshot, bound));
            }
        }
    }

    proof fn f_snapshot_sought(self, settings: Option<Frozen>, joiner: PeerID, allow_dump: bool)
        ensures
            self.follows(self.snapshot_sought(settings, joiner, allow_dump)),
            self.trails(self.snapshot_sought(settings, joiner, allow_dump)),
            self.paces(self.snapshot_sought(settings, joiner, allow_dump)),
    {
        reveal(Ctx::snapshot_sought);
        let delayed = self.is_delayed_peer(joiner);
        let newest_usable = if delayed {
            self.feed.head
        } else {
            u32::MAX
        };
        match context::newest_at(self.checkpoints.states, newest_usable) {
            Some(base) => self.f_delivered(settings, joiner, base.state, base.turn),
            None => {
                self.f_dump_requested(settings, joiner, self.feed.head);
                self.f_dump_requested(settings, joiner, self.turns.ready);
                self.f_dropped(joiner, DisconnectReason::MatchInProgress);
                if let Some((source, _)) = self.best_source(self.sessions, joiner, delayed) {
                    self.aside(self.asked(source, joiner));
                }
            },
        }
    }

    pub proof fn lemma_delivered_remembers(
        self,
        settings: Option<Frozen>,
        joiner: PeerID,
        snapshot: Seq<u8>,
        bound: u32,
    )
        ensures
            self.remembers(self.delivered(settings, joiner, snapshot, bound)),
    {
        reveal(Ctx::follows);
        self.f_delivered(settings, joiner, snapshot, bound);
    }

    pub proof fn lemma_sought_remembers(
        self,
        settings: Option<Frozen>,
        joiner: PeerID,
        allow_dump: bool,
    )
        ensures
            self.remembers(self.snapshot_sought(settings, joiner, allow_dump)),
    {
        reveal(Ctx::follows);
        self.f_snapshot_sought(settings, joiner, allow_dump);
    }

    pub proof fn lemma_resought_remembers(self, settings: Option<Frozen>, joiners: Seq<PeerID>)
        ensures
            self.remembers(self.all_resought(settings, joiners)),
    {
        reveal(Ctx::follows);
        self.f_all_resought(settings, joiners);
    }

    pub proof fn lemma_turns_left_remembers(self)
        ensures
            self.remembers(self.left_turns()),
    {
        reveal(Ctx::follows);
        self.f_left_turns();
    }

    proof fn f_all_resought(self, settings: Option<Frozen>, joiners: Seq<PeerID>)
        ensures
            self.follows(self.all_resought(settings, joiners)),
            self.trails(self.all_resought(settings, joiners)),
            self.paces(self.all_resought(settings, joiners)),
        decreases joiners.len(),
    {
        reveal_with_fuel(Ctx::all_resought, 2);
        self.stays();
        if joiners.len() > 0 {
            let before = self.all_resought(settings, joiners.drop_last());
            self.f_all_resought(settings, joiners.drop_last());
            before.f_snapshot_sought(settings, joiners.last(), true);
            self.joined(before, before.snapshot_sought(settings, joiners.last(), true));
        }
    }

    proof fn f_all_delivered(
        self,
        settings: Option<Frozen>,
        joiners: Seq<PeerID>,
        state: Seq<u8>,
        turn: u32,
    )
        ensures
            self.follows(self.all_delivered(settings, joiners, state, turn)),
            self.trails(self.all_delivered(settings, joiners, state, turn)),
            self.paces(self.all_delivered(settings, joiners, state, turn)),
        decreases joiners.len(),
    {
        self.stays();
        if joiners.len() > 0 {
            let before = self.all_delivered(settings, joiners.drop_last(), state, turn);
            self.f_all_delivered(settings, joiners.drop_last(), state, turn);
            before.f_delivered(settings, joiners.last(), state, turn);
            self.joined(before, before.delivered(settings, joiners.last(), state, turn));
        }
    }

    proof fn f_all_let_down(self, settings: Option<Frozen>, joiners: Seq<PeerID>)
        ensures
            self.follows(self.all_let_down(settings, joiners)),
            self.trails(self.all_let_down(settings, joiners)),
            self.paces(self.all_let_down(settings, joiners)),
        decreases joiners.len(),
    {
        self.stays();
        if joiners.len() > 0 {
            let before = self.all_let_down(settings, joiners.drop_last());
            let joiner = joiners.last();
            self.f_all_let_down(settings, joiners.drop_last());
            before.f_snapshot_sought(settings, joiner, false);
            before.f_dropped(joiner, DisconnectReason::MatchInProgress);
            self.joined(before, before.snapshot_sought(settings, joiner, false));
            self.joined(before, before.dropped(joiner, DisconnectReason::MatchInProgress));
        }
    }

    proof fn f_state_dumped(self, settings: Option<Frozen>, id: u32, state: Option<Seq<u8>>)
        ensures
            self.follows(self.state_dumped(settings, id, state)),
            self.trails(self.state_dumped(settings, id, state)),
            self.paces(self.state_dumped(settings, id, state)),
    {
        reveal(Ctx::state_dumped);
        self.stays();
        if let Some(d) = self.dump {
            let after = Ctx { dump: None, ..self };
            self.aside(after);
            after.f_all_let_down(settings, d.waiting);
            self.joined(after, after.all_let_down(settings, d.waiting));
            if let Some(bytes) = state {
                after.f_all_delivered(settings, d.waiting, bytes, d.turn);
                self.joined(after, after.all_delivered(settings, d.waiting, bytes, d.turn));
            }
        }
    }

    proof fn f_state_asked_for(self, peer: PeerID, m: GamestateRequest)
        ensures
            self.follows(self.state_asked_for(peer, m)),
            self.trails(self.state_asked_for(peer, m)),
            self.paces(self.state_asked_for(peer, m)),
    {
        reveal(Ctx::state_asked_for);
        self.aside(self.state_asked_for(peer, m));
    }

    proof fn f_state_promised(self, peer: PeerID, m: GamestateResponse)
        ensures
            self.follows(self.state_promised(peer, m)),
            self.trails(self.state_promised(peer, m)),
            self.paces(self.state_promised(peer, m)),
    {
        reveal(Ctx::state_promised);
        let key = crate::table::TransferKey { peer, request_id: m.request_id };
        let after = Ctx { transfers: self.transfers.declared(key, m.length), ..self };
        self.aside(after);
        if let Some(fault) = self.transfers.response_fault(key, m.length) {
            after.f_faulted(peer, fault);
            self.joined(after, after.faulted(peer, fault));
        }
    }

    proof fn f_chunk_taken(self, peer: PeerID, m: GamestateChunkView)
        ensures
            self.follows(self.chunk_taken(peer, m)),
            self.trails(self.chunk_taken(peer, m)),
            self.paces(self.chunk_taken(peer, m)),
    {
        reveal(Ctx::chunk_taken);
        let key = crate::table::TransferKey { peer, request_id: m.request_id };
        self.f_faulted(peer, PeerFault::WrongPhase);
        if table::has_key(self.transfers.incoming, key) {
            let acked = self.sent(
                peer,
                WireMessageView::GamestateChunkAck(
                    GamestateChunkAck { request_id: m.request_id, num_packets: 1 },
                ),
            );
            let after = Ctx { transfers: self.transfers.chunked(key, m.data), ..acked };
            self.aside(after);
            if let gamestate_transfer::Received::Refused(fault) = self.transfers.chunk_result(
                key,
                m.data,
            ) {
                after.f_faulted(peer, fault);
                self.joined(after, after.faulted(peer, fault));
            }
        }
    }

    proof fn f_chunks_acked(self, peer: PeerID, m: GamestateChunkAck)
        ensures
            self.follows(self.chunks_acked(peer, m)),
            self.trails(self.chunks_acked(peer, m)),
            self.paces(self.chunks_acked(peer, m)),
    {
        reveal(Ctx::chunks_acked);
        self.aside(self.chunks_acked(peer, m));
    }

    proof fn f_snapshot_chunk_taken(
        self,
        settings: Option<Frozen>,
        peer: PeerID,
        m: GamestateChunkView,
    )
        ensures
            self.follows(self.snapshot_chunk_taken(settings, peer, m)),
            self.trails(self.snapshot_chunk_taken(settings, peer, m)),
            self.paces(self.snapshot_chunk_taken(settings, peer, m)),
    {
        reveal(Ctx::snapshot_chunk_taken);
        let after = self.chunk_taken(peer, m);
        self.f_chunk_taken(peer, m);
        if let Some(
            crate::relay::server_fsm::snapshot::TransferDoneView::JoinSnapshot { joiner, state },
        ) = self.chunk_done(peer, m) {
            let bound = if after.turns.is_delayed(peer) {
                after.feed.head
            } else {
                after.turns.ready
            };
            after.f_delivered(settings, joiner, state, bound);
            self.joined(after, after.delivered(settings, joiner, state, bound));
        }
    }

    /// A joiner that was told what it missed, and is now in the match.
    proof fn lemma_resumed(
        self,
        replayed: Ctx,
        later: Ctx,
        peer: PeerID,
        to: u32,
        last: WireMessageView,
        c: TurnClient,
    )
        requires
            self.place(peer) is None,
            replayed.sessions == self.sessions,
            grows(self.effects, replayed.effects),
            forall|i: int|
                self.effects.len() <= i < replayed.effects.len() ==> told_through(
                    #[trigger] replayed.effects[i],
                    peer,
                    to,
                ),
            later.effects == replayed.effects.push(EffectView::Send { peer, msg: last }),
            later.sessions == self.with_role(peer, Role::InGame).sessions,
            later.turns.clients == table::with_row(self.turns.clients, peer, c),
            later.turns.ready == self.turns.ready,
            later.feed.head == self.feed.head,
        ensures
            self.tells_on(later),
    {
        self.lemma_with_role(peer, Role::InGame);
        if table::distinct(self.turns.clients) {
            table::lemma_with_row_distinct(self.turns.clients, peer, c);
        }
        if let Some(s) = table::lookup(self.sessions, peer) {
            let named = s.with_role(Role::InGame);
            if table::distinct(self.sessions) {
                table::lemma_with_row_distinct(self.sessions, peer, named);
            }
        }
        assert forall|p: PeerID|
            self.place(p) is Some && #[trigger] later.place(p) is Some implies {
            &&& self.turns.is_delayed(p) == later.turns.is_delayed(p)
            &&& self.place(p) == later.place(p)
            &&& order::seals_to(later.effects, p) == order::seals_to(self.effects, p)
                + order::turns_after(self.place(p)->0, later.place(p)->0)
        } by {
            assert(p != peer);
            table::lemma_with_row_lookup(self.turns.clients, peer, c, p);
            if let Some(s) = table::lookup(self.sessions, peer) {
                table::lemma_with_row_lookup(
                    self.sessions,
                    peer,
                    s.with_role(Role::InGame),
                    p,
                );
            }
            assert forall|i: int| self.effects.len() <= i < later.effects.len() implies
                !order::seals(#[trigger] later.effects[i], p) by {
                if i < replayed.effects.len() {
                    assert(later.effects[i] == replayed.effects[i]);
                    assert(told_through(replayed.effects[i], peer, to));
                }
            }
            assert forall|i: int| 0 <= i < self.effects.len() implies
                #[trigger] later.effects[i] == self.effects[i] by {
                assert(later.effects[i] == replayed.effects[i]);
            }
            order::lemma_seals_same(self.effects, later.effects, p);
            assert(order::seals_to(self.effects, p) + order::turns_after(
                self.place(p)->0,
                self.place(p)->0,
            ) =~= order::seals_to(self.effects, p));
        }
    }

    /// A session changed in nothing but what it is not known by.
    proof fn f_with_session(self, peer: PeerID, s: SessionView)
        requires
            s.uuid is Some ==> s.uuid == self.uuid_of(peer),
        ensures
            self.follows(Ctx { sessions: table::with_row(self.sessions, peer, s), ..self }),
            self.trails(Ctx { sessions: table::with_row(self.sessions, peer, s), ..self }),
            (s.is_in_game() ==> (table::lookup(self.sessions, peer) matches Some(o)
                && o.is_in_game())) ==> self.paces(
                Ctx { sessions: table::with_row(self.sessions, peer, s), ..self },
            ),
    {
        if s.is_in_game() ==> (table::lookup(self.sessions, peer) matches Some(o)
            && o.is_in_game()) {
            self.lemma_paces_session(peer, s);
        }
        reveal(Ctx::follows);
        reveal(Ctx::trails);
        let later = Ctx { sessions: table::with_row(self.sessions, peer, s), ..self };
        if table::distinct(self.sessions) {
            table::lemma_with_row_distinct(self.sessions, peer, s);
            assert forall|p: PeerID|
                #![trigger later.uuid_of(p)]
                later.uuid_of(p) is Some implies later.uuid_of(p) == self.uuid_of(p) by {
                table::lemma_with_row_lookup(self.sessions, peer, s, p);
            }
        }
    }

    proof fn lemma_with_role(self, peer: PeerID, role: Role)
        ensures
            self.tells_on(self.with_role(peer, role)),
    {
        let later = self.with_role(peer, role);
        if let Some(s) = table::lookup(self.sessions, peer) {
            let named = s.with_role(role);
            if table::distinct(self.sessions) {
                table::lemma_with_row_distinct(self.sessions, peer, named);
            }
            assert forall|p: PeerID|
                self.place(p) is Some && #[trigger] later.place(p) is Some implies self.place(p)
                == later.place(p) && order::seals_to(later.effects, p) == order::seals_to(
                self.effects,
                p,
            ) + order::turns_after(self.place(p)->0, later.place(p)->0) by {
                table::lemma_with_row_lookup(self.sessions, peer, named, p);
                assert(order::seals_to(self.effects, p) + order::turns_after(
                    self.place(p)->0,
                    self.place(p)->0,
                ) =~= order::seals_to(self.effects, p));
            }
        } else {
            self.stays();
            self.lemma_paces_tells();
        }
    }

    proof fn f_with_role(self, peer: PeerID, role: Role)
        ensures
            self.follows(self.with_role(peer, role)),
            self.trails(self.with_role(peer, role)),
            self.tells_on(self.with_role(peer, role)),
    {
        self.stays();
        self.lemma_paces_tells();
        self.lemma_with_role(peer, role);
        if let Some(s) = table::lookup(self.sessions, peer) {
            self.f_with_session(peer, s.with_role(role));
        }
    }

    proof fn f_sampled(self, stats: Seq<PeerStats>)
        ensures
            self.follows(Ctx { sessions: timing::sampled(self.sessions, stats), ..self }),
            self.trails(Ctx { sessions: timing::sampled(self.sessions, stats), ..self }),
            self.paces(Ctx { sessions: timing::sampled(self.sessions, stats), ..self }),
        decreases stats.len(),
    {
        let later = Ctx { sessions: timing::sampled(self.sessions, stats), ..self };
        if stats.len() == 0 {
            self.aside(later);
        } else {
            let before = Ctx {
                sessions: timing::sampled(self.sessions, stats.drop_last()),
                ..self
            };
            self.f_sampled(stats.drop_last());
            let sample = stats.last();
            match table::lookup(before.sessions, sample.peer) {
                Some(s) => {
                    before.f_with_session(
                        sample.peer,
                        SessionView {
                            mean_rtt: sample.mean_rtt,
                            since_last_received: sample.since_last_received,
                            ..s
                        },
                    );
                    self.joined(before, later);
                },
                None => {},
            }
        }
    }

    proof fn f_waits_named(self, uuids: Seq<Seq<char>>)
        ensures
            self.follows(self.waits_named(uuids)),
            self.trails(self.waits_named(uuids)),
            self.paces(self.waits_named(uuids)),
        decreases uuids.len(),
    {
        self.stays();
        if uuids.len() > 0 {
            let before = self.waits_named(uuids.drop_last());
            self.f_waits_named(uuids.drop_last());
            let line = timing::left_line(
                "Waiting for "@,
                before.absent_name(uuids.last()),
                ". "@,
                before.pause_budget.remaining(uuids.last()) as int,
            );
            before.f_said(None, line);
            self.joined(before, before.said(None, line));
        }
    }

    proof fn f_pause_line(self, guid: Seq<char>, pause: bool)
        ensures
            self.follows(self.pause_line(guid, pause)),
            self.trails(self.pause_line(guid, pause)),
            self.paces(self.pause_line(guid, pause)),
    {
        self.aside(self.pause_line(guid, pause));
    }

    proof fn f_then_said(self, mid: Ctx, to: Option<PeerID>, text: Seq<char>)
        requires
            self.follows(mid),
        ensures
            self.follows(mid.said(to, text)),
            self.trails(mid) ==> self.trails(mid.said(to, text)),
            self.paces(mid) ==> self.paces(mid.said(to, text)),
    {
        mid.f_said(to, text);
        self.joined(mid, mid.said(to, text));
    }

    proof fn f_budget_told(self, event: BudgetEventView)
        ensures
            self.follows(self.budget_told(event)),
            self.trails(self.budget_told(event)),
            self.paces(self.budget_told(event)),
    {
        reveal(Ctx::budget_told);
        self.stays();
        match event {
            BudgetEventView::Expired { uuid } => {
                self.f_pause_line(uuid, false);
                if let Some(name) = self.name_of(uuid) {
                    self.f_then_said(
                        self.pause_line(uuid, false),
                        None,
                        name + " is out of pause budget."@,
                    );
                }
            },
            BudgetEventView::Status { uuid, remaining } => {
                if let Some(name) = self.name_of(uuid) {
                    self.f_said(
                        None,
                        timing::left_line(""@, name, " is paused. "@, remaining as int),
                    );
                }
            },
            BudgetEventView::CoordinatedStarted => {
                self.f_said(
                    None,
                    "Everyone is paused, so nobody's pause budget is draining."@,
                );
            },
            BudgetEventView::CoordinatedEnded => {
                self.f_said(None, "Pause budgets are draining again."@);
            },
            BudgetEventView::AutoPauseStarted { uuids } => {
                let lined = self.pause_line(self.server_uuid, true);
                self.f_pause_line(self.server_uuid, true);
                lined.f_waits_named(uuids);
                let named = lined.waits_named(uuids);
                self.joined(lined, named);
                named.aside(named.prefetching(true));
                self.joined(named, named.prefetching(true));
            },
            BudgetEventView::AutoPauseEnded => {
                let lined = self.pause_line(self.server_uuid, false);
                self.f_pause_line(self.server_uuid, false);
                lined.aside(lined.prefetching(false));
                self.joined(lined, lined.prefetching(false));
                self.f_then_said(lined.prefetching(false), None, "Resuming."@);
            },
            BudgetEventView::AbsentExpired { uuid } => {
                self.f_said(
                    None,
                    self.absent_name(uuid)
                        + " did not return in time and is out of pause budget."@,
                );
            },
            BudgetEventView::AbsentStatus { uuid, remaining } => {
                self.f_said(
                    None,
                    timing::left_line(
                        "Waiting for "@,
                        self.absent_name(uuid),
                        ". "@,
                        remaining as int,
                    ),
                );
            },
        }
    }

    proof fn f_budgets_told(self, events: Seq<BudgetEventView>)
        ensures
            self.follows(self.budgets_told(events)),
            self.trails(self.budgets_told(events)),
            self.paces(self.budgets_told(events)),
        decreases events.len(),
    {
        self.stays();
        if events.len() > 0 {
            let before = self.budgets_told(events.drop_last());
            self.f_budgets_told(events.drop_last());
            before.f_budget_told(events.last());
            self.joined(before, self.budgets_told(events));
        }
    }

    proof fn f_budget_checked(self, phase: Phase, now: Time)
        ensures
            self.follows(self.budget_checked(phase, now)),
            self.trails(self.budget_checked(phase, now)),
            self.paces(self.budget_checked(phase, now)),
    {
        reveal(Ctx::budget_checked);
        let players = crate::relay::slots::players_here(self.slots).len() as usize;
        let absent = if self.config.afk_pause && phase == Phase::InGame {
            self.absent()
        } else {
            Seq::empty()
        };
        let (quotas, events) = self.pause_budget.checked(now, players, absent);
        let charged = Ctx { pause_budget: quotas, ..self };
        self.aside(charged);
        charged.f_budgets_told(events);
        self.joined(charged, self.budget_checked(phase, now));
    }

    proof fn f_timing_told(self, phase: Phase, rows: Seq<(PeerID, SessionView)>)
        ensures
            self.follows(self.timing_told(phase, rows)),
            self.trails(self.timing_told(phase, rows)),
            self.paces(self.timing_told(phase, rows)),
        decreases rows.len(),
    {
        reveal_with_fuel(Ctx::timing_told, 2);
        self.stays();
        if rows.len() > 0 {
            let before = self.timing_told(phase, rows.drop_last());
            self.f_timing_told(phase, rows.drop_last());
            if let Some(msg) = timing::report_on(rows.last().1) {
                let who = Self::report_audience(phase);
                before.f_broadcast_except(rows.last().0, msg, who);
                self.joined(before, before.broadcast_except(rows.last().0, msg, who));
            }
        }
    }

    proof fn f_ticked(self, phase: Phase, now: Time, stats: Seq<PeerStats>)
        ensures
            self.follows(self.ticked(phase, now, stats)),
            self.trails(self.ticked(phase, now, stats)),
            self.paces(self.ticked(phase, now, stats)),
    {
        reveal(Ctx::ticked);
        let seen = Ctx { sessions: timing::sampled(self.sessions, stats), ..self };
        self.f_sampled(stats);
        let (over, idle) = seen.idled(now);
        seen.aside(idle);
        self.joined(seen, idle);
        let closing = if over {
            idle.doing(EffectView::GameOver)
        } else {
            idle
        };
        idle.f_doing(EffectView::GameOver);
        idle.stays();
        self.joined(idle, closing);
        let charged = if phase == Phase::InGame || phase == Phase::PostGame {
            closing.budget_checked(phase, now)
        } else {
            closing
        };
        closing.f_budget_checked(phase, now);
        closing.stays();
        self.joined(closing, charged);
        let (due, monitor) = charged.monitor.after(now);
        let watched = Ctx { monitor, ..charged };
        charged.aside(watched);
        self.joined(charged, watched);
        watched.f_timing_told(phase, watched.sessions);
        self.joined(watched, watched.timing_told(phase, watched.sessions));
    }

    proof fn f_connected(self, peer: PeerID, addr: Ipv4Addr)
        ensures
            self.follows(self.connected(peer, addr)),
            self.trails(self.connected(peer, addr)),
            self.paces(self.connected(peer, addr)),
    {
        reveal(Ctx::connected);
        if self.banned_ips.contains(addr) {
            self.f_doing(EffectView::Disconnect { peer, reason: DisconnectReason::Banned });
        } else {
            let s = SessionView::fresh(addr);
            let held = Ctx { sessions: table::with_row(self.sessions, peer, s), ..self };
            self.f_with_session(peer, s);
            held.aside(self.connected(peer, addr));
            self.joined(held, self.connected(peer, addr));
        }
    }

    proof fn f_left_identity(self, phase: Phase, session: SessionView)
        ensures
            self.follows(self.left_identity(phase, session)),
            self.trails(self.left_identity(phase, session)),
            self.paces(self.left_identity(phase, session)),
    {
        reveal(Ctx::left_identity);
        self.stays();
        if let Some(uuid) = session.uuid {
            let lifted = Ctx { pause_budget: self.pause_budget.resumed(uuid), ..self };
            let released = if lifted.controller == Some(uuid)
                && lifted.config.release_controller_on_leave {
                Ctx { controller: None, ..lifted }
            } else {
                lifted
            };
            self.aside(released);
            let marked = Ctx {
                slots: crate::relay::slots::with_departure(released.slots, uuid),
                ..released
            };
            self.aside(marked);
            marked.f_slots_told_in(phase);
            self.joined(marked, marked.slots_told_in(phase));
        }
    }

    proof fn f_left_turns(self)
        ensures
            self.follows(self.left_turns()),
            self.trails(self.left_turns()),
            self.paces(self.left_turns()),
    {
        reveal(Ctx::left_turns);
        let released = self.turns_released(self.config.turn_length_ms);
        self.f_turns_released(self.config.turn_length_ms);
        let (turns, found) = released.turns.rechecked();
        released.turns.lemma_hashed_ready(PeerID(0), 0, Seq::empty());
        released.turns.lemma_hashed(PeerID(0), 0, Seq::empty());
        let checked = Ctx { turns, ..released };
        released.aside(checked);
        self.joined(released, checked);
        checked.f_mismatches_told(found);
        self.joined(checked, self.left_turns());
    }

    proof fn f_departed(self, phase: Phase, settings: Option<Frozen>, peer: PeerID)
        ensures
            self.follows(self.departed(phase, settings, peer)),
            self.trails(self.departed(phase, settings, peer)),
            self.paces(self.departed(phase, settings, peer)),
    {
        reveal(Ctx::departed);
        self.stays();
        if let Some(session) = table::lookup(self.sessions, peer) {
            let gone = Ctx {
                sessions: table::without_row(self.sessions, peer),
                transfers: self.transfers.forgotten(peer),
                turns: self.turns.forgotten(peer),
                feed: self.feed.forgotten(peer),
                ..self
            };
            assert(self.paces(gone)) by {
                reveal(Ctx::paces);
                self.turns.lemma_forgotten(peer);
                if table::distinct(self.sessions) && table::distinct(self.turns.clients) {
                    table::lemma_without_row_distinct(self.sessions, peer);
                    assert forall|p: PeerID| #[trigger] gone.place(p) is Some implies p != peer
                        && self.place(p) == gone.place(p) && self.turns.is_delayed(p)
                        == gone.turns.is_delayed(p) && order::seals_to(gone.effects, p)
                        == order::seals_to(self.effects, p) + order::turns_after(
                        self.place(p)->0,
                        gone.place(p)->0,
                    ) by {
                        if p != peer {
                            table::lemma_without_row_lookup(self.sessions, peer, p);
                            table::lemma_without_row_lookup(self.turns.clients, peer, p);
                        }
                        assert(order::seals_to(self.effects, p) + order::turns_after(
                            self.place(p)->0,
                            self.place(p)->0,
                        ) =~= order::seals_to(self.effects, p));
                    }
                }
            }
            assert(self.follows(gone) && self.trails(gone)) by {
                reveal(Ctx::follows);
                reveal(Ctx::trails);
                self.turns.lemma_forgotten(peer);
                if table::distinct(self.sessions) {
                    table::lemma_without_row_distinct(self.sessions, peer);
                    assert forall|p: PeerID|
                        #![trigger gone.uuid_of(p)]
                        gone.uuid_of(p) is Some implies gone.uuid_of(p) == self.uuid_of(p) by {
                        if p != peer {
                            table::lemma_without_row_lookup(self.sessions, peer, p);
                        }
                    }
                }
            }
            let undumped = gone.left_dump(peer);
            assert(gone.follows(undumped) && gone.trails(undumped) && gone.paces(undumped)) by {
                reveal(Ctx::left_dump);
                gone.aside(undumped);
            }
            self.joined(gone, undumped);
            let unhosted = undumped.left_ai_host(peer);
            assert(undumped.follows(unhosted) && undumped.trails(unhosted) && undumped.paces(unhosted)) by {
                reveal(Ctx::left_ai_host);
                undumped.stays();
                let stopped = Ctx { ai_host: None, ..undumped }.doing(EffectView::StopAiHost);
                undumped.aside(stopped);
                undumped.f_then_said(
                    stopped,
                    None,
                    crate::relay::server_fsm::admission::AI_HOST_LEFT@,
                );
            }
            self.joined(undumped, unhosted);
            let unknown = unhosted.left_identity(phase, session);
            unhosted.f_left_identity(phase, session);
            self.joined(unhosted, unknown);
            let untimed = unknown.left_turns();
            unknown.f_left_turns();
            self.joined(unknown, untimed);
            let orphans = gamestate_transfer::orphans(self.transfers.incoming, peer);
            untimed.f_all_resought(settings, orphans);
            self.joined(untimed, untimed.all_resought(settings, orphans));
        }
    }

    proof fn f_lobby_vouched(self, username: Seq<char>, token: Seq<char>)
        ensures
            self.follows(self.lobby_vouched(username, token)),
            self.trails(self.lobby_vouched(username, token)),
            self.paces(self.lobby_vouched(username, token)),
    {
        reveal(Ctx::lobby_vouched);
        self.stays();
        if let Some((peer, _)) = crate::relay::server_fsm::admission::session_with_token(
            self.sessions,
            token,
        ) {
            if let Some(s) = table::lookup(self.sessions, peer) {
                let named = SessionView { lobby_name: Some(username), ..s };
                self.f_with_session(peer, named);
                let held = Ctx { sessions: table::with_row(self.sessions, peer, named), ..self };
                held.aside(self.lobby_vouched(username, token));
                self.joined(held, self.lobby_vouched(username, token));
            }
        }
    }

    proof fn f_let_in(
        self,
        phase: Phase,
        settings: Option<Frozen>,
        peer: PeerID,
        uuid: Seq<char>,
        name: Seq<char>,
        joining: bool,
        secret: Seq<char>,
    )
        ensures
            self.follows(self.let_in(phase, settings, peer, uuid, name, joining, secret)),
            self.trails(self.let_in(phase, settings, peer, uuid, name, joining, secret)),
            self.paces(self.let_in(phase, settings, peer, uuid, name, joining, secret)),
    {
        reveal(Ctx::let_in);
        let client_id = self.next_client_id;
        let numbered = self.numbered_in(peer, uuid, secret);
        assert(self.follows(numbered) && self.trails(numbered) && self.paces(numbered)) by {
            reveal(Ctx::numbered_in);
            self.aside(numbered);
        }
        let result = WireMessageView::AuthenticateResult(
            crate::relay::messages::AuthenticateResultView {
                code: if joining {
                    crate::relay::messages::AuthenticateResultCode::OkRejoining
                } else {
                    crate::relay::messages::AuthenticateResultCode::Okay
                },
                host_id: client_id,
                is_controller: self.becomes_controller(peer, secret),
                message: crate::relay::server_fsm::admission::LOGIN_MESSAGE@,
            },
        );
        let told = numbered.sent(peer, result);
        numbered.f_doing(EffectView::Send { peer, msg: result });
        self.joined(numbered, told);
        let entered = told.with_admitted(peer, client_id, name, joining);
        assert(told.follows(entered) && told.trails(entered) && told.paces(entered)) by {
            reveal(Ctx::with_admitted);
            told.stays();
            if let Some(s) = table::lookup(told.sessions, peer) {
                told.f_with_session(
                    peer,
                    SessionView {
                        admitted: Some(
                            crate::relay::session::AdmittedView {
                                client_id,
                                name,
                                role: if joining {
                                    Role::Syncing
                                } else {
                                    Role::Setup
                                },
                            },
                        ),
                        ..s
                    },
                );
            }
        }
        self.joined(told, entered);
        let placed = entered.with_slot(phase, uuid, name);
        assert(entered.follows(placed) && entered.trails(placed) && entered.paces(placed)) by {
            reveal(Ctx::with_slot);
            entered.aside(placed);
        }
        self.joined(entered, placed);
        placed.f_slots_told_in(phase);
        let listed = placed.slots_told_in(phase);
        self.joined(placed, listed);
        let welcomed = listed.welcomed(peer);
        assert(listed.follows(welcomed) && listed.trails(welcomed) && listed.paces(welcomed)) by {
            reveal(Ctx::welcomed);
            listed.stays();
            listed.f_said(Some(peer), listed.config.welcome_message@);
        }
        self.joined(listed, welcomed);
        welcomed.f_snapshot_sought(settings, peer, true);
        self.joined(welcomed, welcomed.snapshot_sought(settings, peer, true));
    }

    proof fn f_authenticated(
        self,
        phase: Phase,
        settings: Option<Frozen>,
        peer: PeerID,
        m: AuthenticateView,
    )
        ensures
            self.follows(self.authenticated(phase, settings, peer, m)),
            self.trails(self.authenticated(phase, settings, peer, m)),
            self.paces(self.authenticated(phase, settings, peer, m)),
    {
        reveal(Ctx::authenticated);
        let verdict = self.verdict(
            phase,
            peer,
            m,
            self.lobby_right(peer, m),
            self.password_right(m),
        );
        match verdict {
            AuthVerdictView::Fault(fault) => self.f_faulted(peer, fault),
            AuthVerdictView::Refuse(reason) => self.f_dropped_in(phase, peer, reason),
            AuthVerdictView::WrongPassword => {
                let e = EffectView::PasswordRejected { peer };
                self.f_doing(e);
                self.doing(e).f_dropped_in(phase, peer, DisconnectReason::Refused);
                self.joined(
                    self.doing(e),
                    self.doing(e).dropped_in(phase, peer, DisconnectReason::Refused),
                );
            },
            AuthVerdictView::Admit { uuid, name, joining, ai_host } => {
                let host = if ai_host {
                    self.with_ai_peer(peer)
                } else {
                    self
                };
                self.aside(host);
                let secret = m.controller_secret;
                host.f_let_in(phase, settings, peer, uuid, name, joining, secret);
                self.joined(
                    host,
                    host.let_in(phase, settings, peer, uuid, name, joining, secret),
                );
            },
        }
    }

    proof fn f_chatted(self, peer: PeerID, m: ChatView)
        ensures
            self.follows(self.chatted(peer, m)),
            self.trails(self.chatted(peer, m)),
            self.paces(self.chatted(peer, m)),
    {
        reveal(Ctx::chatted);
        match self.speaker(peer, Audience::SetupOrInGame) {
            Err(fault) => self.f_faulted(peer, fault),
            Ok(_) => self.aside(self.chatted(peer, m)),
        }
    }

    proof fn f_kicked(self, phase: Phase, peer: PeerID, m: KickedView)
        ensures
            self.follows(self.kicked(phase, peer, m)),
            self.trails(self.kicked(phase, peer, m)),
            self.paces(self.kicked(phase, peer, m)),
    {
        reveal(Ctx::kicked);
        self.stays();
        match self.controlled_by(peer) {
            Err(fault) => self.f_faulted(peer, fault),
            Ok(_) => {
                if let Some((target, _)) = context::session_named(self.sessions, m.name) {
                    let reason = if m.ban {
                        DisconnectReason::Banned
                    } else {
                        DisconnectReason::Kicked
                    };
                    let marked = self.banned(target, m).forfeits(target);
                    self.aside(marked);
                    marked.f_dropped_in(phase, target, reason);
                    let dropped = marked.dropped_in(phase, target, reason);
                    self.joined(marked, dropped);
                    dropped.f_broadcast(WireMessageView::Kicked(m), Audience::Admitted);
                    self.joined(
                        dropped,
                        dropped.broadcast(WireMessageView::Kicked(m), Audience::Admitted),
                    );
                }
            },
        }
    }

    proof fn f_common_message(
        self,
        phase: Phase,
        settings: Option<Frozen>,
        peer: PeerID,
        msg: WireMessageView,
        issued: Option<Seq<char>>,
    )
        requires
            !(msg is SynAck),
        ensures
            self.follows(self.common_message(phase, settings, peer, msg, issued)),
            self.trails(self.common_message(phase, settings, peer, msg, issued)),
            self.paces(self.common_message(phase, settings, peer, msg, issued)),
    {
        reveal(Ctx::common_message);
        self.stays();
        match msg {
            WireMessageView::Authenticate(m) => self.f_authenticated(phase, settings, peer, m),
            WireMessageView::Chat(m) => self.f_chatted(peer, m),
            WireMessageView::Kicked(m) => self.f_kicked(phase, peer, m),
            WireMessageView::GamestateRequest(m) => self.f_state_asked_for(peer, m),
            WireMessageView::GamestateResponse(m) => self.f_state_promised(peer, m),
            WireMessageView::GamestateChunk(m) => self.f_chunk_taken(peer, m),
            WireMessageView::GamestateChunkAck(m) => self.f_chunks_acked(peer, m),
            _ => {},
        }
    }

    proof fn f_common_input(
        self,
        phase: Phase,
        settings: Option<Frozen>,
        input: InputView,
        issued: Option<Seq<char>>,
    )
        requires
            !asks_identity(input),
        ensures
            self.follows(self.common_input(phase, settings, input, issued)),
            self.trails(self.common_input(phase, settings, input, issued)),
            self.paces(self.common_input(phase, settings, input, issued)),
    {
        reveal(Ctx::common_input);
        self.stays();
        match input {
            InputView::Connected { peer, addr } => self.f_connected(peer, addr),
            InputView::Received { peer, msg } => {
                self.f_common_message(phase, settings, peer, msg, issued)
            },
            InputView::Disconnected { peer } => self.f_departed(phase, settings, peer),
            InputView::LobbyAuth { username, token } => self.f_lobby_vouched(username, token),
            InputView::Tick { now, stats } => self.f_ticked(phase, now, stats),
            _ => {},
        }
    }

    proof fn f_setup_message(self, phase: Phase, peer: PeerID, msg: WireMessageView)
        ensures
            self.follows(self.setup_message(phase, peer, msg)),
            self.trails(self.setup_message(phase, peer, msg)),
            self.paces(self.setup_message(phase, peer, msg)),
    {
        self.stays();
        match msg {
            WireMessageView::PreGameStatus(m) => self.f_readied(peer, m),
            WireMessageView::ResetPregameStatus => self.f_unreadied(phase, peer),
            WireMessageView::GameSettings(m) => self.f_reconfigured(peer, m),
            WireMessageView::MapPlayerIdToSlot(m) => self.f_assigned(phase, peer, m),
            _ => {},
        }
    }

    proof fn f_readied(self, peer: PeerID, m: PreGameStatusView)
        ensures
            self.follows(self.readied(peer, m)),
            self.trails(self.readied(peer, m)),
            self.paces(self.readied(peer, m)),
    {
        reveal(Ctx::readied);
        match self.speaker(peer, Audience::Setup) {
            Err(fault) => self.f_faulted(peer, fault),
            Ok(_) => self.aside(self.readied(peer, m)),
        }
    }

    proof fn f_unreadied(self, phase: Phase, peer: PeerID)
        ensures
            self.follows(self.unreadied(phase, peer)),
            self.trails(self.unreadied(phase, peer)),
            self.paces(self.unreadied(phase, peer)),
    {
        reveal(Ctx::unreadied);
        match self.controlled_by(peer) {
            Err(fault) => self.f_faulted(peer, fault),
            Ok(_) => {
                let reset = Ctx {
                    slots: crate::relay::slots::with_reset(self.slots),
                    ..self
                };
                self.aside(reset);
                reset.f_slots_told_in(phase);
                self.joined(reset, reset.slots_told_in(phase));
            },
        }
    }

    proof fn f_reconfigured(self, peer: PeerID, m: GameSettingsView)
        ensures
            self.follows(self.reconfigured(peer, m)),
            self.trails(self.reconfigured(peer, m)),
            self.paces(self.reconfigured(peer, m)),
    {
        reveal(Ctx::reconfigured);
        match self.controlled_by(peer) {
            Err(fault) => self.f_faulted(peer, fault),
            Ok(_) => {
                let listed = match setup::relisted(m.data, self.lobby_map) {
                    Some(map) => {
                        let mapped = Ctx { lobby_map: Some(map), ..self };
                        self.aside(mapped);
                        mapped.f_listed();
                        self.joined(mapped, mapped.listed());
                        mapped.listed()
                    },
                    None => {
                        self.stays();
                        self
                    },
                };
                listed.f_broadcast(WireMessageView::GameSettings(m), Audience::Setup);
                self.joined(
                    listed,
                    listed.broadcast(WireMessageView::GameSettings(m), Audience::Setup),
                );
            },
        }
    }

    proof fn f_assigned(self, phase: Phase, peer: PeerID, m: MapPlayerIdToSlotView)
        ensures
            self.follows(self.assigned(phase, peer, m)),
            self.trails(self.assigned(phase, peer, m)),
            self.paces(self.assigned(phase, peer, m)),
    {
        reveal(Ctx::assigned);
        self.stays();
        match self.controlled_by(peer) {
            Err(fault) => self.f_faulted(peer, fault),
            Ok(_) => {
                let placed = Ctx {
                    slots: crate::relay::slots::with_player(self.slots, m.player_id, m.guid),
                    ..self
                };
                self.aside(placed);
                placed.f_slots_told_in(phase);
                self.joined(placed, placed.slots_told_in(phase));
            },
        }
    }

    proof fn f_all_dropped_in(self, phase: Phase, peers: Seq<PeerID>, reason: DisconnectReason)
        ensures
            self.follows(self.all_dropped_in(phase, peers, reason)),
            self.trails(self.all_dropped_in(phase, peers, reason)),
            self.paces(self.all_dropped_in(phase, peers, reason)),
        decreases peers.len(),
    {
        self.stays();
        if peers.len() > 0 {
            let before = self.all_dropped_in(phase, peers.drop_last(), reason);
            self.f_all_dropped_in(phase, peers.drop_last(), reason);
            before.f_dropped_in(phase, peers.last(), reason);
            self.joined(before, self.all_dropped_in(phase, peers, reason));
        }
    }

    proof fn f_all_registered(self, rows: Seq<(PeerID, SessionView)>)
        ensures
            self.follows(self.all_registered(rows)),
        decreases rows.len(),
    {
        reveal_with_fuel(Ctx::all_registered, 2);
        self.stays();
        if rows.len() > 0 {
            let before = self.all_registered(rows.drop_last());
            self.f_all_registered(rows.drop_last());
            before.turns.lemma_any_client(rows.last().0);
            before.aside(before.registered(rows.last()));
            self.joined(before, before.registered(rows.last()));
        }
    }

    proof fn f_match_begun(self, phase: Phase, start: Seq<u8>, ai_host_start: Option<Seq<u8>>)
        ensures
            self.follows(self.match_begun(phase, start, ai_host_start)),
    {
        reveal(Ctx::match_begun);
        let outsiders = setup::unauthenticated(self.sessions);
        let cleared = self.all_dropped_in(phase, outsiders, DisconnectReason::ServerLoading);
        self.f_all_dropped_in(phase, outsiders, DisconnectReason::ServerLoading);
        let listed = cleared.slots_told_in(phase);
        cleared.f_slots_told_in(phase);
        self.joined(cleared, listed);
        let told = listed.start_told(start, ai_host_start);
        assert(listed.follows(told) && listed.trails(told) && listed.paces(told)) by {
            reveal(Ctx::start_told);
            listed.aside(told);
        }
        self.joined(listed, told);
        let counted = told.all_registered(told.sessions);
        told.f_all_registered(told.sessions);
        self.joined(told, counted);
        assert(counted.follows(counted.with_ai_marked())) by {
            reveal(Ctx::with_ai_marked);
            if let Some(peer) = counted.ai_peer() {
                counted.turns.lemma_any_client(peer);
            }
            counted.aside(counted.with_ai_marked());
        }
        self.joined(counted, counted.with_ai_marked());
    }

    proof fn f_start_asked(self, phase: Phase, peer: PeerID, start: Seq<u8>)
        ensures
            self.follows(self.start_asked(phase, peer, start)),
    {
        self.stays();
        self.f_match_begun(phase, start, None);
        if self.start_outcome(peer, start) is Held {
            self.aside(self.start_asked(phase, peer, start));
        }
    }

    proof fn f_start_refused(self)
        ensures
            self.follows(self.start_refused()),
            self.trails(self.start_refused()),
            self.paces(self.start_refused()),
    {
        reveal(Ctx::start_refused);
        let stopped = Ctx { ai_host: None, ..self }.doing(EffectView::StopAiHost);
        self.aside(stopped);
        self.f_then_said(stopped, None, crate::relay::server_fsm::phases::AI_HOST_FAILED@);
    }

    proof fn f_loading_told(self, announce: bool)
        ensures
            self.follows(self.loading_told(announce)),
            self.trails(self.loading_told(announce)),
            self.paces(self.loading_told(announce)),
    {
        reveal(Ctx::loading_told);
        self.aside(self.loading_told(announce));
    }

    proof fn f_replayed(
        self,
        peer: PeerID,
        from: u32,
        to: u32,
        sealed_through: u32,
        turn_length: u16,
    )
        ensures
            self.follows(self.replayed(peer, from, to, sealed_through, turn_length)),
            ({
                let later = self.replayed(peer, from, to, sealed_through, turn_length);
                &&& later.turns == self.turns
                &&& later.feed == self.feed
                &&& later.sessions == self.sessions
                &&& self.effects.len() <= later.effects.len()
                &&& forall|i: int|
                    self.effects.len() <= i < later.effects.len() ==> told_through(
                        #[trigger] later.effects[i],
                        peer,
                        to,
                    )
            }),
        decreases to,
    {
        self.stays();
        if to > from {
            let before = self.replayed(
                peer,
                from,
                (to - 1) as u32,
                sealed_through,
                turn_length,
            );
            self.f_replayed(peer, from, (to - 1) as u32, sealed_through, turn_length);
            let later = before.turn_replayed(peer, to, sealed_through, turn_length);
            before.aside(later);
            self.joined(before, later);
            let all = before.log.commands_for(to);
            assert forall|i: int| 0 <= i < all.len() implies (#[trigger] all[i]).turn == to by {
                let pick = |c: PlayerCommandView| c.turn == to;
                assert(pick(before.log.commands.filter(pick)[i]));
            }
            let told = before.sent_each(peer, stream::command_messages(all));
            assert forall|i: int| self.effects.len() <= i < later.effects.len() implies
                told_through(#[trigger] later.effects[i], peer, to) by {
                if i < before.effects.len() {
                    assert(later.effects[i] == before.effects[i]);
                } else if i < told.effects.len() {
                    assert(later.effects[i] == told.effects[i]);
                    let k = i - before.effects.len();
                    assert(told.effects[i] == (EffectView::Send {
                        peer,
                        msg: WireMessageView::PlayerCommand(all[k]),
                    }));
                }
            }
        }
    }

    proof fn f_snapshot_loaded(self, settings: Frozen, peer: PeerID, m: LoadedGame)
        ensures
            self.follows(self.snapshot_loaded(settings, peer, m)),
            self.shows_no_more(self.snapshot_loaded(settings, peer, m)),
            self.tells_on(self.snapshot_loaded(settings, peer, m)),
    {
        self.lemma_paces_tells();
        self.lemma_trails_shows();
        reveal(Ctx::snapshot_loaded);
        self.f_faulted(peer, PeerFault::NoSession);
        self.f_faulted(peer, PeerFault::WrongPhase);
        if let Some(s) = table::lookup(self.sessions, peer) {
            if let (Some(uuid), Some(client_id)) = (s.uuid, s.client_id()) {
                self.f_live_resumed(settings, peer, uuid, client_id, m.current_turn);
                self.f_delayed_resumed(settings, peer, client_id, m.current_turn);
            }
        }
    }

    proof fn f_live_resumed(
        self,
        settings: Frozen,
        peer: PeerID,
        uuid: Seq<char>,
        client_id: u16,
        snapshot_turn: u32,
    )
        ensures
            self.follows(
                self.live_resumed(settings, peer, uuid, client_id, snapshot_turn),
            ),
            self.trails(
                self.live_resumed(settings, peer, uuid, client_id, snapshot_turn),
            ),
            self.place(peer) is None ==> self.tells_on(
                self.live_resumed(settings, peer, uuid, client_id, snapshot_turn),
            ),
    {
        reveal(Ctx::live_resumed);
        let ready = self.turns.ready;
        let length = settings.turn_length_ms as u16;
        let replayed = self.replayed(peer, snapshot_turn, self.replay_end(), ready, length);
        self.f_replayed(peer, snapshot_turn, self.replay_end(), ready, length);
        let msg = WireMessageView::LoadedGame(LoadedGame { current_turn: ready });
        replayed.f_doing(EffectView::Send { peer, msg });
        let sent = replayed.sent(peer, msg);
        self.joined(replayed, sent);
        sent.f_with_role(peer, Role::InGame);
        let caught_up = sent.with_role(peer, Role::InGame);
        self.joined(sent, caught_up);
        let later = self.live_resumed(settings, peer, uuid, client_id, snapshot_turn);
        caught_up.turns.lemma_any_client(peer);
        caught_up.aside(later);
        self.joined(caught_up, later);
        assert(self.trails(later)) by {
            reveal(Ctx::trails);
            reveal(Ctx::follows);
            let c = TurnClient {
                client_id,
                sealed: (ready + turn::COMMAND_DELAY - 1) as u32,
                simulated: ready,
                observer: caught_up.is_observer(uuid),
                delayed: false,
                ai_host: false,
                out_of_sync: false,
            };
            self.turns.lemma_with_client(peer, c);
            table::lemma_with_row_lookup(self.turns.clients, peer, c, peer);
            assert(!later.turns.is_delayed(peer));
            assert forall|i: int| self.effects.len() <= i < later.effects.len() implies
                !later.gives_away(#[trigger] later.effects[i]) by {
                if i < replayed.effects.len() {
                    assert(later.effects[i] == replayed.effects[i]);
                }
            }
        }
        if self.place(peer) is None {
            reveal(Ctx::follows);
            self.lemma_resumed(
                replayed,
                later,
                peer,
                self.replay_end(),
                msg,
                TurnClient {
                    client_id,
                    sealed: (ready + turn::COMMAND_DELAY - 1) as u32,
                    simulated: ready,
                    observer: caught_up.is_observer(uuid),
                    delayed: false,
                    ai_host: false,
                    out_of_sync: false,
                },
            );
        }
    }

    proof fn f_delayed_resumed(
        self,
        settings: Frozen,
        peer: PeerID,
        client_id: u16,
        snapshot_turn: u32,
    )
        ensures
            self.follows(self.delayed_resumed(settings, peer, client_id, snapshot_turn)),
            self.keeps_delay(self.delayed_resumed(settings, peer, client_id, snapshot_turn)),
            self.place(peer) is None ==> self.tells_on(
                self.delayed_resumed(settings, peer, client_id, snapshot_turn),
            ),
            table::distinct(self.turns.clients) ==> table::distinct(
                self.delayed_resumed(settings, peer, client_id, snapshot_turn).turns.clients,
            ),
    {
        reveal(Ctx::delayed_resumed);
        let head = self.feed.head;
        let length = settings.turn_length_ms as u16;
        let replayed = self.replayed(peer, snapshot_turn, head, head, length);
        self.f_replayed(peer, snapshot_turn, head, head, length);
        let msg = WireMessageView::LoadedGame(LoadedGame { current_turn: head });
        replayed.f_doing(EffectView::Send { peer, msg });
        let sent = replayed.sent(peer, msg);
        self.joined(replayed, sent);
        sent.f_with_role(peer, Role::InGame);
        let caught_up = sent.with_role(peer, Role::InGame);
        self.joined(sent, caught_up);
        let later = self.delayed_resumed(settings, peer, client_id, snapshot_turn);
        caught_up.turns.lemma_any_client(peer);
        caught_up.aside(later);
        self.joined(caught_up, later);
        assert forall|i: int| self.effects.len() <= i < later.effects.len() implies
            !later.gives_away(#[trigger] later.effects[i]) by {
            if i < replayed.effects.len() {
                assert(later.effects[i] == replayed.effects[i]);
                assert(told_through(replayed.effects[i], peer, head));
            }
        }
        if self.place(peer) is None {
            reveal(Ctx::follows);
            self.lemma_resumed(
                replayed,
                later,
                peer,
                head,
                msg,
                TurnClient {
                    client_id,
                    sealed: (head + turn::COMMAND_DELAY - 1) as u32,
                    simulated: head,
                    observer: true,
                    delayed: true,
                    ai_host: false,
                    out_of_sync: false,
                },
            );
        }
        if table::distinct(self.turns.clients) {
            table::lemma_with_row_distinct(
                self.turns.clients,
                peer,
                TurnClient {
                    client_id,
                    sealed: (head + turn::COMMAND_DELAY - 1) as u32,
                    simulated: head,
                    observer: true,
                    delayed: true,
                    ai_host: false,
                    out_of_sync: false,
                },
            );
        }
    }

    proof fn f_came_in(self, peer: PeerID)
        ensures
            self.follows(self.came_in(peer)),
            self.trails(self.came_in(peer)),
            self.paces(self.came_in(peer)),
    {
        reveal(Ctx::came_in);
        match self.speaker(peer, Audience::InGame) {
            Err(fault) => self.f_faulted(peer, fault),
            Ok(_) => self.aside(self.came_in(peer)),
        }
    }

    proof fn f_pause_refused(self, peer: PeerID, uuid: Seq<char>, why: Seq<char>)
        ensures
            self.follows(self.pause_refused(peer, uuid, why)),
            self.trails(self.pause_refused(peer, uuid, why)),
            self.paces(self.pause_refused(peer, uuid, why)),
    {
        self.f_said(Some(peer), why);
        let told = self.said(Some(peer), why);
        told.aside(self.pause_refused(peer, uuid, why));
        self.joined(told, self.pause_refused(peer, uuid, why));
    }

    proof fn f_pause_asked(self, peer: PeerID, pause: bool)
        ensures
            self.follows(self.pause_asked(peer, pause)),
            self.trails(self.pause_asked(peer, pause)),
            self.paces(self.pause_asked(peer, pause)),
    {
        reveal(Ctx::pause_asked);
        self.stays();
        match self.speaker(peer, Audience::InGame) {
            Err(fault) => self.f_faulted(peer, fault),
            Ok(uuid) => {
                self.f_pause_refused(
                    peer,
                    uuid,
                    crate::relay::server_fsm::playing::ONLY_PLAYERS_PAUSE@,
                );
                self.f_pause_refused(
                    peer,
                    uuid,
                    crate::relay::server_fsm::playing::OUT_OF_BUDGET@,
                );
                if !self.turns.is_delayed(peer) && !pause {
                    self.aside(self.pause_asked(peer, pause));
                }
                let relayed = Ctx {
                    pause_budget: self.pause_budget.paused(uuid),
                    ..self
                }.pause_relayed(peer, uuid, true);
                self.aside(relayed);
                if let Some(name) = relayed.name_of(uuid) {
                    self.f_then_said(
                        relayed,
                        None,
                        timing::left_line(
                            ""@,
                            name,
                            " paused. "@,
                            self.pause_budget.remaining(uuid) as int,
                        ),
                    );
                }
            },
        }
    }

    proof fn f_commanded(self, settings: Frozen, peer: PeerID, m: PlayerCommandView)
        ensures
            self.follows(self.commanded(settings, peer, m)),
            self.trails(self.commanded(settings, peer, m)),
            self.paces(self.commanded(settings, peer, m)),
    {
        reveal(Ctx::commanded);
        match self.speaker(peer, Audience::InGame) {
            Err(fault) => self.f_faulted(peer, fault),
            Ok(uuid) => {
                self.stays();
                let own = self.speaks_for_self(uuid, m.player) || self.speaks_for_ai(
                    peer,
                    m.player,
                );
                let noted = if own && crate::relay::server_fsm::playing::is_resign(m.data) {
                    Ctx {
                        resigned: crate::utils::with_member(self.resigned, m.player),
                        checkpoints: self.checkpoints.probed(m.turn),
                        ..self
                    }
                } else {
                    self
                };
                self.aside(noted);
                let msg = WireMessageView::PlayerCommand(m);
                let told = noted.told_live(msg);
                noted.f_sent_to(noted.live_peers(), msg);
                noted.lemma_live_undelayed();
                noted.lemma_told_reached(noted.live_peers(), msg);
                self.joined(noted, told);
                let kept = Ctx { log: told.log.with_command(m), ..told };
                told.aside(kept);
                self.joined(told, kept);
            },
        }
    }

    proof fn f_flared(self, peer: PeerID, m: FlareView)
        ensures
            self.follows(self.flared(peer, m)),
            self.trails(self.flared(peer, m)),
            self.paces(self.flared(peer, m)),
    {
        reveal(Ctx::flared);
        match self.speaker(peer, Audience::InGame) {
            Err(fault) => self.f_faulted(peer, fault),
            Ok(_) => self.aside(self.flared(peer, m)),
        }
    }

    proof fn f_seal_taken(self, settings: Frozen, peer: PeerID, m: TurnSealed)
        ensures
            self.follows(self.seal_taken(settings, peer, m)),
            self.trails(self.seal_taken(settings, peer, m)),
            self.paces(self.seal_taken(settings, peer, m)),
    {
        reveal(Ctx::seal_taken);
        match self.turns.seal_fault(peer, m.turn) {
            Some(fault) => self.f_faulted(peer, fault),
            None => {
                let noted = Ctx { turns: self.turns.sealed(peer, m.turn), ..self };
                let c = table::lookup(self.turns.clients, peer)->0;
                self.turns.lemma_with_client(peer, TurnClient { sealed: m.turn, ..c });
                self.aside(noted);
                noted.f_turns_released(settings.turn_length_ms);
                self.joined(noted, noted.turns_released(settings.turn_length_ms));
            },
        }
    }

    proof fn f_hash_taken(self, peer: PeerID, m: StateHashView)
        ensures
            self.follows(self.hash_taken(peer, m)),
            self.trails(self.hash_taken(peer, m)),
            self.paces(self.hash_taken(peer, m)),
    {
        reveal(Ctx::hash_taken);
        match self.turns.hash_fault(peer, m.turn) {
            Some(fault) => self.f_faulted(peer, fault),
            None => {
                let (turns, found) = self.turns.hashed(peer, m.turn, m.hash);
                self.turns.lemma_hashed_ready(peer, m.turn, m.hash);
                self.turns.lemma_hashed(peer, m.turn, m.hash);
                let noted = Ctx { turns, ..self };
                self.aside(noted);
                noted.f_mismatches_told(found);
                self.joined(noted, noted.mismatches_told(found));
            },
        }
    }

    proof fn f_match_message(
        self,
        phase: Phase,
        settings: Frozen,
        peer: PeerID,
        msg: WireMessageView,
        issued: Option<Seq<char>>,
    )
        requires
            !(msg is SynAck),
        ensures
            self.follows(self.match_message(phase, settings, peer, msg, issued)),
            self.shows_no_more(self.match_message(phase, settings, peer, msg, issued)),
            self.tells_on(self.match_message(phase, settings, peer, msg, issued)),
    {
        self.lemma_paces_tells();
        self.lemma_trails_shows();
        reveal(Ctx::match_message);
        match msg {
            WireMessageView::Joined(_) => self.f_came_in(peer),
            WireMessageView::PlayerPause(m) => self.f_pause_asked(peer, m.pause),
            WireMessageView::PlayerCommand(m) => self.f_commanded(settings, peer, m),
            WireMessageView::Flare(m) => self.f_flared(peer, m),
            WireMessageView::TurnSealed(m) => self.f_seal_taken(settings, peer, m),
            WireMessageView::StateHash(m) => self.f_hash_taken(peer, m),
            WireMessageView::LoadedGame(m) => self.f_snapshot_loaded(settings, peer, m),
            WireMessageView::GamestateChunk(m) => {
                self.f_snapshot_chunk_taken(Some(settings), peer, m)
            },
            _ => self.f_common_message(phase, Some(settings), peer, msg, issued),
        }
    }

    proof fn f_ended(self, resolved_by: Option<u32>)
        ensures
            self.follows(self.ended(resolved_by)),
            self.trails(self.ended(resolved_by)),
            self.paces(self.ended(resolved_by)),
    {
        reveal(Ctx::ended);
        let e = EffectView::MatchEnded { checkpoint: resolved_by };
        self.f_doing(e);
        self.f_then_said(
            self.doing(e),
            None,
            crate::relay::server_fsm::playing::MATCH_OVER@
                + crate::relay::server_fsm::settings::span_text(
                crate::relay::server_fsm::settings::shown_secs(self.config.post_game_linger),
            ) + crate::relay::server_fsm::playing::OR_ONCE_LEFT@,
        );
    }

    proof fn f_checkpointing(self, settings: Frozen)
        ensures
            self.follows(self.checkpointing(settings)),
            self.trails(self.checkpointing(settings)),
            self.paces(self.checkpointing(settings)),
    {
        reveal(Ctx::checkpointing);
        self.aside(self.checkpointing(settings));
    }

    proof fn f_checkpointed(self, id: u32, state: Option<Seq<u8>>)
        ensures
            self.follows(self.checkpointed(id, state)),
            self.trails(self.checkpointed(id, state)),
            self.paces(self.checkpointed(id, state)),
    {
        reveal(Ctx::checkpointed);
        self.aside(self.checkpointed(id, state));
    }

    proof fn f_departure_probed(self, peer: PeerID)
        ensures
            self.follows(self.departure_probed(peer)),
            self.trails(self.departure_probed(peer)),
            self.paces(self.departure_probed(peer)),
    {
        reveal(Ctx::departure_probed);
        self.aside(self.departure_probed(peer));
    }
}

/// Whether an input asks for an identity.
pub open spec fn asks_identity(input: InputView) -> bool {
    input matches InputView::Received { msg, .. } && msg is SynAck
}

impl AnyView {
    proof fn f_played_on(c: Ctx, settings: Frozen)
        ensures
            c.follows(AnyView::played_on(c, settings).ctx()),
            c.trails(AnyView::played_on(c, settings).ctx()),
            c.paces(AnyView::played_on(c, settings).ctx()),
    {
        c.f_ended(None);
        c.f_checkpointing(settings);
    }

    proof fn f_then_played_on(first: Ctx, c: Ctx, settings: Frozen)
        requires
            first.follows(c),
            first.shows_no_more(c),
            first.tells_on(c),
        ensures
            first.follows(AnyView::played_on(c, settings).ctx()),
            first.shows_no_more(AnyView::played_on(c, settings).ctx()),
            first.tells_on(AnyView::played_on(c, settings).ctx()),
    {
        Self::f_played_on(c, settings);
        first.joined(c, AnyView::played_on(c, settings).ctx());
        first.lemma_shows_then(c, AnyView::played_on(c, settings).ctx());
        first.lemma_tells_then(c, AnyView::played_on(c, settings).ctx());
    }

    proof fn f_setup_handled(c: Ctx, input: InputView, issued: Option<Seq<char>>)
        requires
            !asks_identity(input),
        ensures
            c.follows(AnyView::setup_handled(c, input, issued).ctx()),
    {
        match input {
            InputView::Received { peer, msg } => {
                if setup::is_setup_message(msg) {
                    c.f_setup_message(Phase::Setup, peer, msg);
                } else {
                    match msg {
                        WireMessageView::StartSettings(m) => {
                            c.f_start_asked(Phase::Setup, peer, m.init_attributes);
                            let ctx = c.start_asked(Phase::Setup, peer, m.init_attributes);
                            ctx.aside(ctx.start_listed());
                            c.joined(ctx, ctx.start_listed());
                        },
                        WireMessageView::StartSavegameSettings(_) => {
                            c.f_said(Some(peer), setup::NO_SAVED_GAMES@);
                        },
                        _ => c.f_common_message(Phase::Setup, None, peer, msg, issued),
                    }
                }
            },
            _ => c.f_common_input(Phase::Setup, None, input, issued),
        }
    }

    proof fn f_savegame_handled(
        c: Ctx,
        settings_json: Seq<u8>,
        input: InputView,
        issued: Option<Seq<char>>,
    )
        requires
            !asks_identity(input),
        ensures
            c.follows(AnyView::savegame_handled(c, settings_json, input, issued).ctx()),
    {
        match input {
            InputView::Received { peer, msg } => {
                c.f_setup_message(Phase::Setup, peer, msg);
                c.f_common_message(Phase::Setup, None, peer, msg, issued);
            },
            _ => c.f_common_input(Phase::Setup, None, input, issued),
        }
    }

    proof fn f_held_handled(
        c: Ctx,
        held: setup::HeldStart,
        requested_at: Option<Time>,
        input: InputView,
        issued: Option<Seq<char>>,
    )
        requires
            !asks_identity(input),
        ensures
            c.follows(AnyView::held_handled(c, held, requested_at, input, issued).ctx()),
    {
        c.stays();
        match input {
            InputView::Received { peer, msg } => {
                c.f_setup_message(Phase::Setup, peer, msg);
                c.f_common_message(Phase::Setup, None, peer, msg, issued);
                let ctx = c.common_message(Phase::Setup, None, peer, msg, issued);
                ctx.f_match_begun(Phase::Setup, held.start, Some(held.ai_host_start));
                let begun = ctx.match_begun(Phase::Setup, held.start, Some(held.ai_host_start));
                c.joined(ctx, begun);
                begun.aside(begun.start_listed());
                c.joined(begun, begun.start_listed());
            },
            InputView::AiHostExited => c.f_start_refused(),
            InputView::Tick { now, stats } => {
                c.f_ticked(Phase::Setup, now, stats);
                let ctx = c.ticked(Phase::Setup, now, stats);
                ctx.f_start_refused();
                c.joined(ctx, ctx.start_refused());
            },
            InputView::Disconnected { peer } => {
                c.f_departed(Phase::Setup, None, peer);
                let ctx = c.departed(Phase::Setup, None, peer);
                ctx.f_start_refused();
                c.joined(ctx, ctx.start_refused());
            },
            _ => c.f_common_input(Phase::Setup, None, input, issued),
        }
    }

    proof fn f_loading_handled(
        c: Ctx,
        settings: Frozen,
        saved_state: Option<Seq<u8>>,
        input: InputView,
        issued: Option<Seq<char>>,
    )
        requires
            !asks_identity(input),
        ensures
            c.follows(
                AnyView::loading_handled(c, settings, saved_state, input, issued).ctx(),
            ),
            c.shows_no_more(
                AnyView::loading_handled(c, settings, saved_state, input, issued).ctx(),
            ),
            c.tells_on(
                AnyView::loading_handled(c, settings, saved_state, input, issued).ctx(),
            ),
    {
        c.lemma_paces_tells();
        c.lemma_trails_shows();
        c.stays();
        match input {
            InputView::Received { peer, msg: WireMessageView::LoadedGame(_) } => {
                c.f_with_role(peer, Role::InGame);
                let ctx = c.with_role(peer, Role::InGame);
                ctx.f_loading_told(true);
                c.joined(ctx, ctx.loading_told(true));
                c.lemma_tells_then(ctx, ctx.loading_told(true));
            },
            InputView::Received { peer, msg: WireMessageView::PreGameStatus(_) } => {},
            InputView::Disconnected { peer } => {
                c.f_departed(Phase::Loading, Some(settings), peer);
                let ctx = c.departed(Phase::Loading, Some(settings), peer);
                ctx.f_loading_told(false);
                c.joined(ctx, ctx.loading_told(false));
            },
            _ => c.f_common_input(Phase::Loading, Some(settings), input, issued),
        }
    }

    proof fn f_game_handled(
        c: Ctx,
        settings: Frozen,
        input: InputView,
        issued: Option<Seq<char>>,
    )
        requires
            !asks_identity(input),
        ensures
            c.follows(AnyView::game_handled(c, settings, input, issued).ctx()),
            c.shows_no_more(AnyView::game_handled(c, settings, input, issued).ctx()),
            c.tells_on(AnyView::game_handled(c, settings, input, issued).ctx()),
    {
        c.lemma_paces_tells();
        c.lemma_trails_shows();
        match input {
            InputView::Received { peer, msg } => {
                c.f_match_message(Phase::InGame, settings, peer, msg, issued);
                let ctx = c.match_message(Phase::InGame, settings, peer, msg, issued);
                Self::f_then_played_on(c, ctx, settings);
            },
            InputView::StateDumped { id, state } => {
                c.f_state_dumped(Some(settings), id, state);
                let ctx = c.state_dumped(Some(settings), id, state);
                Self::f_then_played_on(c, ctx, settings);
            },
            InputView::Checkpointed { id, state, players } => {
                c.f_checkpointed(id, state);
                let ctx = c.checkpointed(id, state);
                ctx.f_ended(Some(id));
                c.joined(ctx, ctx.ended(Some(id)));
                Self::f_then_played_on(c, ctx, settings);
            },
            InputView::Disconnected { peer } => {
                c.f_departure_probed(peer);
                let probed = c.departure_probed(peer);
                probed.f_common_input(Phase::InGame, Some(settings), input, issued);
                let ctx = probed.common_input(Phase::InGame, Some(settings), input, issued);
                c.joined(probed, ctx);
                Self::f_then_played_on(c, ctx, settings);
            },
            _ => {
                c.f_common_input(Phase::InGame, Some(settings), input, issued);
                let ctx = c.common_input(Phase::InGame, Some(settings), input, issued);
                Self::f_then_played_on(c, ctx, settings);
            },
        }
    }

    proof fn f_post_handled(
        c: Ctx,
        settings: Frozen,
        resolved_by: Option<u32>,
        ended_at: Option<Time>,
        input: InputView,
        issued: Option<Seq<char>>,
    )
        requires
            !asks_identity(input),
        ensures
            c.follows(
                AnyView::post_handled(c, settings, resolved_by, ended_at, input, issued).ctx(),
            ),
            c.shows_no_more(
                AnyView::post_handled(c, settings, resolved_by, ended_at, input, issued).ctx(),
            ),
            c.tells_on(
                AnyView::post_handled(c, settings, resolved_by, ended_at, input, issued).ctx(),
            ),
    {
        c.lemma_paces_tells();
        c.lemma_trails_shows();
        match input {
            InputView::Received { peer, msg } => {
                c.f_match_message(Phase::PostGame, settings, peer, msg, issued);
            },
            InputView::StateDumped { id, state } => c.f_state_dumped(Some(settings), id, state),
            InputView::Tick { now, stats } => {
                c.f_ticked(Phase::PostGame, now, stats);
                let ctx = c.ticked(Phase::PostGame, now, stats);
                ctx.f_doing(EffectView::GameOver);
                c.joined(ctx, ctx.doing(EffectView::GameOver));
            },
            _ => c.f_common_input(Phase::PostGame, Some(settings), input, issued),
        }
    }

    proof fn f_handled(self, input: InputView, issued: Option<Seq<char>>)
        requires
            !asks_identity(input),
        ensures
            self.ctx().follows(self.handled(input, issued).ctx()),
    {
        match self {
            AnyView::Idle { ctx } => ctx.stays(),
            AnyView::Setup { ctx } => Self::f_setup_handled(ctx, input, issued),
            AnyView::AwaitSavegame { ctx, settings_json } => Self::f_savegame_handled(
                ctx,
                settings_json,
                input,
                issued,
            ),
            AnyView::AwaitAiHost { ctx, held, requested_at } => Self::f_held_handled(
                ctx,
                held,
                requested_at,
                input,
                issued,
            ),
            AnyView::Loading { ctx, settings, saved_state } => Self::f_loading_handled(
                ctx,
                settings,
                saved_state,
                input,
                issued,
            ),
            AnyView::InGame { ctx, settings } => Self::f_game_handled(
                ctx,
                settings,
                input,
                issued,
            ),
            AnyView::PostGame { ctx, settings, resolved_by, ended_at } => Self::f_post_handled(
                ctx,
                settings,
                resolved_by,
                ended_at,
                input,
                issued,
            ),
        }
    }

    /// What a handshake does, in whatever phase it comes: it is answered, and
    /// in a running match the match then goes on as after anything else.
    proof fn lemma_handshake(self, peer: PeerID, m: SynAckView, issued: Option<Seq<char>>)
        ensures
            ({
                let input = InputView::Received { peer, msg: WireMessageView::SynAck(m) };
                let shaken = self.ctx().handshaken(self.phase(), peer, m, issued);
                let later = self.handled(input, issued).ctx();
                if self is Idle {
                    later == self.ctx()
                } else {
                    shaken.follows(later) && shaken.trails(later) && shaken.paces(later)
                }
            }),
    {
        reveal(Ctx::common_message);
        reveal(Ctx::common_input);
        reveal(Ctx::match_message);
        let shaken = self.ctx().handshaken(self.phase(), peer, m, issued);
        shaken.stays();
        if let AnyView::InGame { ctx, settings } = self {
            Self::f_played_on(shaken, settings);
        }
    }

    /// Whatever happens, nothing that was decided is taken back: what was to be
    /// done still is, first and in the same order, no released turn and no
    /// command that was taken is taken back, and bans, resignations and
    /// forfeits stand.
    pub proof fn nothing_is_taken_back(self, input: InputView, issued: Option<Seq<char>>)
        ensures
            self.ctx().remembers(self.handled(input, issued).ctx()),
    {
        reveal(Ctx::follows);
        let c = self.ctx();
        let later = self.handled(input, issued).ctx();
        match input {
            InputView::Received { peer, msg: WireMessageView::SynAck(m) } => {
                let shaken = c.handshaken(self.phase(), peer, m, issued);
                c.lemma_shaken(self.phase(), peer, m, issued);
                self.lemma_handshake(peer, m, issued);
            },
            _ => self.f_handled(input, issued),
        }
    }

    /// No two sessions ever share an identity, and none ever has the relay's
    /// own, as long as only identities that are nobody's are issued: a shared
    /// one would make every slot and every chat line ambiguous.
    pub proof fn identities_are_not_shared(self, input: InputView, issued: Option<Seq<char>>)
        requires
            self.ctx().ids_apart(),
            issued matches Some(uuid) ==> self.ctx().is_free(uuid),
        ensures
            self.handled(input, issued).ctx().ids_apart(),
    {
        let c = self.ctx();
        let later = self.handled(input, issued).ctx();
        match input {
            InputView::Received { peer, msg: WireMessageView::SynAck(m) } => {
                let shaken = c.handshaken(self.phase(), peer, m, issued);
                self.lemma_handshake(peer, m, issued);
                if !(self is Idle) {
                    c.lemma_shaken_apart(self.phase(), peer, m, issued);
                    shaken.lemma_apart(later);
                }
            },
            _ => {
                self.f_handled(input, issued);
                c.lemma_apart(later);
            },
        }
    }

    /// Nobody on the delayed feed is ever told of a turn, neither of its
    /// commands nor that it was released, before the feed has reached it: what
    /// they see cannot be passed on to a player in time to matter.
    pub proof fn the_feed_gives_nothing_away(self, input: InputView, issued: Option<Seq<char>>)
        requires
            self is Loading || self is InGame || self is PostGame,
            table::distinct(self.ctx().turns.clients),
        ensures
            self.ctx().keeps_delay(self.handled(input, issued).ctx()),
            table::distinct(self.handled(input, issued).ctx().turns.clients),
    {
        let c = self.ctx();
        let later = self.handled(input, issued).ctx();
        match input {
            InputView::Received { peer, msg: WireMessageView::SynAck(m) } => {
                let shaken = c.handshaken(self.phase(), peer, m, issued);
                c.lemma_shaken(self.phase(), peer, m, issued);
                self.lemma_handshake(peer, m, issued);
                c.lemma_trails_shows();
                c.lemma_keeps_delay(shaken, later);
                assert(table::distinct(later.turns.clients)) by {
                    reveal(Ctx::trails);
                }
            },
            _ => match self {
                AnyView::Loading { ctx, settings, saved_state } => Self::f_loading_handled(
                    ctx,
                    settings,
                    saved_state,
                    input,
                    issued,
                ),
                AnyView::InGame { ctx, settings } => Self::f_game_handled(
                    ctx,
                    settings,
                    input,
                    issued,
                ),
                AnyView::PostGame { ctx, settings, resolved_by, ended_at } => {
                    Self::f_post_handled(ctx, settings, resolved_by, ended_at, input, issued)
                },
                _ => {},
            },
        }
    }

    /// Whoever is in the match, and stays in it, is told of every turn one by
    /// one: whatever happens, the turns they are newly told of are those after
    /// the last they were told of before, through the last that was released,
    /// or that the feed has reached for those it is delayed for. A client takes
    /// no other.
    pub proof fn turns_come_one_by_one(self, input: InputView, issued: Option<Seq<char>>)
        requires
            self is Loading || self is InGame || self is PostGame,
            table::distinct(self.ctx().sessions),
            table::distinct(self.ctx().turns.clients),
        ensures
            self.ctx().told_one_by_one(self.handled(input, issued).ctx()),
            table::distinct(self.handled(input, issued).ctx().sessions),
            table::distinct(self.handled(input, issued).ctx().turns.clients),
    {
        let c = self.ctx();
        let later = self.handled(input, issued).ctx();
        match input {
            InputView::Received { peer, msg: WireMessageView::SynAck(m) } => {
                let shaken = c.handshaken(self.phase(), peer, m, issued);
                c.lemma_shaken(self.phase(), peer, m, issued);
                self.lemma_handshake(peer, m, issued);
                c.lemma_paces_joined(shaken, later);
                c.lemma_paces_tells();
            },
            _ => match self {
                AnyView::Loading { ctx, settings, saved_state } => Self::f_loading_handled(
                    ctx,
                    settings,
                    saved_state,
                    input,
                    issued,
                ),
                AnyView::InGame { ctx, settings } => Self::f_game_handled(
                    ctx,
                    settings,
                    input,
                    issued,
                ),
                AnyView::PostGame { ctx, settings, resolved_by, ended_at } => {
                    Self::f_post_handled(ctx, settings, resolved_by, ended_at, input, issued)
                },
                _ => {},
            },
        }
    }

    /// No peer ever has two sessions, nor is counted twice for the release of
    /// turns.
    pub proof fn peers_are_counted_once(self, input: InputView, issued: Option<Seq<char>>)
        requires
            table::distinct(self.ctx().sessions),
            table::distinct(self.ctx().turns.clients),
        ensures
            table::distinct(self.handled(input, issued).ctx().sessions),
            table::distinct(self.handled(input, issued).ctx().turns.clients),
    {
        let c = self.ctx();
        match input {
            InputView::Received { peer, msg: WireMessageView::SynAck(m) } => {
                c.lemma_shaken(self.phase(), peer, m, issued);
                self.lemma_handshake(peer, m, issued);
                assert(c.paces(c.handshaken(self.phase(), peer, m, issued)));
                reveal(Ctx::paces);
            },
            _ => {
                self.f_handled(input, issued);
                reveal(Ctx::follows);
            },
        }
    }

    /// In a match that has only just been opened no identity is shared, and
    /// nobody is counted twice.
    pub proof fn identities_start_apart(
        config: crate::relay::server_fsm::Config,
        server_uuid: Seq<char>,
        ai_host_name: Seq<char>,
    )
        ensures
            Ctx::fresh(config, server_uuid, ai_host_name).ids_apart(),
            table::distinct(Ctx::fresh(config, server_uuid, ai_host_name).turns.clients),
    {
    }

    /// A match goes one way: setup leads to loading, loading to the match, and
    /// the match to its end; only a start that is given up leads back.
    pub proof fn phases_go_one_way(self, input: InputView, issued: Option<Seq<char>>)
        ensures
            match self.handled(input, issued) {
                AnyView::Idle { .. } => self is Idle,
                AnyView::Setup { .. } => self is Setup || self is AwaitAiHost,
                AnyView::AwaitSavegame { .. } => self is AwaitSavegame,
                AnyView::AwaitAiHost { .. } => self is Setup || self is AwaitAiHost,
                AnyView::Loading { .. } => self is Setup || self is AwaitAiHost || self is Loading,
                AnyView::InGame { .. } => self is Loading || self is InGame,
                AnyView::PostGame { .. } => self is InGame || self is PostGame,
            },
    {
    }

    /// The settings a match was started with stay its settings.
    pub proof fn settings_stay(self, input: InputView, issued: Option<Seq<char>>)
        ensures
            match (self, self.handled(input, issued)) {
                (AnyView::Loading { settings: a, .. }, AnyView::Loading { settings: b, .. }) => a
                    == b,
                (AnyView::Loading { settings: a, .. }, AnyView::InGame { settings: b, .. }) => a
                    == b,
                (AnyView::InGame { settings: a, .. }, AnyView::InGame { settings: b, .. }) => a
                    == b,
                (AnyView::InGame { settings: a, .. }, AnyView::PostGame { settings: b, .. }) => a
                    == b,
                (AnyView::PostGame { settings: a, .. }, AnyView::PostGame { settings: b, .. }) => a
                    == b,
                _ => true,
            },
    {
    }
}

impl Ctx {
    proof fn lemma_shaken(
        self,
        phase: Phase,
        peer: PeerID,
        m: SynAckView,
        issued: Option<Seq<char>>,
    )
        ensures
            self.remembers(self.handshaken(phase, peer, m, issued)),
            table::distinct(self.turns.clients) ==> table::distinct(
                self.handshaken(phase, peer, m, issued).turns.clients,
            ),
            self.trails(self.handshaken(phase, peer, m, issued)),
            self.paces(self.handshaken(phase, peer, m, issued)),
    {
        reveal(Ctx::handshaken);
        reveal(Ctx::follows);
        reveal(Ctx::trails);
        self.f_faulted(peer, PeerFault::NoSession);
        self.f_faulted(peer, PeerFault::WrongPhase);
        self.f_dropped(peer, DisconnectReason::GameVersionMismatch);
        self.f_dropped(peer, DisconnectReason::SimulationOrModMismatch);
        self.f_dropped_in(phase, peer, DisconnectReason::NoUuid);
        let later = self.handshaken(phase, peer, m, issued);
        if let (Some(s), Some(uuid)) = (table::lookup(self.sessions, peer), issued) {
            let known = SessionView { uuid: Some(uuid), ..s };
            self.lemma_paces_session(peer, known);
            let named = Ctx { sessions: table::with_row(self.sessions, peer, known), ..self };
            let answer = later.effects.last();
            if later == named.doing(answer) && !order::is_seal(answer) {
                named.f_doing(answer);
                self.lemma_paces_joined(named, later);
            }
        }
    }

    proof fn lemma_apart(self, later: Ctx)
        requires
            self.follows(later),
            self.ids_apart(),
        ensures
            later.ids_apart(),
    {
        reveal(Ctx::follows);
        assert forall|p: PeerID| #[trigger] later.uuid_of(p) != Some(later.server_uuid) by {
            assert(self.uuid_of(p) != Some(self.server_uuid));
        }
        assert forall|a: PeerID, b: PeerID|
            #![trigger later.uuid_of(a), later.uuid_of(b)]
            a != b && later.uuid_of(a) is Some implies later.uuid_of(a) != later.uuid_of(b) by {
            assert(self.uuid_of(a) is Some ==> self.uuid_of(a) != self.uuid_of(b));
        }
    }

    proof fn lemma_shaken_apart(
        self,
        phase: Phase,
        peer: PeerID,
        m: SynAckView,
        issued: Option<Seq<char>>,
    )
        requires
            self.ids_apart(),
            issued matches Some(uuid) ==> self.is_free(uuid),
        ensures
            self.handshaken(phase, peer, m, issued).ids_apart(),
    {
        reveal(Ctx::handshaken);
        self.f_faulted(peer, PeerFault::NoSession);
        self.f_faulted(peer, PeerFault::WrongPhase);
        self.f_dropped(peer, DisconnectReason::GameVersionMismatch);
        self.f_dropped(peer, DisconnectReason::SimulationOrModMismatch);
        self.f_dropped_in(phase, peer, DisconnectReason::NoUuid);
        let later = self.handshaken(phase, peer, m, issued);
        if let (Some(s), Some(uuid)) = (table::lookup(self.sessions, peer), issued) {
            let named = SessionView { uuid: Some(uuid), ..s };
            if later.sessions == table::with_row(self.sessions, peer, named) {
                table::lemma_with_row_distinct(self.sessions, peer, named);
                assert forall|p: PeerID|
                    #![trigger later.uuid_of(p)]
                    later.uuid_of(p) == (if p == peer {
                        Some(uuid)
                    } else {
                        self.uuid_of(p)
                    }) && self.uuid_of(p) != Some(uuid) by {
                    table::lemma_with_row_lookup(self.sessions, peer, named, p);
                    lemma_nobodys(self.sessions, uuid, p);
                }
                assert forall|a: PeerID, b: PeerID|
                    #![trigger later.uuid_of(a), later.uuid_of(b)]
                    a != b && later.uuid_of(a) is Some implies later.uuid_of(a)
                    != later.uuid_of(b) by {
                    assert(self.uuid_of(a) != Some(uuid));
                    assert(self.uuid_of(b) != Some(uuid));
                }
                self.lemma_shaken(phase, peer, m, issued);
                assert forall|p: PeerID| #[trigger] later.uuid_of(p) != Some(
                    later.server_uuid,
                ) by {
                    assert(self.uuid_of(p) != Some(self.server_uuid));
                }
            }
        }
        self.lemma_shaken_cases(phase, peer, m, issued);
    }

    proof fn lemma_shaken_cases(
        self,
        phase: Phase,
        peer: PeerID,
        m: SynAckView,
        issued: Option<Seq<char>>,
    )
        requires
            self.ids_apart(),
        ensures
            ({
                let later = self.handshaken(phase, peer, m, issued);
                ||| later.ids_apart()
                ||| table::lookup(self.sessions, peer) matches Some(s) && issued matches Some(uuid)
                    && later.sessions == table::with_row(
                    self.sessions,
                    peer,
                    SessionView { uuid: Some(uuid), ..s },
                )
            }),
    {
        reveal(Ctx::handshaken);
        self.f_faulted(peer, PeerFault::NoSession);
        self.f_faulted(peer, PeerFault::WrongPhase);
        self.f_dropped(peer, DisconnectReason::GameVersionMismatch);
        self.f_dropped(peer, DisconnectReason::SimulationOrModMismatch);
        self.f_dropped_in(phase, peer, DisconnectReason::NoUuid);
        let later = self.handshaken(phase, peer, m, issued);
        if self.follows(later) {
            self.lemma_apart(later);
        }
    }
}

proof fn lemma_nobodys(sessions: Seq<(PeerID, SessionView)>, uuid: Seq<char>, peer: PeerID)
    requires
        context::session_with(sessions, uuid) is None,
    ensures
        table::lookup(sessions, peer) matches Some(s) ==> s.uuid != Some(uuid),
{
    lemma_no_row(sessions, uuid);
    table::lemma_index_of(sessions, peer);
}

proof fn lemma_no_row(sessions: Seq<(PeerID, SessionView)>, uuid: Seq<char>)
    requires
        context::session_with(sessions, uuid) is None,
    ensures
        forall|i: int| 0 <= i < sessions.len() ==> (#[trigger] sessions[i]).1.uuid != Some(uuid),
    decreases sessions.len(),
{
    if sessions.len() > 0 {
        let rest = sessions.drop_first();
        lemma_no_row(rest, uuid);
        assert forall|i: int| 0 <= i < sessions.len() implies (#[trigger] sessions[i]).1.uuid
            != Some(uuid) by {
            if i > 0 {
                assert(rest[i - 1] == sessions[i]);
            }
        }
    }
}

} // verus!
