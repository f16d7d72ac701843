//! What the clients of a match see of it before it is on: who is ready, how it
//! is set up, that it starts, and who is still loading.

use vstd::prelude::*;

use crate::clock;
use crate::clock::Time;
use crate::network_message::PeerID;
use crate::relay::messages::items;
use crate::relay::messages::AuthenticateView;
use crate::relay::messages::ChatView;
use crate::relay::messages::GameSettingsView;
use crate::relay::messages::HostView;
use crate::relay::messages::LoadedGame;
use crate::relay::messages::MapPlayerIdToSlotView;
use crate::relay::messages::PlayerSlotsView;
use crate::relay::messages::PlayersLoadingView;
use crate::relay::messages::PreGameStatusView;
use crate::relay::messages::StartSettingsView;
use crate::relay::messages::WireMessageView;
use crate::relay::monitor::PeerStats;
use crate::relay::server_fsm::context::Audience;
use crate::relay::server_fsm::context::Ctx;
use crate::relay::server_fsm::delivery;
use crate::relay::server_fsm::event::EffectView;
use crate::relay::server_fsm::event::InputView;
use crate::relay::server_fsm::event::Phase;
use crate::relay::server_fsm::laws;
use crate::relay::server_fsm::order;
use crate::relay::server_fsm::phases::AnyView;
use crate::relay::server_fsm::phases::AI_HOST_ADMIT_TIMEOUT;
use crate::relay::server_fsm::phases::AI_HOST_FAILED;
use crate::relay::server_fsm::reason::DisconnectReason;
use crate::relay::server_fsm::setup;
use crate::relay::session::Role;
use crate::relay::session::SessionView;
use crate::relay::slots;
use crate::relay::slots::SlotRows;
use crate::relay::slots::SlotView;
use crate::relay::turn::TurnClient;
use crate::relay::turn::INITIAL_READY_TURN;
use crate::table;
use crate::utils;

verus! {

/// Whether a peer is admitted and not in the match yet.
pub open spec fn in_setup(sessions: Seq<(PeerID, SessionView)>, peer: PeerID) -> bool {
    table::lookup(sessions, peer) matches Some(s) && s.admitted matches Some(a) && a.role
        == Role::Setup
}

/// Whether a peer is admitted.
pub open spec fn is_admitted(sessions: Seq<(PeerID, SessionView)>, peer: PeerID) -> bool {
    table::lookup(sessions, peer) matches Some(s) && s.admitted is Some
}

/// Whether a peer goes by this identity.
pub open spec fn goes_by(
    sessions: Seq<(PeerID, SessionView)>,
    peer: PeerID,
    uuid: Seq<char>,
) -> bool {
    table::lookup(sessions, peer) matches Some(s) && s.uuid == Some(uuid)
}

/// Whether a peer has the role of controller.
pub open spec fn controls(c: Ctx, peer: PeerID) -> bool {
    c.controller matches Some(uuid) && goes_by(c.sessions, peer, uuid)
}

/// Whether a slot list shows exactly the clients who are here, each as it
/// stands in the table, and the relay itself behind them.
pub open spec fn shows(list: PlayerSlotsView, rows: SlotRows, relay: Seq<char>) -> bool {
    let n = list.hosts.len();
    &&& n > 0
    &&& list.hosts.last().guid == relay
    &&& list.hosts.last().player_id == -1
    &&& forall|uuid: Seq<char>, e: SlotView|
        #![trigger rows.contains((uuid, e))]
        rows.contains((uuid, e)) && e.connected ==> list.hosts.drop_last().contains(
            HostView { guid: uuid, name: e.name, player_id: e.slot, status: e.status },
        )
    &&& forall|h: HostView| #[trigger]
        list.hosts.drop_last().contains(h) ==> exists|e: SlotView|
            #![trigger rows.contains((h.guid, e))]
            rows.contains((h.guid, e)) && e.connected && h.name == e.name && h.player_id == e.slot
                && h.status == e.status
}

/// Whether these messages are one slot list that shows everyone as they are.
pub open spec fn shows_slots(msgs: Seq<WireMessageView>, c: Ctx) -> bool {
    &&& msgs.len() == 1
    &&& msgs[0] matches WireMessageView::PlayerSlots(list)
    &&& shows(list, c.slots, c.server_uuid)
}

proof fn lemma_listed(rows: SlotRows, h: HostView)
    ensures
        slots::listed(rows).hosts.contains(h) == exists|e: SlotView|
            #![trigger rows.contains((h.guid, e))]
            rows.contains((h.guid, e)) && e.connected && h.name == e.name && h.player_id == e.slot
                && h.status == e.status,
    decreases rows.len(),
{
    reveal(Seq::filter);
    if rows.len() == 0 {
        assert(slots::listed(rows).hosts =~= Seq::empty());
    } else {
        let before = rows.drop_last();
        let last = rows.last();
        lemma_listed(before, h);
        assert(rows =~= before.push(last));
        let was = slots::listed(before).hosts;
        let now = slots::listed(rows).hosts;
        if last.1.connected {
            assert(now =~= was.push(slots::host(last)));
        } else {
            assert(now =~= was);
        }
        utils::lemma_pushed(was, slots::host(last), h);
        if exists|e: SlotView|
            #![trigger before.contains((h.guid, e))]
            before.contains((h.guid, e)) && e.connected && h.name == e.name && h.player_id == e.slot
                && h.status == e.status {
            let e = choose|e: SlotView|
                #![trigger before.contains((h.guid, e))]
                before.contains((h.guid, e)) && e.connected && h.name == e.name && h.player_id
                    == e.slot && h.status == e.status;
            utils::lemma_pushed(before, last, (h.guid, e));
            assert(rows.contains((h.guid, e)));
        }
        if exists|e: SlotView|
            #![trigger rows.contains((h.guid, e))]
            rows.contains((h.guid, e)) && e.connected && h.name == e.name && h.player_id == e.slot
                && h.status == e.status {
            let e = choose|e: SlotView|
                #![trigger rows.contains((h.guid, e))]
                rows.contains((h.guid, e)) && e.connected && h.name == e.name && h.player_id
                    == e.slot && h.status == e.status;
            utils::lemma_pushed(before, last, (h.guid, e));
            if !before.contains((h.guid, e)) {
                assert(last == (h.guid, e));
            }
        }
        if last.1.connected && slots::host(last) == h {
            utils::lemma_pushed(before, last, last);
            assert(rows.contains((h.guid, last.1)));
        }
    }
}

impl Ctx {
    proof fn lemma_shows(self)
        ensures
            shows(self.slot_list(), self.slots, self.server_uuid),
    {
        let rows = self.slots;
        let hosts = self.slot_list().hosts;
        let here = slots::listed(rows).hosts;
        assert(hosts.drop_last() =~= here);
        assert forall|uuid: Seq<char>, e: SlotView|
            #![trigger rows.contains((uuid, e))]
            rows.contains((uuid, e)) && e.connected implies here.contains(
            HostView { guid: uuid, name: e.name, player_id: e.slot, status: e.status },
        ) by {
            let h = HostView { guid: uuid, name: e.name, player_id: e.slot, status: e.status };
            lemma_listed(rows, h);
            assert(rows.contains((h.guid, e)));
        }
        assert forall|h: HostView| #[trigger] here.contains(h) implies exists|e: SlotView|
            #![trigger rows.contains((h.guid, e))]
            rows.contains((h.guid, e)) && e.connected && h.name == e.name && h.player_id == e.slot
                && h.status == e.status by {
            lemma_listed(rows, h);
        }
    }

    /// Nobody hears of what is done without a word.
    pub proof fn lemma_done_quietly(self, effect: EffectView, p: PeerID)
        requires
            !(effect is Send),
        ensures
            self.hears(self.doing(effect), p) == Seq::<WireMessageView>::empty(),
            laws::grows(self.effects, self.doing(effect).effects),
    {
        let new = self.doing(effect).effects.skip(self.effects.len() as int);
        assert(new =~= Seq::empty().push(effect));
        delivery::lemma_told_push(Seq::empty(), effect, p);
    }

    /// Who hears of the slots, and what.
    pub proof fn lemma_slots_heard(self, phase: Phase, p: PeerID)
        requires
            table::distinct(self.sessions),
        ensures
            ({
                let later = self.slots_told_in(phase);
                &&& later == (Ctx { effects: later.effects, ..self })
                &&& laws::grows(self.effects, later.effects)
                &&& is_admitted(self.sessions, p) ==> shows_slots(self.hears(later, p), self)
                &&& !is_admitted(self.sessions, p) ==> self.hears(later, p) == Seq::<
                    WireMessageView,
                >::empty()
            }),
    {
        reveal(Ctx::slots_told);
        reveal(Ctx::listed);
        let msg = WireMessageView::PlayerSlots(self.slot_list());
        let told = self.slots_told();
        let later = self.slots_told_in(phase);
        self.lemma_heard(Audience::Admitted, None, msg, p);
        self.lemma_shows();
        if phase == Phase::Setup {
            told.lemma_done_quietly(later.effects.last(), p);
            assert(later.effects =~= told.effects.push(later.effects.last()));
            self.lemma_hears_then(told, later, p);
            assert(self.hears(told, p) + Seq::empty() =~= self.hears(told, p));
        }
    }

    /// Someone in setup who says that they are ready, or no longer are, is
    /// heard by everyone in setup, under their own identity whatever the
    /// message claims, and their row of the table is the only one that changes.
    pub proof fn readiness_is_relayed(
        self,
        phase: Phase,
        peer: PeerID,
        uuid: Seq<char>,
        m: PreGameStatusView,
        p: PeerID,
        other: Seq<char>,
    )
        requires
            table::distinct(self.sessions),
            in_setup(self.sessions, peer),
            goes_by(self.sessions, peer, uuid),
        ensures
            ({
                let later = self.setup_message(phase, peer, WireMessageView::PreGameStatus(m));
                &&& self.hears(later, p) == (if in_setup(self.sessions, p) {
                    seq![
                        WireMessageView::PreGameStatus(
                            PreGameStatusView { guid: uuid, status: m.status },
                        ),
                    ]
                } else {
                    Seq::empty()
                })
                &&& table::lookup(self.slots, uuid) matches Some(e) ==> table::lookup(
                    later.slots,
                    uuid,
                ) == Some(SlotView { status: m.status, ..e })
                &&& other != uuid ==> table::lookup(later.slots, other) == table::lookup(
                    self.slots,
                    other,
                )
                &&& later.sessions == self.sessions
                &&& later.controller == self.controller
            }),
    {
        reveal(Ctx::readied);
        let msg = WireMessageView::PreGameStatus(
            PreGameStatusView { guid: uuid, status: m.status },
        );
        self.lemma_heard(Audience::Setup, None, msg, p);
        if let Some(e) = table::lookup(self.slots, uuid) {
            table::lemma_with_row_lookup(
                self.slots,
                uuid,
                SlotView { status: m.status, ..e },
                other,
            );
        }
    }

    /// When the controller resets, nobody is ready any more but those who stay
    /// ready, nothing else of anyone changes, and everyone admitted is shown
    /// the table as it then is.
    pub proof fn resets_are_shown(self, phase: Phase, peer: PeerID, p: PeerID)
        requires
            table::distinct(self.sessions),
            controls(self, peer),
        ensures
            ({
                let later = self.setup_message(phase, peer, WireMessageView::ResetPregameStatus);
                &&& is_admitted(self.sessions, p) ==> shows_slots(self.hears(later, p), later)
                &&& later.slots.len() == self.slots.len()
                &&& forall|i: int|
                    0 <= i < self.slots.len() ==> #[trigger] later.slots[i] == (
                        self.slots[i].0,
                        SlotView {
                            status: if self.slots[i].1.status == 2 {
                                2
                            } else {
                                0
                            },
                            ..self.slots[i].1
                        },
                    )
            }),
    {
        reveal(Ctx::unreadied);
        let mid = Ctx { slots: slots::with_reset(self.slots), ..self };
        mid.lemma_slots_heard(phase, p);
    }

    /// Settings from the controller reach everyone in setup just as they are,
    /// the controller itself among them.
    pub proof fn settings_are_relayed(
        self,
        phase: Phase,
        peer: PeerID,
        m: GameSettingsView,
        p: PeerID,
    )
        requires
            table::distinct(self.sessions),
            controls(self, peer),
        ensures
            ({
                let later = self.setup_message(phase, peer, WireMessageView::GameSettings(m));
                &&& self.hears(later, p) == (if in_setup(self.sessions, p) {
                    seq![WireMessageView::GameSettings(m)]
                } else {
                    Seq::empty()
                })
                &&& later.sessions == self.sessions
                &&& later.slots == self.slots
            }),
    {
        reveal(Ctx::reconfigured);
        reveal(Ctx::listed);
        let msg = WireMessageView::GameSettings(m);
        let listed = match setup::relisted(m.data, self.lobby_map) {
            Some(map) => Ctx { lobby_map: Some(map), ..self }.listed(),
            None => self,
        };
        let later = listed.broadcast(msg, Audience::Setup);
        listed.lemma_heard(Audience::Setup, None, msg, p);
        if let Some(map) = setup::relisted(m.data, self.lobby_map) {
            let mid = Ctx { lobby_map: Some(map), ..self };
            mid.lemma_done_quietly(listed.effects.last(), p);
            assert(listed.effects =~= mid.effects.push(listed.effects.last()));
            self.lemma_hears_then(listed, later, p);
            assert(Seq::<WireMessageView>::empty() + listed.hears(later, p) =~= listed.hears(
                later,
                p,
            ));
        }
    }

    /// A player that the controller gives to someone is theirs and nobody
    /// else's, everyone else keeps what they have, and everyone admitted is
    /// shown the table as it then is.
    pub proof fn assignments_are_shown(
        self,
        phase: Phase,
        peer: PeerID,
        m: MapPlayerIdToSlotView,
        p: PeerID,
        i: int,
    )
        requires
            table::distinct(self.sessions),
            controls(self, peer),
            table::has_key(self.slots, m.guid),
            !self.is_ai_host_uuid(m.guid),
            0 <= i < self.slots.len(),
        ensures
            ({
                let later = self.setup_message(phase, peer, WireMessageView::MapPlayerIdToSlot(m));
                let (uuid, e) = self.slots[i];
                &&& is_admitted(self.sessions, p) ==> shows_slots(self.hears(later, p), later)
                &&& later.slots.len() == self.slots.len()
                &&& uuid == m.guid ==> later.slots[i] == (uuid, SlotView { slot: m.player_id, ..e })
                &&& uuid != m.guid && m.player_id != -1 && e.slot == m.player_id ==> later.slots[i]
                    == (uuid, SlotView { slot: -1i8, ..e })
                &&& uuid != m.guid && (m.player_id == -1 || e.slot != m.player_id)
                    ==> later.slots[i] == (uuid, e)
            }),
    {
        reveal(Ctx::assigned);
        let mid = Ctx { slots: slots::with_player(self.slots, m.player_id, m.guid), ..self };
        mid.lemma_slots_heard(phase, p);
    }
}

impl Ctx {
    proof fn lemma_turned_away(
        self,
        phase: Phase,
        peers: Seq<PeerID>,
        reason: DisconnectReason,
        p: PeerID,
    )
        requires
            forall|i: int|
                0 <= i < peers.len() ==> !is_admitted(self.sessions, #[trigger] peers[i]),
        ensures
            ({
                let later = self.all_dropped_in(phase, peers, reason);
                &&& later == (Ctx { effects: later.effects, ..self })
                &&& laws::grows(self.effects, later.effects)
                &&& self.hears(later, p) == Seq::<WireMessageView>::empty()
                &&& peers.contains(p) ==> later.effects.skip(
                    self.effects.len() as int,
                ).contains(EffectView::Disconnect { peer: p, reason })
            }),
        decreases peers.len(),
    {
        reveal(Ctx::dropped);
        reveal(Ctx::listed);
        let n = self.effects.len() as int;
        if peers.len() > 0 {
            let rest = peers.drop_last();
            let last = peers.last();
            assert forall|i: int| 0 <= i < rest.len() implies !is_admitted(
                self.sessions,
                #[trigger] rest[i],
            ) by {
                assert(rest[i] == peers[i]);
            }
            self.lemma_turned_away(phase, rest, reason, p);
            let mid = self.all_dropped_in(phase, rest, reason);
            let gone = mid.dropped(last, reason);
            let later = self.all_dropped_in(phase, peers, reason);
            let e = EffectView::Disconnect { peer: last, reason };
            assert(last == peers[peers.len() - 1]);
            assert(!is_admitted(self.sessions, last));
            assert(gone == mid.doing(e));
            mid.lemma_done_quietly(e, p);
            self.lemma_hears_then(mid, gone, p);
            if phase == Phase::Setup {
                let l = later.effects.last();
                assert(later.effects =~= gone.effects.push(l));
                gone.lemma_done_quietly(l, p);
                self.lemma_hears_then(gone, later, p);
                assert(later.effects.skip(n) =~= gone.effects.skip(n).push(l));
                utils::lemma_pushed(
                    gone.effects.skip(n),
                    l,
                    EffectView::Disconnect { peer: p, reason },
                );
            }
            assert(gone.effects.skip(n) =~= mid.effects.skip(n).push(e));
            utils::lemma_pushed(mid.effects.skip(n), e, EffectView::Disconnect { peer: p, reason });
            assert(peers =~= rest.push(last));
            utils::lemma_pushed(rest, last, p);
        } else {
            assert(self.effects.skip(n) =~= Seq::empty());
        }
    }

    proof fn lemma_all_registered(self, rows: Seq<(PeerID, SessionView)>, p: PeerID)
        requires
            table::distinct(rows),
        ensures
            ({
                let later = self.all_registered(rows);
                &&& later == (Ctx { turns: later.turns, ..self })
                &&& table::lookup(later.turns.clients, p) == match table::lookup(rows, p) {
                    Some(s) => match (s.admitted, s.uuid) {
                        (Some(a), Some(uuid)) if a.role == Role::Setup => Some(
                            TurnClient {
                                client_id: a.client_id,
                                sealed: INITIAL_READY_TURN,
                                simulated: 0,
                                observer: self.is_observer(uuid),
                                delayed: self.is_delayed_observer(uuid),
                                ai_host: false,
                                out_of_sync: false,
                            },
                        ),
                        _ => table::lookup(self.turns.clients, p),
                    },
                    None => table::lookup(self.turns.clients, p),
                }
            }),
        decreases rows.len(),
    {
        reveal(Ctx::all_registered);
        table::lemma_index_of(rows, p);
        if rows.len() > 0 {
            let rest = rows.drop_last();
            let last = rows.last();
            table::lemma_last_row(rows, p);
            table::lemma_index_of(rest, p);
            table::lemma_index_of(rest, last.0);
            self.lemma_all_registered(rest, p);
            let mid = self.all_registered(rest);
            if p == last.0 {
                table::lemma_index_is(rows, p, rows.len() - 1);
            } else if let Some(i) = table::index_of(rows, p) {
                assert(rest[i] == rows[i]);
                table::lemma_index_is(rest, p, i);
            } else {
                table::lemma_index_none(rest, p);
            }
            if let (Some(a), Some(uuid)) = (last.1.admitted, last.1.uuid) {
                if a.role == Role::Setup {
                    table::lemma_with_row_lookup(
                        mid.turns.clients,
                        last.0,
                        TurnClient {
                            client_id: a.client_id,
                            sealed: INITIAL_READY_TURN,
                            simulated: 0,
                            observer: self.is_observer(uuid),
                            delayed: self.is_delayed_observer(uuid),
                            ai_host: false,
                            out_of_sync: false,
                        },
                        p,
                    );
                }
            }
        }
    }

    /// As a match begins everyone in setup sees the table and then the start,
    /// just as it was sent; the AI host has its own copy. Whoever is not
    /// admitted is turned away, and everyone in setup counts for the release
    /// of turns from then on.
    pub proof fn matches_begin_for_everyone(
        self,
        phase: Phase,
        start: Seq<u8>,
        ai_host_start: Option<Seq<u8>>,
        p: PeerID,
    )
        requires
            table::distinct(self.sessions),
        ensures
            ({
                let later = self.match_begun(phase, start, ai_host_start);
                let heard = self.hears(later, p);
                let is_ai = self.ai_host matches Some(ai) && ai.peer == Some(p);
                let own = if is_ai && ai_host_start is Some {
                    ai_host_start->0
                } else {
                    start
                };
                &&& later.sessions == self.sessions
                &&& later.slots == self.slots
                &&& in_setup(self.sessions, p) ==> {
                    &&& heard.len() == 2
                    &&& shows_slots(seq![heard[0]], self)
                    &&& heard[1] == WireMessageView::StartSettings(
                        StartSettingsView { init_attributes: own },
                    )
                }
                &&& (table::lookup(self.sessions, p) matches Some(s) && s.admitted is None)
                    ==> later.effects.skip(self.effects.len() as int).contains(
                    EffectView::Disconnect { peer: p, reason: DisconnectReason::ServerLoading },
                )
                &&& table::lookup(self.sessions, p) matches Some(s) ==> (s.admitted matches Some(a)
                    ==> (s.uuid matches Some(uuid) ==> (a.role == Role::Setup ==> (table::lookup(
                    later.turns.clients,
                    p,
                ) matches Some(c) && c.client_id == a.client_id && c.sealed == INITIAL_READY_TURN
                    && c.simulated == 0 && c.ai_host == is_ai && !c.out_of_sync && c.observer
                    == self.is_observer(uuid) && c.delayed == self.is_delayed_observer(uuid)))))
            }),
    {
        reveal(Ctx::match_begun);
        let reason = DisconnectReason::ServerLoading;
        let away = setup::unauthenticated(self.sessions);
        let pick = |row: (PeerID, SessionView)| row.1.admitted is None;
        order::lemma_keys(self.sessions, pick, p);
        assert forall|i: int| 0 <= i < away.len() implies !is_admitted(
            self.sessions,
            #[trigger] away[i],
        ) by {
            order::lemma_keys(self.sessions, pick, away[i]);
            assert(away.contains(away[i]));
        }
        self.lemma_turned_away(phase, away, reason, p);
        let dropped = self.all_dropped_in(phase, away, reason);
        dropped.lemma_slots_heard(phase, p);
        let shown = dropped.slots_told_in(phase);
        self.lemma_hears_then(dropped, shown, p);
        shown.lemma_start_told(start, ai_host_start, p);
        let told = shown.start_told(start, ai_host_start);
        self.lemma_hears_then(shown, told, p);
        told.lemma_all_registered(told.sessions, p);
        let registered = told.all_registered(told.sessions);
        let later = self.match_begun(phase, start, ai_host_start);
        reveal(Ctx::with_ai_marked);
        if let Some(ai) = told.ai_peer() {
            if let Some(c) = table::lookup(registered.turns.clients, ai) {
                table::lemma_with_row_lookup(
                    registered.turns.clients,
                    ai,
                    TurnClient { ai_host: true, ..c },
                    p,
                );
            }
        }
        assert(later.effects == told.effects);
        let heard = self.hears(later, p);
        if in_setup(self.sessions, p) {
            let first = self.hears(shown, p);
            assert(first =~= dropped.hears(shown, p));
            assert(seq![heard[0]] =~= dropped.hears(shown, p));
        }
        let n = self.effects.len() as int;
        let e = EffectView::Disconnect { peer: p, reason };
        if dropped.effects.skip(n).contains(e) {
            let k = choose|k: int|
                0 <= k < dropped.effects.skip(n).len() && dropped.effects.skip(n)[k] == e;
            assert(later.effects.skip(n)[k] == e);
        }
    }

    proof fn lemma_start_told(self, start: Seq<u8>, ai_host_start: Option<Seq<u8>>, p: PeerID)
        requires
            table::distinct(self.sessions),
        ensures
            ({
                let later = self.start_told(start, ai_host_start);
                let is_ai = self.ai_host matches Some(ai) && ai.peer == Some(p);
                let own = if is_ai && ai_host_start is Some {
                    ai_host_start->0
                } else {
                    start
                };
                &&& later == (Ctx { effects: later.effects, ..self })
                &&& laws::grows(self.effects, later.effects)
                &&& in_setup(self.sessions, p) ==> self.hears(later, p) == seq![
                    WireMessageView::StartSettings(StartSettingsView { init_attributes: own }),
                ]
            }),
    {
        reveal(Ctx::start_told);
        let msg = WireMessageView::StartSettings(StartSettingsView { init_attributes: start });
        match (self.ai_peer(), ai_host_start) {
            (Some(ai), Some(own)) => {
                let mid = self.broadcast_except(ai, msg, Audience::Setup);
                let other = WireMessageView::StartSettings(
                    StartSettingsView { init_attributes: own },
                );
                self.lemma_heard(Audience::Setup, Some(ai), msg, p);
                mid.lemma_sent_heard(ai, other, p);
                self.lemma_hears_then(mid, mid.sent(ai, other), p);
                assert(Seq::<WireMessageView>::empty() + seq![other] =~= seq![other]);
                assert(seq![msg] + Seq::<WireMessageView>::empty() =~= seq![msg]);
            },
            _ => self.lemma_heard(Audience::Setup, None, msg, p),
        }
    }
}

/// Whether someone is still on the loading screen.
pub open spec fn waits(sessions: Seq<(PeerID, SessionView)>, uuid: Seq<char>) -> bool {
    exists|i: int|
        0 <= i < sessions.len() && (#[trigger] sessions[i]).1.uuid == Some(uuid) && (
        sessions[i].1.admitted matches Some(a) && a.role == Role::Setup)
}

proof fn lemma_loading(sessions: Seq<(PeerID, SessionView)>, uuid: Seq<char>)
    ensures
        setup::loading(sessions).contains(uuid) == waits(sessions, uuid),
    decreases sessions.len(),
{
    if sessions.len() > 0 {
        let rest = sessions.drop_last();
        let last = sessions.last();
        lemma_loading(rest, uuid);
        if let Some(u) = last.1.uuid {
            utils::lemma_pushed(setup::loading(rest), u, uuid);
        }
        if waits(rest, uuid) {
            let i = choose|i: int|
                0 <= i < rest.len() && (#[trigger] rest[i]).1.uuid == Some(uuid) && (
                rest[i].1.admitted matches Some(a) && a.role == Role::Setup);
            assert(sessions[i] == rest[i]);
        }
        if waits(sessions, uuid) {
            let i = choose|i: int|
                0 <= i < sessions.len() && (#[trigger] sessions[i]).1.uuid == Some(uuid) && (
                sessions[i].1.admitted matches Some(a) && a.role == Role::Setup);
            if i < rest.len() {
                assert(rest[i] == sessions[i]);
            }
        }
        if last.1.uuid == Some(uuid) && last.1.is_setup() {
            assert(sessions[sessions.len() - 1] == last);
        }
    }
}

impl AnyView {
    /// Someone on the loading screen who has loaded is in the match. While
    /// others still load, everyone in the match is told who does; once nobody
    /// does, the match is on and everyone is told so.
    pub proof fn matches_wait_for_everyone(
        self,
        peer: PeerID,
        m: LoadedGame,
        issued: Option<Seq<char>>,
        p: PeerID,
    )
        requires
            self is Loading,
            table::distinct(self.ctx().sessions),
            in_setup(self.ctx().sessions, peer),
        ensures
            ({
                let input = InputView::Received { peer, msg: WireMessageView::LoadedGame(m) };
                let later = self.handled(input, issued);
                let now = later.ctx().sessions;
                let heard = self.ctx().hears(later.ctx(), p);
                &&& delivery::in_match(now, peer)
                &&& p != peer ==> table::lookup(now, p) == table::lookup(self.ctx().sessions, p)
                &&& (exists|uuid: Seq<char>| waits(now, uuid)) ==> {
                    &&& later is Loading
                    &&& delivery::in_match(now, p) ==> {
                        &&& heard.len() == 1
                        &&& heard[0] matches WireMessageView::PlayersLoading(w)
                        &&& forall|uuid: Seq<char>| #[trigger]
                            w.clients.contains(uuid) == waits(now, uuid)
                    }
                }
                &&& !(exists|uuid: Seq<char>| waits(now, uuid)) ==> {
                    &&& later is InGame
                    &&& delivery::in_match(now, p) ==> heard == seq![
                        WireMessageView::LoadedGame(LoadedGame { current_turn: 0 }),
                    ]
                }
            }),
    {
        reveal(Ctx::loading_told);
        let c = self.ctx();
        let s = table::lookup(c.sessions, peer)->0;
        let mid = c.with_role(peer, Role::InGame);
        let waiting = setup::loading(mid.sessions);
        table::lemma_with_row_lookup(c.sessions, peer, s.with_role(Role::InGame), p);
        table::lemma_with_row_lookup(c.sessions, peer, s.with_role(Role::InGame), peer);
        table::lemma_with_row_distinct(c.sessions, peer, s.with_role(Role::InGame));
        table::lemma_index_of(mid.sessions, peer);
        let at = table::index_of(mid.sessions, peer)->0;
        assert(mid.sessions[at].1.is_in_game());
        assert(setup::someone_in_game(mid.sessions));
        assert forall|uuid: Seq<char>| #[trigger] waiting.contains(uuid) == waits(
            mid.sessions,
            uuid,
        ) by {
            lemma_loading(mid.sessions, uuid);
        }
        if waiting.len() > 0 {
            assert(waiting.contains(waiting[0]));
            assert(waits(mid.sessions, waiting[0]));
            mid.lemma_heard(
                Audience::InGame,
                None,
                WireMessageView::PlayersLoading(PlayersLoadingView { clients: waiting }),
                p,
            );
        } else {
            assert forall|uuid: Seq<char>| !waits(mid.sessions, uuid) by {
                assert(!waiting.contains(uuid));
            }
            mid.lemma_heard(
                Audience::InGame,
                None,
                WireMessageView::LoadedGame(LoadedGame { current_turn: 0 }),
                p,
            );
        }
    }

    /// A start from the controller that every player here is ready for leads
    /// to loading, with the attributes that were sent; one that somebody is not
    /// ready for changes nothing at all.
    pub proof fn starts_need_everyone_ready(
        self,
        peer: PeerID,
        m: StartSettingsView,
        issued: Option<Seq<char>>,
    )
        requires
            self is Setup,
            controls(self.ctx(), peer),
        ensures
            ({
                let c = self.ctx();
                let input = InputView::Received { peer, msg: WireMessageView::StartSettings(m) };
                let later = self.handled(input, issued);
                let unready = exists|i: int|
                    0 <= i < c.slots.len() && (#[trigger] c.slots[i]).1.connected
                        && c.slots[i].1.slot != -1 && c.slots[i].1.status == 0;
                &&& unready ==> later == self
                &&& !unready && !c.config.hosted_ai ==> {
                    &&& later matches AnyView::Loading { settings, saved_state, .. }
                    &&& settings.json == m.init_attributes
                    &&& settings.turn_length_ms == c.config.turn_length_ms
                    &&& saved_state is None
                    &&& later.ctx().effects.last() is LobbyStarted
                }
                &&& !unready && c.config.hosted_ai ==> match later {
                    AnyView::Loading { settings, .. } => settings.json == m.init_attributes,
                    AnyView::AwaitAiHost { held, requested_at, .. } => {
                        &&& held.settings.json == held.start
                        &&& requested_at is None
                        &&& later.ctx().effects == c.effects.push(
                            EffectView::SpawnAiHost { name: c.ai_host_name },
                        )
                        &&& later.ctx().sessions == c.sessions
                        &&& later.ctx().slots == c.slots
                    },
                    _ => false,
                }
            }),
    {
        let c = self.ctx();
        assert(slots::everyone_ready(c.slots) == !(exists|i: int|
            0 <= i < c.slots.len() && (#[trigger] c.slots[i]).1.connected && c.slots[i].1.slot != -1
                && c.slots[i].1.status == 0)) by {
            if !slots::everyone_ready(c.slots) {
                let i = choose|i: int|
                    0 <= i < c.slots.len() && c.slots[i].1.connected && slots::plays(
                        #[trigger] c.slots[i],
                    ) && c.slots[i].1.status == slots::STATUS_NOT_READY;
                assert(c.slots[i].1.connected);
            } else {
                assert forall|i: int|
                    0 <= i < c.slots.len() && (#[trigger] c.slots[i]).1.connected
                        && c.slots[i].1.slot != -1 implies c.slots[i].1.status != 0 by {
                    assert(slots::plays(c.slots[i]));
                }
            }
        }
    }
}

/// How many players are here: observers do not count.
pub open spec fn players_present(rows: SlotRows) -> nat
    decreases rows.len(),
{
    if rows.len() == 0 {
        0
    } else {
        players_present(rows.drop_last()) + (if rows.last().1.connected && rows.last().1.slot
            != -1 {
            1
        } else {
            0nat
        })
    }
}

proof fn lemma_players_present(rows: SlotRows)
    ensures
        slots::player_names(rows).len() == players_present(rows),
    decreases rows.len(),
{
    reveal(Seq::filter);
    if rows.len() > 0 {
        lemma_players_present(rows.drop_last());
    }
}

impl Ctx {
    /// A listing and the start of a match both say how many players are here,
    /// and a listing names the map that is set up and the mods the match is
    /// played with.
    pub proof fn listings_count_the_players(self)
        ensures
            ({
                let listed = self.listed().effects;
                let started = self.start_listed().effects;
                let n = players_present(self.slots);
                &&& listed.len() == self.effects.len() + 1
                &&& listed.last() matches EffectView::LobbyListing { nbp, map, mods, .. }
                &&& nbp == n as u32
                &&& map == self.lobby_map
                &&& mods == items::views(self.config.enabled_mods@)
                &&& started.len() == self.effects.len() + 1
                &&& started.last() matches EffectView::LobbyStarted { nbp: count, .. }
                &&& count == n as u32
            }),
    {
        reveal(Ctx::listed);
        lemma_players_present(self.slots);
    }
}

impl AnyView {
    /// A held start goes out as soon as the AI host is in, with the settings it
    /// was held with. It is given up if the AI host exits or does not come in
    /// time, and everyone admitted is told so; another start meanwhile changes
    /// nothing.
    pub proof fn held_starts_are_resolved(
        self,
        peer: PeerID,
        m: AuthenticateView,
        start: StartSettingsView,
        now: Time,
        stats: Seq<PeerStats>,
        issued: Option<Seq<char>>,
        p: PeerID,
    )
        requires
            self is AwaitAiHost,
            table::distinct(self.ctx().sessions),
        ensures
            ({
                let c = self.ctx();
                let held = self->held;
                let creds = WireMessageView::Authenticate(m);
                let judged = c.common_message(Phase::Setup, None, peer, creds, issued);
                let came = self.handled(InputView::Received { peer, msg: creds }, issued);
                let exited = self.handled(InputView::AiHostExited, issued);
                let ticked = self.handled(InputView::Tick { now, stats }, issued);
                let again = self.handled(
                    InputView::Received { peer, msg: WireMessageView::StartSettings(start) },
                    issued,
                );
                &&& (judged.ai_host matches Some(ai) && ai.peer is Some) ==> {
                    &&& came matches AnyView::Loading { settings, saved_state, .. }
                    &&& settings == held.settings
                    &&& saved_state is None
                    &&& came.ctx().effects.last() is LobbyStarted
                    &&& came.ctx().effects.drop_last() == judged.match_begun(
                        Phase::Setup,
                        held.start,
                        Some(held.ai_host_start),
                    ).effects
                }
                &&& !(judged.ai_host matches Some(ai) && ai.peer is Some) ==> came
                    == (AnyView::AwaitAiHost {
                    ctx: judged,
                    held,
                    requested_at: self->requested_at,
                })
                &&& exited is Setup
                &&& exited.ctx().ai_host is None
                &&& exited.ctx().effects.len() > c.effects.len()
                &&& exited.ctx().effects[c.effects.len() as int] == EffectView::StopAiHost
                &&& is_admitted(c.sessions, p) ==> c.hears(exited.ctx(), p) == seq![
                    WireMessageView::Chat(
                        ChatView {
                            sender_guid: c.server_uuid,
                            message: AI_HOST_FAILED@,
                            receivers: Seq::empty(),
                        },
                    ),
                ]
                &&& (self->requested_at matches Some(t) && now.instant() - t.instant()
                    >= clock::ms(AI_HOST_ADMIT_TIMEOUT)) ==> ticked is Setup
                &&& (self->requested_at matches Some(t) && 0 <= now.instant() - t.instant()
                    < clock::ms(AI_HOST_ADMIT_TIMEOUT)) ==> ticked is AwaitAiHost
                    && ticked->requested_at == self->requested_at
                &&& again == self
            }),
    {
        reveal(Ctx::start_refused);
        let c = self.ctx();
        let held = self->held;
        let creds = WireMessageView::Authenticate(m);
        let judged = c.common_message(Phase::Setup, None, peer, creds, issued);
        let begun = judged.match_begun(Phase::Setup, held.start, Some(held.ai_host_start));
        assert(begun.start_listed().effects.drop_last() =~= begun.effects);
        let gone = Ctx { ai_host: None, ..c };
        let stopped = gone.doing(EffectView::StopAiHost);
        gone.lemma_done_quietly(EffectView::StopAiHost, p);
        stopped.lemma_said_heard(None, AI_HOST_FAILED@, p);
        let later = stopped.said(None, AI_HOST_FAILED@);
        gone.lemma_hears_then(stopped, later, p);
        assert(c.hears(later, p) =~= stopped.hears(later, p));
    }
}

impl Ctx {
    /// An observer is who holds no player, is not the controller and is not the
    /// AI host; where there is a delay, every observer is on the delayed feed
    /// and nobody else.
    pub proof fn observers_hold_no_player(self, uuid: Seq<char>, e: SlotView)
        requires
            table::lookup(self.slots, uuid) == Some(e),
        ensures
            ({
                let is_ai = self.ai_host matches Some(ai) && (ai.peer matches Some(q) && goes_by(
                    self.sessions,
                    q,
                    uuid,
                ));
                &&& self.is_observer(uuid) == (e.slot == -1 && self.controller != Some(uuid)
                    && !is_ai)
                &&& self.is_delayed_observer(uuid) == (self.is_observer(uuid)
                    && self.config.observer_delay_turns > 0)
            }),
    {
    }
}

/// How many players have left.
pub open spec fn players_missing(rows: SlotRows) -> nat
    decreases rows.len(),
{
    if rows.len() == 0 {
        0
    } else {
        players_missing(rows.drop_last()) + (if !rows.last().1.connected && rows.last().1.slot
            != -1 {
            1
        } else {
            0nat
        })
    }
}

/// Those who are here and those who are gone, counted.
pub proof fn lemma_players_counted(rows: SlotRows)
    ensures
        slots::players_here(rows).len() == players_present(rows),
        slots::players_gone(rows).len() == players_missing(rows),
    decreases rows.len(),
{
    reveal(Seq::filter);
    if rows.len() > 0 {
        lemma_players_counted(rows.drop_last());
    }
}

} // verus!
