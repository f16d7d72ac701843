//! What reaches whom in a running match: which messages each client is sent for
//! what another one sent, or for what was recorded.

use vstd::prelude::*;

use crate::network_message::PeerID;
use crate::relay::messages::FlareView;
use crate::relay::messages::LoadedGame;
use crate::relay::messages::PlayerCommandView;
use crate::relay::messages::TurnSealed;
use crate::relay::messages::WireMessageView;
use crate::relay::observer_feed::DueJoinView;
use crate::relay::observer_feed::HeldJoinView;
use crate::relay::server_fsm::context;
use crate::relay::server_fsm::context::Ctx;
use crate::relay::server_fsm::event::EffectView;
use crate::relay::server_fsm::event::Phase;
use crate::relay::server_fsm::laws;
use crate::relay::server_fsm::order;
use crate::relay::server_fsm::playing;
use crate::relay::server_fsm::settings::Frozen;
use crate::relay::server_fsm::stream;
use crate::relay::session::Role;
use crate::relay::session::SessionView;
use crate::relay::turn;
use crate::relay::turn::Log;
use crate::relay::turn::TurnClient;
use crate::relay::turn::LAST_TURN;
use crate::table;

verus! {

/// The messages a peer is sent, in order.
pub open spec fn told(effects: Seq<EffectView>, peer: PeerID) -> Seq<WireMessageView>
    decreases effects.len(),
{
    if effects.len() == 0 {
        Seq::empty()
    } else {
        let before = told(effects.drop_last(), peer);
        match effects.last() {
            EffectView::Send { peer: to, msg } => if to == peer {
                before.push(msg)
            } else {
                before
            },
            _ => before,
        }
    }
}

/// Whether a peer is in the match.
pub open spec fn in_match(sessions: Seq<(PeerID, SessionView)>, peer: PeerID) -> bool {
    table::lookup(sessions, peer) matches Some(s) && s.admitted matches Some(a) && a.role
        == Role::InGame
}

/// Whether a peer is on the delayed feed.
pub open spec fn on_feed(clients: Seq<(PeerID, TurnClient)>, peer: PeerID) -> bool {
    table::lookup(clients, peer) matches Some(c) && c.delayed
}

/// The commands among these messages, in order.
pub open spec fn commands_in(msgs: Seq<WireMessageView>) -> Seq<PlayerCommandView>
    decreases msgs.len(),
{
    if msgs.len() == 0 {
        Seq::empty()
    } else {
        let before = commands_in(msgs.drop_last());
        match msgs.last() {
            WireMessageView::PlayerCommand(c) => before.push(c),
            _ => before,
        }
    }
}

/// The turns that these messages say were released, in order.
pub open spec fn seals_in(msgs: Seq<WireMessageView>) -> Seq<u32>
    decreases msgs.len(),
{
    if msgs.len() == 0 {
        Seq::empty()
    } else {
        let before = seals_in(msgs.drop_last());
        match msgs.last() {
            WireMessageView::TurnSealed(m) => before.push(m.turn),
            _ => before,
        }
    }
}

/// Those of these commands that are for one turn, in order.
pub open spec fn of_turn(commands: Seq<PlayerCommandView>, turn: u32) -> Seq<PlayerCommandView>
    decreases commands.len(),
{
    if commands.len() == 0 {
        Seq::empty()
    } else {
        let before = of_turn(commands.drop_last(), turn);
        if commands.last().turn == turn {
            before.push(commands.last())
        } else {
            before
        }
    }
}

/// The turn that a message belongs to.
pub open spec fn turn_of(msg: WireMessageView) -> Option<u32> {
    match msg {
        WireMessageView::PlayerCommand(c) => Some(c.turn),
        WireMessageView::TurnSealed(m) => Some(m.turn),
        _ => None,
    }
}

/// Whether these messages bring a client forward from one turn: every recorded
/// command of each turn after it, through `through`, is among them, unchanged
/// and as often and in the order in which it was recorded, and no other is; the
/// turns after it, through `sealed`, are each released once, and as long as
/// they were; and they come turn by turn, a turn's commands before its release.
pub open spec fn brings_forward(
    msgs: Seq<WireMessageView>,
    recorded: Seq<PlayerCommandView>,
    from: u32,
    through: u32,
    sealed: u32,
) -> bool {
    &&& forall|t: u32|
        from < t <= through ==> #[trigger] of_turn(commands_in(msgs), t) == of_turn(recorded, t)
    &&& forall|i: int|
        0 <= i < msgs.len() ==> (#[trigger] msgs[i] matches WireMessageView::PlayerCommand(c)
            ==> from < c.turn <= through)
    &&& seals_in(msgs) == order::turns_after(from, sealed)
    &&& forall|i: int, j: int|
        0 <= i < j < msgs.len() && turn_of(#[trigger] msgs[i]) is Some && turn_of(
            #[trigger] msgs[j],
        ) is Some ==> {
            &&& turn_of(msgs[i])->0 <= turn_of(msgs[j])->0
            &&& msgs[i] is TurnSealed ==> turn_of(msgs[i])->0 < turn_of(msgs[j])->0
        }
}

/// Whether every release among these messages says how long the turn was: as
/// recorded, or as given where nothing was.
pub open spec fn lengths_are(
    msgs: Seq<WireMessageView>,
    lengths: Seq<(u32, u16)>,
    default: u16,
) -> bool {
    forall|i: int|
        0 <= i < msgs.len() ==> (#[trigger] msgs[i] matches WireMessageView::TurnSealed(m)
            ==> m.turn_length == match table::lookup(lengths, m.turn) {
            Some(length) => length,
            None => default,
        })
}

impl Ctx {
    /// What a peer is newly sent.
    pub open spec fn hears(self, later: Ctx, peer: PeerID) -> Seq<WireMessageView> {
        told(later.effects.skip(self.effects.len() as int), peer)
    }

    /// A joiner that has loaded its snapshot is brought forward from the turn
    /// of that snapshot: one that sees the match as it is played through
    /// everything that was recorded, one on the delayed feed through the feed's
    /// head. Then it is told the turn it has reached, is in the match, and owes
    /// the seals and hashes that follow on that turn. Nobody else is told
    /// anything.
    pub proof fn joiners_are_brought_forward(
        self,
        phase: Phase,
        settings: Frozen,
        peer: PeerID,
        uuid: Seq<char>,
        m: LoadedGame,
        issued: Option<Seq<char>>,
        other: PeerID,
    )
        requires
            self.turns.ready <= turn::LAST_TURN,
            self.feed.head <= self.turns.ready,
            table::lookup(self.sessions, peer) matches Some(s) && s.uuid == Some(uuid)
                && (s.admitted matches Some(a) && a.role == Role::Syncing),
            other != peer,
        ensures
            ({
                let later = self.match_message(
                    phase,
                    settings,
                    peer,
                    WireMessageView::LoadedGame(m),
                    issued,
                );
                let sent = self.hears(later, peer);
                let late = on_feed(later.turns.clients, peer);
                let reached = if late {
                    self.feed.head
                } else {
                    self.turns.ready
                };
                let plays = table::lookup(self.slots, uuid) matches Some(e) && e.slot != -1;
                &&& brings_forward(
                    sent,
                    self.log.commands,
                    m.current_turn,
                    if late {
                        reached
                    } else {
                        u32::MAX
                    },
                    reached,
                )
                &&& lengths_are(sent, self.log.turn_lengths, settings.turn_length_ms as u16)
                &&& sent.len() > 0
                &&& sent.last() == WireMessageView::LoadedGame(
                    LoadedGame { current_turn: reached },
                )
                &&& forall|i: int|
                    0 <= i < sent.len() - 1 ==> turn_of(#[trigger] sent[i]) is Some
                &&& self.hears(later, other) == Seq::<WireMessageView>::empty()
                &&& in_match(later.sessions, peer)
                &&& late ==> self.config.observer_delay_turns > 0 && !plays && self.controller
                    != Some(uuid)
                &&& self.config.observer_delay_turns > 0 && self.ai_host is None
                    && self.controller != Some(uuid) && (table::lookup(
                    self.slots,
                    uuid,
                ) matches Some(e) && e.slot == -1) ==> late
                &&& table::lookup(later.turns.clients, peer) matches Some(c) && c.sealed
                    == reached + 3 && c.simulated == reached && !c.ai_host && !c.out_of_sync && (
                c.observer ==> !plays)
                &&& later.turns.ready == self.turns.ready
                &&& later.feed.head == self.feed.head
            }),
    {
        reveal(Ctx::match_message);
        reveal(Ctx::snapshot_loaded);
        let client_id = (table::lookup(self.sessions, peer)->0).client_id()->0;
        if self.is_delayed_observer(uuid) {
            self.lemma_delayed_caught_up(settings, peer, client_id, m.current_turn, other);
        } else {
            self.lemma_live_caught_up(settings, peer, uuid, client_id, m.current_turn, other);
        }
    }

    proof fn lemma_live_caught_up(
        self,
        settings: Frozen,
        peer: PeerID,
        uuid: Seq<char>,
        client_id: u16,
        from: u32,
        other: PeerID,
    )
        requires
            self.turns.ready <= turn::LAST_TURN,
            table::lookup(self.sessions, peer) matches Some(s) && s.admitted is Some,
            other != peer,
        ensures
            ({
                let later = self.live_resumed(settings, peer, uuid, client_id, from);
                let sent = self.hears(later, peer);
                let ready = self.turns.ready;
                &&& brings_forward(sent, self.log.commands, from, u32::MAX, ready)
                &&& lengths_are(sent, self.log.turn_lengths, settings.turn_length_ms as u16)
                &&& sent.len() > 0
                &&& sent.last() == WireMessageView::LoadedGame(LoadedGame { current_turn: ready })
                &&& forall|i: int|
                    0 <= i < sent.len() - 1 ==> turn_of(#[trigger] sent[i]) is Some
                &&& self.hears(later, other) == Seq::<WireMessageView>::empty()
                &&& in_match(later.sessions, peer)
                &&& table::lookup(later.turns.clients, peer) == Some(
                    TurnClient {
                        client_id,
                        sealed: (ready + turn::COMMAND_DELAY - 1) as u32,
                        simulated: ready,
                        observer: self.is_observer(uuid),
                        delayed: false,
                        ai_host: false,
                        out_of_sync: false,
                    },
                )
                &&& later.turns.ready == self.turns.ready
                &&& later.feed.head == self.feed.head
            }),
    {
        reveal(Ctx::live_resumed);
        let length = settings.turn_length_ms as u16;
        let ready = self.turns.ready;
        let end = self.replay_end();
        let later = self.live_resumed(settings, peer, uuid, client_id, from);
        let msgs = blocks(self.log, from, end, ready, length);
        self.lemma_replay_told(peer, from, end, ready, length, other);
        let replayed = self.replayed(peer, from, end, ready, length);
        let done = WireMessageView::LoadedGame(LoadedGame { current_turn: ready });
        let new = replayed.effects.skip(self.effects.len() as int);
        assert(later.effects.skip(self.effects.len() as int) =~= new.push(
            EffectView::Send { peer, msg: done },
        ));
        lemma_told_push(new, EffectView::Send { peer, msg: done }, peer);
        lemma_told_push(new, EffectView::Send { peer, msg: done }, other);
        lemma_blocks(self.log, from, end, ready, length);
        assert(order::turns_after(from, least(end, ready)) =~= order::turns_after(from, ready));
        lemma_last_turn(self.log.commands);
        assert forall|t: u32| end < t implies #[trigger] of_turn(self.log.commands, t) == Seq::<
            PlayerCommandView,
        >::empty() by {
            lemma_none_of(self.log.commands, t);
        }
        assert forall|t: u32| from < t && end < t implies #[trigger] of_turn(
            commands_in(msgs),
            t,
        ) == Seq::<PlayerCommandView>::empty() by {
            lemma_commands_within(msgs);
            lemma_none_of(commands_in(msgs), t);
        }
        assert(brings_forward(msgs, self.log.commands, from, u32::MAX, ready));
        lemma_forward_more(msgs, done, self.log.commands, from, u32::MAX, ready);
        let s = table::lookup(self.sessions, peer)->0;
        table::lemma_with_row_lookup(self.sessions, peer, s.with_role(Role::InGame), peer);
        let moved = replayed.sent(peer, done).with_role(peer, Role::InGame);
        assert(moved.is_observer(uuid) == self.is_observer(uuid)) by {
            self.lemma_role_keeps_ids(peer, Role::InGame, moved);
        }
        table::lemma_with_row_lookup(
            self.turns.clients,
            peer,
            TurnClient {
                client_id,
                sealed: (ready + turn::COMMAND_DELAY - 1) as u32,
                simulated: ready,
                observer: moved.is_observer(uuid),
                delayed: false,
                ai_host: false,
                out_of_sync: false,
            },
            peer,
        );
    }

    proof fn lemma_role_keeps_ids(self, peer: PeerID, role: Role, later: Ctx)
        requires
            table::lookup(self.sessions, peer) matches Some(s) && later.sessions
                == table::with_row(self.sessions, peer, s.with_role(role)),
            later.ai_host == self.ai_host,
            later.slots == self.slots,
            later.controller == self.controller,
        ensures
            forall|uuid: Seq<char>| #[trigger] later.is_observer(uuid) == self.is_observer(uuid),
    {
        let s = table::lookup(self.sessions, peer)->0;
        assert forall|p: PeerID| #[trigger] later.uuid_of(p) == self.uuid_of(p) by {
            table::lemma_with_row_lookup(self.sessions, peer, s.with_role(role), p);
        }
    }

    proof fn lemma_delayed_caught_up(
        self,
        settings: Frozen,
        peer: PeerID,
        client_id: u16,
        from: u32,
        other: PeerID,
    )
        requires
            self.turns.ready <= turn::LAST_TURN,
            self.feed.head <= self.turns.ready,
            table::lookup(self.sessions, peer) matches Some(s) && s.admitted is Some,
            other != peer,
        ensures
            ({
                let later = self.delayed_resumed(settings, peer, client_id, from);
                let sent = self.hears(later, peer);
                let head = self.feed.head;
                &&& brings_forward(sent, self.log.commands, from, head, head)
                &&& lengths_are(sent, self.log.turn_lengths, settings.turn_length_ms as u16)
                &&& sent.len() > 0
                &&& sent.last() == WireMessageView::LoadedGame(LoadedGame { current_turn: head })
                &&& forall|i: int|
                    0 <= i < sent.len() - 1 ==> turn_of(#[trigger] sent[i]) is Some
                &&& self.hears(later, other) == Seq::<WireMessageView>::empty()
                &&& in_match(later.sessions, peer)
                &&& table::lookup(later.turns.clients, peer) == Some(
                    TurnClient {
                        client_id,
                        sealed: (head + turn::COMMAND_DELAY - 1) as u32,
                        simulated: head,
                        observer: true,
                        delayed: true,
                        ai_host: false,
                        out_of_sync: false,
                    },
                )
                &&& later.turns.ready == self.turns.ready
                &&& later.feed.head == self.feed.head
            }),
    {
        reveal(Ctx::delayed_resumed);
        let length = settings.turn_length_ms as u16;
        let head = self.feed.head;
        let later = self.delayed_resumed(settings, peer, client_id, from);
        let msgs = blocks(self.log, from, head, head, length);
        self.lemma_replay_told(peer, from, head, head, length, other);
        let replayed = self.replayed(peer, from, head, head, length);
        let done = WireMessageView::LoadedGame(LoadedGame { current_turn: head });
        let new = replayed.effects.skip(self.effects.len() as int);
        assert(later.effects.skip(self.effects.len() as int) =~= new.push(
            EffectView::Send { peer, msg: done },
        ));
        lemma_told_push(new, EffectView::Send { peer, msg: done }, peer);
        lemma_told_push(new, EffectView::Send { peer, msg: done }, other);
        lemma_blocks(self.log, from, head, head, length);
        lemma_forward_more(msgs, done, self.log.commands, from, head, head);
        let s = table::lookup(self.sessions, peer)->0;
        table::lemma_with_row_lookup(self.sessions, peer, s.with_role(Role::InGame), peer);
        table::lemma_with_row_lookup(
            self.turns.clients,
            peer,
            TurnClient {
                client_id,
                sealed: (head + turn::COMMAND_DELAY - 1) as u32,
                simulated: head,
                observer: true,
                delayed: true,
                ai_host: false,
                out_of_sync: false,
            },
            peer,
        );
    }

    proof fn lemma_replay_told(
        self,
        peer: PeerID,
        from: u32,
        to: u32,
        sealed: u32,
        default: u16,
        other: PeerID,
    )
        requires
            other != peer,
        ensures
            ({
                let later = self.replayed(peer, from, to, sealed, default);
                &&& self.hears(later, peer) == blocks(self.log, from, to, sealed, default)
                &&& self.hears(later, other) == Seq::<WireMessageView>::empty()
                &&& laws::grows(self.effects, later.effects)
                &&& later == (Ctx { effects: later.effects, ..self })
            }),
        decreases to,
    {
        let later = self.replayed(peer, from, to, sealed, default);
        let n = self.effects.len() as int;
        if to <= from {
            assert(later.effects.skip(n) =~= Seq::empty());
        } else {
            let before = (to - 1) as u32;
            self.lemma_replay_told(peer, from, before, sealed, default, other);
            let mid = self.replayed(peer, from, before, sealed, default);
            let msgs = stream::command_messages(self.log.commands_for(to));
            let lines = playing::sends_to(peer, msgs);
            let seal = EffectView::Send {
                peer,
                msg: WireMessageView::TurnSealed(
                    TurnSealed { turn: to, turn_length: self.log.length_or(to, default) },
                ),
            };
            let more = if to <= sealed {
                lines.push(seal)
            } else {
                lines
            };
            assert(later.effects.skip(n) =~= mid.effects.skip(n) + more);
            lemma_told_add(mid.effects.skip(n), more, peer);
            lemma_told_add(mid.effects.skip(n), more, other);
            lemma_told_sends_to(peer, msgs, peer);
            lemma_told_sends_to(peer, msgs, other);
            lemma_told_push(lines, seal, peer);
            lemma_told_push(lines, seal, other);
            assert(told(more, peer) =~= block(self.log, to, sealed, default));
            assert(told(mid.effects.skip(n), other) + told(more, other) =~= Seq::empty());
        }
    }

    /// Wherever the delayed feed moves on to, everyone on it is brought forward
    /// there from where it was.
    pub proof fn the_feed_carries_everything(self, peer: PeerID)
        requires
            table::distinct(self.sessions),
            table::distinct(self.turns.clients),
            on_feed(self.turns.clients, peer),
        ensures
            ({
                let later = self.feed_advanced();
                let sent = self.hears(later, peer);
                &&& brings_forward(
                    sent,
                    self.log.commands,
                    self.feed.head,
                    later.feed.head,
                    later.feed.head,
                )
                &&& lengths_are(
                    sent,
                    self.log.turn_lengths,
                    self.config.turn_length_ms as u16,
                )
            }),
    {
        let moved = Ctx {
            feed: self.feed.advanced(self.turns.ready, !self.players_remain()),
            ..self
        };
        let n = self.effects.len() as int;
        let from = self.feed.head;
        let to = moved.feed.head;
        let default = self.config.turn_length_ms as u16;
        self.lemma_each_once(peer);
        moved.lemma_feed_told(from, to, peer);
        let fed = moved.fed_turns(from, to);
        let flares = stream::flare_messages(fed.feed.due_flares());
        let sent = Ctx { feed: fed.feed.flares_sent(), ..fed };
        sent.lemma_delayed_told(flares, peer);
        let flared = sent.told_delayed_all(flares);
        let joins = flared.feed.due_joins();
        let ready = Ctx { feed: flared.feed.joins_sent(), ..flared };
        ready.lemma_joins_told(joins, peer);
        let later = ready.joins_released(joins);
        assert(later == self.feed_advanced());
        assert(self.hears(fed, peer) == moved.hears(fed, peer));
        self.lemma_hears_then(fed, flared, peer);
        assert(fed.hears(flared, peer) == sent.hears(flared, peer));
        self.lemma_hears_then(flared, later, peer);
        assert(flared.hears(later, peer) == ready.hears(later, peer));
        let msgs = blocks(self.log, from, to, to, default);
        lemma_blocks(self.log, from, to, to, default);
        lemma_forward_then(msgs, flares, self.log.commands, from, to, to);
        lemma_forward_then(
            msgs + flares,
            ready.hears(later, peer),
            self.log.commands,
            from,
            to,
            to,
        );
        let all = msgs + flares + ready.hears(later, peer);
        assert(self.hears(later, peer) == all);
        assert forall|i: int| 0 <= i < all.len() && #[trigger] all[i] is TurnSealed implies i
            < msgs.len() by {
            if i >= msgs.len() {
                if i < (msgs + flares).len() {
                    assert(all[i] == flares[i - msgs.len()]);
                } else {
                    assert(all[i] == ready.hears(later, peer)[i - (msgs + flares).len()]);
                }
            }
        }
        assert(lengths_are(all, self.log.turn_lengths, default)) by {
            assert forall|i: int| 0 <= i < all.len() implies (
            #[trigger] all[i] matches WireMessageView::TurnSealed(m) ==> m.turn_length
                == match table::lookup(self.log.turn_lengths, m.turn) {
                Some(length) => length,
                None => default,
            }) by {
                if all[i] is TurnSealed {
                    assert(all[i] == msgs[i]);
                }
            }
        }
    }

    /// A flare that was kept for the feed reaches everyone on it as soon as the
    /// feed reaches its turn.
    pub proof fn kept_flares_are_let_out(self, peer: PeerID, turn: u32, flare: FlareView)
        requires
            table::distinct(self.sessions),
            table::distinct(self.turns.clients),
            on_feed(self.turns.clients, peer),
            self.feed.flares.contains((turn, flare)),
            turn <= self.feed_advanced().feed.head,
        ensures
            self.hears(self.feed_advanced(), peer).contains(WireMessageView::Flare(flare)),
    {
        let moved = Ctx {
            feed: self.feed.advanced(self.turns.ready, !self.players_remain()),
            ..self
        };
        let from = self.feed.head;
        let to = moved.feed.head;
        self.lemma_each_once(peer);
        moved.lemma_feed_told(from, to, peer);
        let fed = moved.fed_turns(from, to);
        let due = fed.feed.due_flares();
        let flares = stream::flare_messages(due);
        let sent = Ctx { feed: fed.feed.flares_sent(), ..fed };
        sent.lemma_delayed_told(flares, peer);
        let flared = sent.told_delayed_all(flares);
        let joins = flared.feed.due_joins();
        let ready = Ctx { feed: flared.feed.joins_sent(), ..flared };
        ready.lemma_joins_told(joins, peer);
        let later = ready.joins_released(joins);
        assert(later == self.feed_advanced());
        self.lemma_hears_then(fed, flared, peer);
        assert(fed.hears(flared, peer) == sent.hears(flared, peer));
        self.lemma_hears_then(flared, later, peer);
        moved.feed.flares_wait_for_the_feed(turn, flare);
        let k = choose|k: int| 0 <= k < due.len() && due[k] == flare;
        assert(flares[k] == WireMessageView::Flare(flare));
        let before = self.hears(fed, peer).len() as int;
        assert(self.hears(later, peer)[before + k] == flares[k]);
    }

    /// A joiner that waits for the feed is told to join, and granted the
    /// snapshot that is kept for it, as soon as the feed reaches that snapshot.
    pub proof fn held_joins_are_let_out(self, i: int)
        requires
            table::distinct(self.feed.joins),
            0 <= i < self.feed.joins.len(),
            self.feed.joins[i].1.bound <= self.feed_advanced().feed.head,
        ensures
            ({
                let later = self.feed_advanced();
                let (joiner, held) = self.feed.joins[i];
                &&& self.hears(later, joiner).contains(WireMessageView::Join(held.join))
                &&& table::lookup(later.transfers.granted, joiner) == Some(held.snapshot)
            }),
    {
        let moved = Ctx {
            feed: self.feed.advanced(self.turns.ready, !self.players_remain()),
            ..self
        };
        moved.lemma_fed_grows(self.feed.head, moved.feed.head);
        let fed = moved.fed_turns(self.feed.head, moved.feed.head);
        let flares = stream::flare_messages(fed.feed.due_flares());
        let sent = Ctx { feed: fed.feed.flares_sent(), ..fed };
        sent.lemma_delayed_grows(flares);
        let flared = sent.told_delayed_all(flares);
        let joins = flared.feed.due_joins();
        let ready = Ctx { feed: flared.feed.joins_sent(), ..flared };
        let (joiner, held) = self.feed.joins[i];
        ready.lemma_joins_told(joins, joiner);
        let later = ready.joins_released(joins);
        assert(later == self.feed_advanced());
        let head = flared.feed.head;
        let now = |j: (PeerID, HeldJoinView)| j.1.bound <= head;
        table::lemma_filter_distinct(self.feed.joins, now, joiner);
        flared.feed.joins_are_not_lost(i);
        let d = DueJoinView { joiner, join: held.join, snapshot: held.snapshot };
        let k = choose|k: int| 0 <= k < joins.len() && joins[k] == d;
        let rows = self.feed.joins.filter(now);
        assert forall|j: int| 0 <= j < joins.len() && j != k implies (
        #[trigger] joins[j]).joiner != joiner by {
            assert(joins[j].joiner == rows[j].0);
            assert(joins[k].joiner == rows[k].0);
        }
        ready.lemma_join_granted(joins, k);
        self.lemma_hears_then(flared, later, joiner);
        let msg = WireMessageView::Join(held.join);
        let heard = flared.hears(later, joiner);
        assert(heard == ready.hears(later, joiner));
        let at = choose|at: int| 0 <= at < heard.len() && heard[at] == msg;
        assert(self.hears(later, joiner)[self.hears(flared, joiner).len() + at] == msg);
    }

    proof fn lemma_join_granted(self, joins: Seq<DueJoinView>, k: int)
        requires
            0 <= k < joins.len(),
            forall|j: int|
                0 <= j < joins.len() && j != k ==> (#[trigger] joins[j]).joiner != joins[k].joiner,
        ensures
            ({
                let later = self.joins_released(joins);
                &&& self.hears(later, joins[k].joiner).contains(
                    WireMessageView::Join(joins[k].join),
                )
                &&& table::lookup(later.transfers.granted, joins[k].joiner) == Some(
                    joins[k].snapshot,
                )
            }),
        decreases joins.len(),
    {
        let d = joins[k];
        let rest = joins.drop_last();
        let last = joins.last();
        let mid = self.joins_released(rest);
        let later = self.joins_released(joins);
        self.lemma_joins_told(rest, d.joiner);
        let granted = Ctx { transfers: mid.transfers.granting(last.joiner, last.snapshot), ..mid };
        let msg = WireMessageView::Join(last.join);
        granted.lemma_sent_heard(last.joiner, msg, d.joiner);
        assert(mid.hears(later, d.joiner) == granted.hears(later, d.joiner));
        self.lemma_hears_then(mid, later, d.joiner);
        table::lemma_with_row_lookup(
            mid.transfers.granted,
            last.joiner,
            last.snapshot,
            d.joiner,
        );
        if k < rest.len() {
            assert forall|j: int| 0 <= j < rest.len() && j != k implies (
            #[trigger] rest[j]).joiner != rest[k].joiner by {
                assert(rest[j] == joins[j]);
            }
            self.lemma_join_granted(rest, k);
            assert(last == joins[joins.len() - 1]);
            let heard = self.hears(mid, d.joiner);
            let want = WireMessageView::Join(d.join);
            let at = choose|at: int| 0 <= at < heard.len() && heard[at] == want;
            assert(self.hears(later, d.joiner)[at] == want);
        } else {
            assert(self.hears(later, d.joiner)[self.hears(mid, d.joiner).len() as int] == msg);
        }
    }

    /// The same whenever turns are released, by whatever: everyone on the feed
    /// is brought forward to where the feed then is.
    pub proof fn released_turns_reach_the_feed(self, turn_length_ms: u32, peer: PeerID)
        requires
            table::distinct(self.sessions),
            table::distinct(self.turns.clients),
            on_feed(self.turns.clients, peer),
        ensures
            ({
                let later = self.turns_released(turn_length_ms);
                let sent = self.hears(later, peer);
                &&& brings_forward(
                    sent,
                    self.log.commands,
                    self.feed.head,
                    later.feed.head,
                    later.feed.head,
                )
                &&& lengths_are(
                    sent,
                    later.log.turn_lengths,
                    self.config.turn_length_ms as u16,
                )
            }),
    {
        let length = turn_length_ms as u16;
        let after = Ctx { turns: self.turns.released(self.config.observer_lag_limit), ..self };
        let from = self.turns.ready;
        let to = after.turns.ready;
        after.lemma_live_sealed(from, to, length, peer);
        let told = after.all_sealed_live(from, to, length);
        told.the_feed_carries_everything(peer);
        told.lemma_feed_grows();
        let later = told.feed_advanced();
        assert(later == self.turns_released(turn_length_ms));
        self.lemma_hears_then(told, later, peer);
        after.lemma_each_once(peer);
        assert(self.hears(told, peer) == after.hears(told, peer));
        assert(Seq::<WireMessageView>::empty() + told.hears(later, peer) =~= told.hears(
            later,
            peer,
        ));
    }

    /// The peers that see the match as it is played are told every turn that is
    /// released, one by one and as long as they are to be, and nobody else is.
    proof fn lemma_live_sealed(self, from: u32, to: u32, length: u16, peer: PeerID)
        requires
            table::distinct(self.sessions),
            table::distinct(self.turns.clients),
        ensures
            ({
                let later = self.all_sealed_live(from, to, length);
                let sent = self.hears(later, peer);
                &&& laws::grows(self.effects, later.effects)
                &&& later == (Ctx { effects: later.effects, log: later.log, ..self })
                &&& later.log.commands == self.log.commands
                &&& self.live_peers().contains(peer) ==> {
                    &&& sent.len() == order::turns_after(from, to).len()
                    &&& forall|i: int|
                        0 <= i < sent.len() ==> #[trigger] sent[i] == WireMessageView::TurnSealed(
                            TurnSealed {
                                turn: order::turns_after(from, to)[i],
                                turn_length: length,
                            },
                        )
                }
                &&& !self.live_peers().contains(peer) ==> sent == Seq::<WireMessageView>::empty()
            }),
        decreases to,
    {
        let later = self.all_sealed_live(from, to, length);
        let n = self.effects.len() as int;
        if to <= from {
            assert(later.effects.skip(n) =~= Seq::empty());
        } else {
            let before = (to - 1) as u32;
            self.lemma_live_sealed(from, before, length, peer);
            self.lemma_each_once(peer);
            let mid = self.all_sealed_live(from, before, length);
            let peers = self.live_peers();
            let msg = WireMessageView::TurnSealed(TurnSealed { turn: to, turn_length: length });
            let noted = Ctx { log: mid.log.with_length(to, length), ..mid };
            assert(noted.live_peers() == peers);
            let lines = context::sends(peers, msg);
            assert(later.effects.skip(n) =~= mid.effects.skip(n) + lines);
            lemma_told_add(mid.effects.skip(n), lines, peer);
            lemma_told_sends(peers, msg, peer);
            assert(order::turns_after(from, to) =~= order::turns_after(from, before).push(to));
            assert(Seq::<WireMessageView>::empty() + Seq::<WireMessageView>::empty()
                =~= Seq::empty());
            let sent = self.hears(later, peer);
            let was = self.hears(mid, peer);
            if peers.contains(peer) {
                assert forall|i: int| 0 <= i < sent.len() implies #[trigger] sent[i]
                    == WireMessageView::TurnSealed(
                    TurnSealed { turn: order::turns_after(from, to)[i], turn_length: length },
                ) by {
                    if i < was.len() {
                        assert(sent[i] == was[i]);
                    }
                }
            }
        }
    }

    /// A seal that is in order counts for its client, and whatever may be
    /// released then is: every player has sealed each released turn, and the
    /// next is held up only by a player, by an observer too far behind, or
    /// because nobody has sealed it. Everyone who sees the match as it is
    /// played is told each released turn, one by one, and how long it is.
    pub proof fn seals_release_turns(
        self,
        phase: Phase,
        settings: Frozen,
        peer: PeerID,
        m: TurnSealed,
        issued: Option<Seq<char>>,
        p: PeerID,
    )
        requires
            table::distinct(self.sessions),
            table::distinct(self.turns.clients),
            self.turns.ready <= LAST_TURN,
            self.turns.seal_fault(peer, m.turn) is None,
        ensures
            ({
                let msg = WireMessageView::TurnSealed(m);
                let later = self.match_message(phase, settings, peer, msg, issued);
                let (a, b) = (self.turns.ready, later.turns.ready);
                let clients = later.turns.clients;
                let limit = self.config.observer_lag_limit;
                let sent = self.hears(later, p);
                &&& a <= b
                &&& table::lookup(clients, peer) matches Some(c) && c.sealed == m.turn
                &&& p != peer ==> table::lookup(clients, p) == table::lookup(self.turns.clients, p)
                &&& b > a ==> forall|i: int|
                    0 <= i < clients.len() && !(#[trigger] clients[i]).1.observer
                        && !clients[i].1.delayed ==> clients[i].1.sealed >= b
                &&& b < LAST_TURN ==> {
                    ||| exists|i: int|
                        0 <= i < clients.len() && !(#[trigger] clients[i]).1.delayed
                            && clients[i].1.sealed <= b && (!clients[i].1.observer || (limit matches
                            Some(l) && b + 1 - clients[i].1.sealed > l))
                    ||| forall|i: int|
                        0 <= i < clients.len() && !(#[trigger] clients[i]).1.delayed
                            ==> clients[i].1.sealed <= b
                }
                &&& in_match(self.sessions, p) && !on_feed(self.turns.clients, p) ==> {
                    &&& sent.len() >= b - a
                    &&& forall|i: int|
                        0 <= i < b - a ==> #[trigger] sent[i] == WireMessageView::TurnSealed(
                            TurnSealed {
                                turn: (a + 1 + i) as u32,
                                turn_length: settings.turn_length_ms as u16,
                            },
                        )
                }
            }),
    {
        reveal(Ctx::match_message);
        reveal(Ctx::seal_taken);
        let length = settings.turn_length_ms as u16;
        let limit = self.config.observer_lag_limit;
        let c = table::lookup(self.turns.clients, peer)->0;
        let row = TurnClient { sealed: m.turn, ..c };
        table::lemma_with_row_lookup(self.turns.clients, peer, row, p);
        table::lemma_with_row_lookup(self.turns.clients, peer, row, peer);
        table::lemma_with_row_distinct(self.turns.clients, peer, row);
        let noted = Ctx { turns: self.turns.sealed(peer, m.turn), ..self };
        let clients = noted.turns.clients;
        let a = self.turns.ready;
        turn::nobody_else_is_waited_for(clients, a, limit);
        let after = Ctx { turns: noted.turns.released(limit), ..noted };
        let b = after.turns.ready;
        assert forall|i: int|
            b > a && 0 <= i < clients.len() && !(#[trigger] clients[i]).1.observer
                && !clients[i].1.delayed implies clients[i].1.sealed >= b by {
            turn::released_turns_are_sealed(clients, a, limit, i);
        }
        after.lemma_live_sealed(a, b, length, p);
        let told = after.all_sealed_live(a, b, length);
        told.lemma_feed_grows();
        told.lemma_feed_keeps();
        let later = told.feed_advanced();
        assert(later == noted.turns_released(settings.turn_length_ms));
        self.lemma_hears_then(told, later, p);
        after.lemma_each_once(p);
        assert(self.hears(told, p) == after.hears(told, p));
        if in_match(self.sessions, p) && !on_feed(self.turns.clients, p) {
            let first = self.hears(told, p);
            let sent = self.hears(later, p);
            assert(after.live_peers().contains(p));
            assert forall|i: int| 0 <= i < b - a implies #[trigger] sent[i]
                == WireMessageView::TurnSealed(
                TurnSealed { turn: (a + 1 + i) as u32, turn_length: length },
            ) by {
                assert(sent[i] == first[i]);
            }
        }
    }

    proof fn lemma_feed_grows(self)
        ensures
            laws::grows(self.effects, self.feed_advanced().effects),
            self.feed_advanced().log == self.log,
            self.feed_advanced().sessions == self.sessions,
            self.feed_advanced().turns == self.turns,
    {
        let moved = Ctx {
            feed: self.feed.advanced(self.turns.ready, !self.players_remain()),
            ..self
        };
        moved.lemma_fed_grows(self.feed.head, moved.feed.head);
        let fed = moved.fed_turns(self.feed.head, moved.feed.head);
        let flares = stream::flare_messages(fed.feed.due_flares());
        let sent = Ctx { feed: fed.feed.flares_sent(), ..fed };
        sent.lemma_delayed_grows(flares);
        let flared = sent.told_delayed_all(flares);
        let joins = flared.feed.due_joins();
        let ready = Ctx { feed: flared.feed.joins_sent(), ..flared };
        ready.lemma_joins_told(joins, PeerID(0));
    }

    pub proof fn lemma_fed_grows(self, from: u32, to: u32)
        ensures
            laws::grows(self.effects, self.fed_turns(from, to).effects),
            self.fed_turns(from, to) == (Ctx {
                effects: self.fed_turns(from, to).effects,
                ..self
            }),
        decreases to,
    {
        if to > from {
            let before = (to - 1) as u32;
            self.lemma_fed_grows(from, before);
            let mid = self.fed_turns(from, before);
            mid.lemma_delayed_grows(stream::command_messages(mid.log.commands_for(to)));
        }
    }

    pub proof fn lemma_delayed_grows(self, msgs: Seq<WireMessageView>)
        ensures
            laws::grows(self.effects, self.told_delayed_all(msgs).effects),
            self.told_delayed_all(msgs) == (Ctx {
                effects: self.told_delayed_all(msgs).effects,
                ..self
            }),
        decreases msgs.len(),
    {
        if msgs.len() > 0 {
            self.lemma_delayed_grows(msgs.drop_last());
        }
    }

    proof fn lemma_feed_told(self, from: u32, to: u32, peer: PeerID)
        requires
            self.turns.delayed_peers().no_duplicates(),
            self.turns.delayed_peers().contains(peer),
        ensures
            ({
                let later = self.fed_turns(from, to);
                &&& self.hears(later, peer) == blocks(
                    self.log,
                    from,
                    to,
                    to,
                    self.config.turn_length_ms as u16,
                )
                &&& laws::grows(self.effects, later.effects)
                &&& later == (Ctx { effects: later.effects, ..self })
            }),
        decreases to,
    {
        let default = self.config.turn_length_ms as u16;
        let later = self.fed_turns(from, to);
        let n = self.effects.len() as int;
        if to <= from {
            assert(later.effects.skip(n) =~= Seq::empty());
        } else {
            let before = (to - 1) as u32;
            self.lemma_feed_told(from, before, peer);
            let mid = self.fed_turns(from, before);
            let msgs = stream::command_messages(self.log.commands_for(to));
            mid.lemma_delayed_told(msgs, peer);
            let commanded = mid.told_delayed_all(msgs);
            let seal = WireMessageView::TurnSealed(
                TurnSealed { turn: to, turn_length: self.log.length_or(to, default) },
            );
            commanded.lemma_delayed_told_one(seal, peer);
            self.lemma_hears_then(mid, commanded, peer);
            self.lemma_hears_then(commanded, later, peer);
            lemma_blocks_sealed(self.log, from, before, to, default);
            assert(blocks(self.log, from, before, before, default) + msgs + seq![seal] =~= blocks(
                self.log,
                from,
                to,
                to,
                default,
            ));
        }
    }

    proof fn lemma_delayed_told_one(self, msg: WireMessageView, peer: PeerID)
        requires
            self.turns.delayed_peers().no_duplicates(),
            self.turns.delayed_peers().contains(peer),
        ensures
            self.hears(self.told_delayed(msg), peer) == seq![msg],
            laws::grows(self.effects, self.told_delayed(msg).effects),
    {
        let peers = self.turns.delayed_peers();
        lemma_told_sends(peers, msg, peer);
        assert(self.told_delayed(msg).effects.skip(self.effects.len() as int) =~= context::sends(
            peers,
            msg,
        ));
    }

    proof fn lemma_delayed_told(self, msgs: Seq<WireMessageView>, peer: PeerID)
        requires
            self.turns.delayed_peers().no_duplicates(),
            self.turns.delayed_peers().contains(peer),
        ensures
            self.hears(self.told_delayed_all(msgs), peer) == msgs,
            laws::grows(self.effects, self.told_delayed_all(msgs).effects),
            self.told_delayed_all(msgs) == (Ctx {
                effects: self.told_delayed_all(msgs).effects,
                ..self
            }),
        decreases msgs.len(),
    {
        let later = self.told_delayed_all(msgs);
        if msgs.len() == 0 {
            assert(later.effects.skip(self.effects.len() as int) =~= Seq::empty());
            assert(msgs =~= Seq::empty());
        } else {
            let before = msgs.drop_last();
            self.lemma_delayed_told(before, peer);
            let mid = self.told_delayed_all(before);
            mid.lemma_delayed_told_one(msgs.last(), peer);
            self.lemma_hears_then(mid, later, peer);
            assert(before + seq![msgs.last()] =~= msgs);
        }
    }

    proof fn lemma_joins_told(self, joins: Seq<DueJoinView>, peer: PeerID)
        ensures
            laws::grows(self.effects, self.joins_released(joins).effects),
            self.joins_released(joins).feed == self.feed,
            self.joins_released(joins).turns == self.turns,
            self.joins_released(joins).log == self.log,
            self.joins_released(joins).sessions == self.sessions,
            forall|i: int|
                0 <= i < self.hears(self.joins_released(joins), peer).len() ==> (
                #[trigger] self.hears(self.joins_released(joins), peer)[i]) is Join,
        decreases joins.len(),
    {
        let later = self.joins_released(joins);
        let n = self.effects.len() as int;
        if joins.len() == 0 {
            assert(later.effects.skip(n) =~= Seq::empty());
        } else {
            let mid = self.joins_released(joins.drop_last());
            self.lemma_joins_told(joins.drop_last(), peer);
            let join = joins.last();
            let effect = EffectView::Send {
                peer: join.joiner,
                msg: WireMessageView::Join(join.join),
            };
            assert(later.effects.skip(n) =~= mid.effects.skip(n).push(effect));
            lemma_told_push(mid.effects.skip(n), effect, peer);
            let heard = self.hears(mid, peer);
            assert forall|i: int| 0 <= i < self.hears(later, peer).len() implies (
            #[trigger] self.hears(later, peer)[i]) is Join by {
                if i < heard.len() {
                    assert(self.hears(later, peer)[i] == heard[i]);
                }
            }
        }
    }

    /// What is heard over two steps.
    pub proof fn lemma_hears_then(self, mid: Ctx, later: Ctx, peer: PeerID)
        requires
            laws::grows(self.effects, mid.effects),
            laws::grows(mid.effects, later.effects),
        ensures
            self.hears(later, peer) == self.hears(mid, peer) + mid.hears(later, peer),
            laws::grows(self.effects, later.effects),
    {
        let n = self.effects.len() as int;
        let k = mid.effects.len() as int;
        assert(mid.effects.skip(n) + later.effects.skip(k) =~= later.effects.skip(n));
        lemma_told_add(mid.effects.skip(n), later.effects.skip(k), peer);
    }
}

/// A turn as a client is told it: its commands, and its release where it has
/// been.
spec fn block(log: Log, t: u32, sealed: u32, default: u16) -> Seq<WireMessageView> {
    let msgs = stream::command_messages(log.commands_for(t));
    if t <= sealed {
        msgs.push(
            WireMessageView::TurnSealed(
                TurnSealed { turn: t, turn_length: log.length_or(t, default) },
            ),
        )
    } else {
        msgs
    }
}

spec fn blocks(log: Log, from: u32, to: u32, sealed: u32, default: u16) -> Seq<WireMessageView>
    decreases to,
{
    if to <= from {
        Seq::empty()
    } else {
        blocks(log, from, (to - 1) as u32, sealed, default) + block(log, to, sealed, default)
    }
}

spec fn least(a: u32, b: u32) -> u32 {
    if a <= b {
        a
    } else {
        b
    }
}

proof fn lemma_blocks_sealed(log: Log, from: u32, to: u32, sealed: u32, default: u16)
    requires
        to <= sealed,
    ensures
        blocks(log, from, to, sealed, default) == blocks(log, from, to, to, default),
    decreases to,
{
    if to > from {
        let before = (to - 1) as u32;
        lemma_blocks_sealed(log, from, before, sealed, default);
        lemma_blocks_sealed(log, from, before, to, default);
    }
}

proof fn lemma_blocks(log: Log, from: u32, to: u32, sealed: u32, default: u16)
    ensures
        brings_forward(
            blocks(log, from, to, sealed, default),
            log.commands,
            from,
            to,
            least(to, sealed),
        ),
        lengths_are(blocks(log, from, to, sealed, default), log.turn_lengths, default),
        forall|i: int|
            0 <= i < blocks(log, from, to, sealed, default).len() ==> (turn_of(
                #[trigger] blocks(log, from, to, sealed, default)[i],
            ) matches Some(t) && from < t <= to),
    decreases to,
{
    let all = blocks(log, from, to, sealed, default);
    if to <= from {
        assert(seals_in(all) =~= order::turns_after(from, least(to, sealed)));
    } else {
        let before = (to - 1) as u32;
        let a = blocks(log, from, before, sealed, default);
        let b = block(log, to, sealed, default);
        let recorded = log.commands;
        let mine = log.commands_for(to);
        lemma_blocks(log, from, before, sealed, default);
        lemma_in_add(a, b);
        lemma_of_turn_is(log, to);
        lemma_of_turn_all(recorded, to);
        let msgs = stream::command_messages(mine);
        lemma_in_commands(mine);
        if to <= sealed {
            let seal = WireMessageView::TurnSealed(
                TurnSealed { turn: to, turn_length: log.length_or(to, default) },
            );
            assert(b.drop_last() =~= msgs);
            assert(b.last() == seal);
        }
        assert(commands_in(b) =~= mine);
        assert forall|t: u32| from < t <= to implies #[trigger] of_turn(commands_in(all), t)
            == of_turn(recorded, t) by {
            lemma_of_turn_add(commands_in(a), mine, t);
            if t == to {
                lemma_commands_within(a);
                lemma_none_of(commands_in(a), t);
                lemma_whole_of(mine, t);
                assert(Seq::<PlayerCommandView>::empty() + mine =~= mine);
            } else {
                lemma_none_of(mine, t);
                assert(of_turn(commands_in(a), t) == of_turn(recorded, t));
                assert(of_turn(recorded, t) + Seq::<PlayerCommandView>::empty() =~= of_turn(
                    recorded,
                    t,
                ));
            }
        }
        assert forall|i: int| 0 <= i < b.len() implies turn_of(#[trigger] b[i]) == Some(to) by {
            if i < msgs.len() {
                assert(b[i] == msgs[i]);
                assert(mine.contains(mine[i]));
            }
        }
        assert forall|i: int| 0 <= i < all.len() implies (turn_of(
            #[trigger] all[i],
        ) matches Some(t) && from < t <= to) by {
            if i < a.len() {
                assert(all[i] == a[i]);
            } else {
                assert(all[i] == b[i - a.len()]);
            }
        }
        assert(seals_in(all) =~= order::turns_after(from, least(to, sealed))) by {
            if to <= sealed {
                assert(order::turns_after(from, to) =~= order::turns_after(from, before).push(to));
            }
        }
        assert forall|i: int, j: int|
            0 <= i < j < all.len() && turn_of(#[trigger] all[i]) is Some && turn_of(
                #[trigger] all[j],
            ) is Some implies {
            &&& turn_of(all[i])->0 <= turn_of(all[j])->0
            &&& all[i] is TurnSealed ==> turn_of(all[i])->0 < turn_of(all[j])->0
        } by {
            if j < a.len() {
                assert(all[i] == a[i] && all[j] == a[j]);
            } else {
                assert(all[j] == b[j - a.len()]);
                if i < a.len() {
                    assert(all[i] == a[i]);
                } else {
                    assert(all[i] == b[i - a.len()]);
                    assert(b[i - a.len()] == msgs[i - a.len()]);
                }
            }
        }
        assert forall|i: int| 0 <= i < all.len() implies (
        #[trigger] all[i] matches WireMessageView::TurnSealed(m) ==> m.turn_length
            == match table::lookup(log.turn_lengths, m.turn) {
            Some(length) => length,
            None => default,
        }) by {
            if i < a.len() {
                assert(all[i] == a[i]);
            } else {
                assert(all[i] == b[i - a.len()]);
                if i - a.len() < msgs.len() {
                    assert(b[i - a.len()] == msgs[i - a.len()]);
                }
            }
        }
    }
}

/// Messages of no turn, added, bring a client no further.
proof fn lemma_forward_then(
    a: Seq<WireMessageView>,
    b: Seq<WireMessageView>,
    recorded: Seq<PlayerCommandView>,
    from: u32,
    through: u32,
    sealed: u32,
)
    requires
        brings_forward(a, recorded, from, through, sealed),
        forall|i: int| 0 <= i < b.len() ==> turn_of(#[trigger] b[i]) is None,
    ensures
        brings_forward(a + b, recorded, from, through, sealed),
{
    lemma_in_add(a, b);
    lemma_in_none(b);
    let all = a + b;
    assert(commands_in(all) =~= commands_in(a));
    assert(seals_in(all) =~= seals_in(a));
    assert forall|i: int| 0 <= i < all.len() && turn_of(#[trigger] all[i]) is Some implies i
        < a.len() && all[i] == a[i] by {
        if i >= a.len() {
            assert(all[i] == b[i - a.len()]);
        }
    }
    assert forall|i: int| 0 <= i < all.len() implies (
    #[trigger] all[i] matches WireMessageView::PlayerCommand(c) ==> from < c.turn <= through) by {
        if all[i] is PlayerCommand {
            assert(turn_of(all[i]) is Some);
            assert(all[i] == a[i]);
        }
    }
}

proof fn lemma_forward_more(
    a: Seq<WireMessageView>,
    msg: WireMessageView,
    recorded: Seq<PlayerCommandView>,
    from: u32,
    through: u32,
    sealed: u32,
)
    requires
        brings_forward(a, recorded, from, through, sealed),
        turn_of(msg) is None,
    ensures
        brings_forward(a.push(msg), recorded, from, through, sealed),
{
    lemma_forward_then(a, seq![msg], recorded, from, through, sealed);
    assert(a + seq![msg] =~= a.push(msg));
}

pub proof fn lemma_told_push(a: Seq<EffectView>, e: EffectView, peer: PeerID)
    ensures
        told(a.push(e), peer) == (match e {
            EffectView::Send { peer: to, msg } => if to == peer {
                told(a, peer).push(msg)
            } else {
                told(a, peer)
            },
            _ => told(a, peer),
        }),
{
    assert(a.push(e).drop_last() =~= a);
}

pub proof fn lemma_told_add(a: Seq<EffectView>, b: Seq<EffectView>, peer: PeerID)
    ensures
        told(a + b, peer) == told(a, peer) + told(b, peer),
    decreases b.len(),
{
    if b.len() == 0 {
        assert(a + b =~= a);
        assert(told(a, peer) + told(b, peer) =~= told(a, peer));
    } else {
        lemma_told_add(a, b.drop_last(), peer);
        assert((a + b).drop_last() =~= a + b.drop_last());
        assert((a + b).last() == b.last());
        assert(told(a + b, peer) =~= told(a, peer) + told(b, peer));
    }
}

pub proof fn lemma_told_sends_to(to: PeerID, msgs: Seq<WireMessageView>, peer: PeerID)
    ensures
        told(playing::sends_to(to, msgs), peer) == (if to == peer {
            msgs
        } else {
            Seq::empty()
        }),
    decreases msgs.len(),
{
    let all = playing::sends_to(to, msgs);
    if msgs.len() > 0 {
        lemma_told_sends_to(to, msgs.drop_last(), peer);
        assert(all.drop_last() =~= playing::sends_to(to, msgs.drop_last()));
        assert(all.last() == (EffectView::Send { peer: to, msg: msgs.last() }));
        assert(msgs.drop_last().push(msgs.last()) =~= msgs);
    } else {
        assert(msgs =~= Seq::empty());
    }
}

pub proof fn lemma_told_sends(peers: Seq<PeerID>, msg: WireMessageView, peer: PeerID)
    requires
        peers.no_duplicates(),
    ensures
        told(context::sends(peers, msg), peer) == (if peers.contains(peer) {
            seq![msg]
        } else {
            Seq::empty()
        }),
    decreases peers.len(),
{
    if peers.len() > 0 {
        let before = peers.drop_last();
        lemma_told_sends(before, msg, peer);
        let all = context::sends(peers, msg);
        assert(all.drop_last() =~= context::sends(before, msg));
        assert(all.last() == (EffectView::Send { peer: peers.last(), msg }));
        if peers.last() == peer {
            assert(peers[peers.len() - 1] == peer);
            if before.contains(peer) {
                let i = choose|i: int| 0 <= i < before.len() && before[i] == peer;
                assert(peers[i] == peer);
            }
            assert(Seq::<WireMessageView>::empty().push(msg) =~= seq![msg]);
        } else {
            if peers.contains(peer) {
                let i = choose|i: int| 0 <= i < peers.len() && peers[i] == peer;
                assert(before[i] == peer);
            }
            if before.contains(peer) {
                let i = choose|i: int| 0 <= i < before.len() && before[i] == peer;
                assert(peers[i] == peer);
            }
        }
    }
}

proof fn lemma_in_add(a: Seq<WireMessageView>, b: Seq<WireMessageView>)
    ensures
        commands_in(a + b) == commands_in(a) + commands_in(b),
        seals_in(a + b) == seals_in(a) + seals_in(b),
    decreases b.len(),
{
    if b.len() == 0 {
        assert(a + b =~= a);
        assert(commands_in(a) + commands_in(b) =~= commands_in(a));
        assert(seals_in(a) + seals_in(b) =~= seals_in(a));
    } else {
        lemma_in_add(a, b.drop_last());
        assert((a + b).drop_last() =~= a + b.drop_last());
        assert((a + b).last() == b.last());
        assert(commands_in(a + b) =~= commands_in(a) + commands_in(b));
        assert(seals_in(a + b) =~= seals_in(a) + seals_in(b));
    }
}

proof fn lemma_in_none(b: Seq<WireMessageView>)
    requires
        forall|i: int| 0 <= i < b.len() ==> turn_of(#[trigger] b[i]) is None,
    ensures
        commands_in(b) == Seq::<PlayerCommandView>::empty(),
        seals_in(b) == Seq::<u32>::empty(),
    decreases b.len(),
{
    if b.len() > 0 {
        let rest = b.drop_last();
        assert forall|i: int| 0 <= i < rest.len() implies turn_of(#[trigger] rest[i]) is None by {
            assert(rest[i] == b[i]);
        }
        lemma_in_none(rest);
        assert(turn_of(b[b.len() - 1]) is None);
    }
}

proof fn lemma_in_commands(commands: Seq<PlayerCommandView>)
    ensures
        commands_in(stream::command_messages(commands)) == commands,
        seals_in(stream::command_messages(commands)) == Seq::<u32>::empty(),
    decreases commands.len(),
{
    let msgs = stream::command_messages(commands);
    if commands.len() == 0 {
        assert(commands =~= Seq::empty());
    } else {
        lemma_in_commands(commands.drop_last());
        assert(msgs.drop_last() =~= stream::command_messages(commands.drop_last()));
        assert(msgs.last() == WireMessageView::PlayerCommand(commands.last()));
        assert(commands.drop_last().push(commands.last()) =~= commands);
    }
}

/// Every command among messages is one of them.
proof fn lemma_commands_within(msgs: Seq<WireMessageView>)
    ensures
        forall|c: PlayerCommandView| #[trigger]
            commands_in(msgs).contains(c) ==> exists|i: int|
                0 <= i < msgs.len() && #[trigger] msgs[i] == WireMessageView::PlayerCommand(c),
    decreases msgs.len(),
{
    if msgs.len() > 0 {
        let rest = msgs.drop_last();
        lemma_commands_within(rest);
        assert forall|c: PlayerCommandView| #[trigger] commands_in(msgs).contains(c) implies exists|
            i: int,
        | 0 <= i < msgs.len() && #[trigger] msgs[i] == WireMessageView::PlayerCommand(c) by {
            let k = choose|k: int| 0 <= k < commands_in(msgs).len() && commands_in(msgs)[k] == c;
            if k < commands_in(rest).len() {
                assert(commands_in(rest)[k] == c);
                assert(commands_in(rest).contains(c));
                let i = choose|i: int|
                    0 <= i < rest.len() && #[trigger] rest[i] == WireMessageView::PlayerCommand(c);
                assert(msgs[i] == rest[i]);
            } else {
                assert(msgs[msgs.len() - 1] == WireMessageView::PlayerCommand(c));
            }
        }
    }
}

pub proof fn lemma_of_turn_add(a: Seq<PlayerCommandView>, b: Seq<PlayerCommandView>, t: u32)
    ensures
        of_turn(a + b, t) == of_turn(a, t) + of_turn(b, t),
    decreases b.len(),
{
    if b.len() == 0 {
        assert(a + b =~= a);
        assert(of_turn(a, t) + of_turn(b, t) =~= of_turn(a, t));
    } else {
        lemma_of_turn_add(a, b.drop_last(), t);
        assert((a + b).drop_last() =~= a + b.drop_last());
        assert((a + b).last() == b.last());
        assert(of_turn(a + b, t) =~= of_turn(a, t) + of_turn(b, t));
    }
}

pub proof fn lemma_none_of(commands: Seq<PlayerCommandView>, t: u32)
    requires
        forall|c: PlayerCommandView| #[trigger] commands.contains(c) ==> c.turn != t,
    ensures
        of_turn(commands, t) == Seq::<PlayerCommandView>::empty(),
    decreases commands.len(),
{
    if commands.len() > 0 {
        let rest = commands.drop_last();
        assert forall|c: PlayerCommandView| #[trigger] rest.contains(c) implies c.turn != t by {
            let k = choose|k: int| 0 <= k < rest.len() && rest[k] == c;
            assert(commands[k] == c);
            assert(commands.contains(c));
        }
        lemma_none_of(rest, t);
        assert(commands[commands.len() - 1] == commands.last());
        assert(commands.contains(commands.last()));
    }
}

pub proof fn lemma_whole_of(commands: Seq<PlayerCommandView>, t: u32)
    requires
        forall|c: PlayerCommandView| #[trigger] commands.contains(c) ==> c.turn == t,
    ensures
        of_turn(commands, t) == commands,
    decreases commands.len(),
{
    if commands.len() > 0 {
        let rest = commands.drop_last();
        assert forall|c: PlayerCommandView| #[trigger] rest.contains(c) implies c.turn == t by {
            let k = choose|k: int| 0 <= k < rest.len() && rest[k] == c;
            assert(commands[k] == c);
            assert(commands.contains(c));
        }
        lemma_whole_of(rest, t);
        assert(commands[commands.len() - 1] == commands.last());
        assert(commands.contains(commands.last()));
        assert(rest.push(commands.last()) =~= commands);
    } else {
        assert(commands =~= Seq::empty());
    }
}

pub proof fn lemma_of_turn_all(commands: Seq<PlayerCommandView>, t: u32)
    ensures
        forall|c: PlayerCommandView| #[trigger]
            of_turn(commands, t).contains(c) ==> c.turn == t && commands.contains(c),
    decreases commands.len(),
{
    if commands.len() > 0 {
        let rest = commands.drop_last();
        lemma_of_turn_all(rest, t);
        assert forall|c: PlayerCommandView| #[trigger] of_turn(commands, t).contains(c) implies
            c.turn == t && commands.contains(c) by {
            let all = of_turn(commands, t);
            let k = choose|k: int| 0 <= k < all.len() && all[k] == c;
            if k < of_turn(rest, t).len() {
                assert(of_turn(rest, t)[k] == c);
                assert(of_turn(rest, t).contains(c));
                let j = choose|j: int| 0 <= j < rest.len() && rest[j] == c;
                assert(commands[j] == c);
            } else {
                assert(commands[commands.len() - 1] == c);
            }
        }
    }
}

pub proof fn lemma_of_turn_is(log: Log, t: u32)
    ensures
        log.commands_for(t) == of_turn(log.commands, t),
    decreases log.commands.len(),
{
    reveal(Seq::filter);
    if log.commands.len() > 0 {
        lemma_of_turn_is(Log { commands: log.commands.drop_last(), ..log }, t);
    }
}

proof fn lemma_last_turn(commands: Seq<PlayerCommandView>)
    ensures
        match turn::last_turn(commands) {
            Some(t) => forall|c: PlayerCommandView| #[trigger]
                commands.contains(c) ==> c.turn <= t,
            None => commands.len() == 0,
        },
    decreases commands.len(),
{
    if commands.len() > 0 {
        let rest = commands.drop_last();
        lemma_last_turn(rest);
        let t = turn::last_turn(commands)->0;
        assert forall|c: PlayerCommandView| #[trigger] commands.contains(c) implies c.turn
            <= t by {
            let k = choose|k: int| 0 <= k < commands.len() && commands[k] == c;
            if k < rest.len() {
                assert(rest[k] == c);
                assert(rest.contains(c));
            }
        }
    }
}

} // verus!
