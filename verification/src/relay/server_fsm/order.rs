//! In what order clients are told of the turns of a match. A client takes no
//! turn but the one after the last it was told of.

use vstd::prelude::*;

use crate::network_message::PeerID;
use crate::relay::messages::LoadedGame;
use crate::relay::messages::TurnSealed;
use crate::relay::messages::WireMessageView;
use crate::relay::observer_feed::DueJoinView;
use crate::relay::server_fsm::context;
use crate::relay::server_fsm::context::Ctx;
use crate::relay::server_fsm::event::EffectView;
use crate::relay::server_fsm::laws;
use crate::relay::server_fsm::playing;
use crate::relay::server_fsm::settings::Frozen;
use crate::relay::server_fsm::stream;
use crate::relay::session::SessionView;
use crate::relay::turn;
use crate::relay::turn::TurnClient;
use crate::table;

verus! {

/// The turns a peer is told have been released, in the order it is told.
pub open spec fn seals_to(effects: Seq<EffectView>, peer: PeerID) -> Seq<u32>
    decreases effects.len(),
{
    if effects.len() == 0 {
        Seq::empty()
    } else {
        let before = seals_to(effects.drop_last(), peer);
        match effects.last() {
            EffectView::Send { peer: to, msg: WireMessageView::TurnSealed(m) } => if to == peer {
                before.push(m.turn)
            } else {
                before
            },
            _ => before,
        }
    }
}

/// Every turn after `from`, through `to`, one by one.
pub open spec fn turns_after(from: u32, to: u32) -> Seq<u32> {
    Seq::new(
        if to > from {
            (to - from) as nat
        } else {
            0
        },
        |i: int| (from + 1 + i) as u32,
    )
}

impl Ctx {
    /// A joiner is told every turn after its snapshot through the last that was
    /// released, one by one, whether it sees the match as it is played or
    /// behind the others. It then counts as told through that turn.
    pub proof fn joiners_are_told_in_order(
        self,
        settings: Frozen,
        peer: PeerID,
        uuid: Seq<char>,
        client_id: u16,
        snapshot_turn: u32,
    )
        requires
            self.turns.ready <= turn::LAST_TURN,
        ensures
            ({
                let later = self.live_resumed(settings, peer, uuid, client_id, snapshot_turn);
                &&& seals_to(later.effects, peer) == seals_to(self.effects, peer) + turns_after(
                    snapshot_turn,
                    self.turns.ready,
                )
                &&& later.turns.ready == self.turns.ready
            }),
            ({
                let later = self.delayed_resumed(settings, peer, client_id, snapshot_turn);
                &&& seals_to(later.effects, peer) == seals_to(self.effects, peer) + turns_after(
                    snapshot_turn,
                    self.feed.head,
                )
                &&& later.feed.head == self.feed.head
                &&& later.turns.is_delayed(peer)
            }),
    {
        reveal(Ctx::live_resumed);
        reveal(Ctx::delayed_resumed);
        let length = settings.turn_length_ms as u16;
        let ready = self.turns.ready;
        let head = self.feed.head;
        let end = self.replay_end();
        self.lemma_replayed(peer, snapshot_turn, end, ready, length);
        self.lemma_replayed(peer, snapshot_turn, head, head, length);
        assert(turns_after(snapshot_turn, least(end, ready)) =~= turns_after(
            snapshot_turn,
            ready,
        ));
        let live = self.replayed(peer, snapshot_turn, end, ready, length);
        let delayed = self.replayed(peer, snapshot_turn, head, head, length);
        let late = self.delayed_resumed(settings, peer, client_id, snapshot_turn);
        let live_done = live.effects.push(
            EffectView::Send {
                peer,
                msg: WireMessageView::LoadedGame(
                    LoadedGame { current_turn: ready },
                ),
            },
        );
        let delayed_done = delayed.effects.push(
            EffectView::Send {
                peer,
                msg: WireMessageView::LoadedGame(
                    LoadedGame { current_turn: head },
                ),
            },
        );
        assert(live_done.drop_last() =~= live.effects);
        assert(delayed_done.drop_last() =~= delayed.effects);
        assert(self.live_resumed(settings, peer, uuid, client_id, snapshot_turn).effects
            =~= live_done);
        assert(late.effects =~= delayed_done);
        let was = delayed.turns.clients;
        table::lemma_with_row_lookup(
            was,
            peer,
            TurnClient {
                client_id,
                sealed: (head + turn::COMMAND_DELAY - 1) as u32,
                simulated: head,
                observer: true,
                delayed: true,
                ai_host: false,
                out_of_sync: false,
            },
            peer,
        );
    }

    /// Whenever turns are released, whoever sees the match as it is played is
    /// told each of them, one by one, from the last before on; those on the
    /// delayed feed are told each turn the feed moves on by, one by one; and
    /// nobody else is told of any.
    pub proof fn turns_are_told_in_order(self, turn_length_ms: u32, peer: PeerID)
        requires
            table::distinct(self.sessions),
            table::distinct(self.turns.clients),
        ensures
            ({
                let later = self.turns_released(turn_length_ms);
                seals_to(later.effects, peer) == seals_to(self.effects, peer) + (
                if self.live_peers().contains(peer) {
                    turns_after(self.turns.ready, later.turns.ready)
                } else if self.turns.is_delayed(peer) {
                    turns_after(self.feed.head, later.feed.head)
                } else {
                    Seq::empty()
                })
            }),
    {
        let length = turn_length_ms as u16;
        let after = Ctx { turns: self.turns.released(self.config.observer_lag_limit), ..self };
        assert(after.live_peers() == self.live_peers()) by {
            assert forall|p: PeerID| #[trigger] after.turns.is_delayed(p) == self.turns.is_delayed(
                p,
            ) by {}
            let a = |row: (PeerID, SessionView)|
                row.1.is_in_game() && !after.turns.is_delayed(row.0);
            let b = |row: (PeerID, SessionView)|
                row.1.is_in_game() && !self.turns.is_delayed(row.0);
            assert(a =~= b);
        }
        after.lemma_all_sealed(self.turns.ready, after.turns.ready, length, peer);
        let told = after.all_sealed_live(self.turns.ready, after.turns.ready, length);
        told.lemma_fed(peer);
        after.lemma_each_once(peer);
        let s = seals_to(self.effects, peer);
        assert(s + turns_after(self.turns.ready, after.turns.ready) + Seq::<u32>::empty() =~= s
            + turns_after(self.turns.ready, after.turns.ready));
        assert(s + Seq::<u32>::empty() =~= s);
    }

    /// The turn a client in the match has been told through: the last that was
    /// released, or the last of the feed for those it is delayed for.
    pub open spec fn place(self, peer: PeerID) -> Option<u32> {
        match table::lookup(self.sessions, peer) {
            Some(s) => if !s.is_in_game() {
                None
            } else if self.turns.is_delayed(peer) {
                Some(self.feed.head)
            } else {
                Some(self.turns.ready)
            },
            None => None,
        }
    }

    /// Whether whoever is in the match was in it before, and was told of every
    /// turn in between, one by one.
    #[verifier::opaque]
    pub open spec fn paces(self, later: Ctx) -> bool {
        table::distinct(self.sessions) && table::distinct(self.turns.clients) ==> {
            &&& table::distinct(later.sessions)
            &&& table::distinct(later.turns.clients)
            &&& self.turns.ready <= later.turns.ready
            &&& self.feed.head <= later.feed.head
            &&& forall|peer: PeerID| #[trigger]
                later.place(peer) is Some ==> {
                    &&& self.place(peer) is Some
                    &&& self.turns.is_delayed(peer) == later.turns.is_delayed(peer)
                    &&& seals_to(later.effects, peer) == seals_to(self.effects, peer)
                        + turns_after(self.place(peer)->0, later.place(peer)->0)
                }
        }
    }

    /// Whether whoever is in the match and was in it before was told of every
    /// turn in between, one by one.
    pub open spec fn told_one_by_one(self, later: Ctx) -> bool {
        forall|peer: PeerID|
            self.place(peer) is Some && #[trigger] later.place(peer) is Some ==> {
                &&& self.turns.is_delayed(peer) == later.turns.is_delayed(peer)
                &&& seals_to(later.effects, peer) == seals_to(self.effects, peer) + turns_after(
                    self.place(peer)->0,
                    later.place(peer)->0,
                )
            }
    }

    pub proof fn lemma_paces_joined(self, mid: Ctx, later: Ctx)
        requires
            self.paces(mid),
            mid.paces(later),
        ensures
            self.paces(later),
    {
        reveal(Ctx::paces);
        if table::distinct(self.sessions) && table::distinct(self.turns.clients) {
            assert forall|peer: PeerID| #[trigger] later.place(peer) is Some implies {
                &&& self.place(peer) is Some
                &&& self.turns.is_delayed(peer) == later.turns.is_delayed(peer)
                &&& seals_to(later.effects, peer) == seals_to(self.effects, peer) + turns_after(
                    self.place(peer)->0,
                    later.place(peer)->0,
                )
            } by {
                assert(mid.place(peer) is Some);
                lemma_turns_join(
                    seals_to(self.effects, peer),
                    self.place(peer)->0,
                    mid.place(peer)->0,
                    later.place(peer)->0,
                );
            }
        }
    }

    pub proof fn lemma_told_then(self, mid: Ctx, later: Ctx)
        requires
            table::distinct(mid.sessions),
            table::distinct(mid.turns.clients),
            self.turns.ready <= mid.turns.ready,
            self.feed.head <= mid.feed.head,
            self.told_one_by_one(mid),
            mid.paces(later),
        ensures
            self.told_one_by_one(later),
            table::distinct(later.sessions),
            table::distinct(later.turns.clients),
    {
        reveal(Ctx::paces);
        assert forall|peer: PeerID|
            self.place(peer) is Some && #[trigger] later.place(peer) is Some implies {
            &&& self.turns.is_delayed(peer) == later.turns.is_delayed(peer)
            &&& seals_to(later.effects, peer) == seals_to(self.effects, peer) + turns_after(
                self.place(peer)->0,
                later.place(peer)->0,
            )
        } by {
            assert(mid.place(peer) is Some);
            lemma_turns_join(
                seals_to(self.effects, peer),
                self.place(peer)->0,
                mid.place(peer)->0,
                later.place(peer)->0,
            );
        }
    }

    /// Steps that tell nobody of a turn.
    pub proof fn lemma_paces_aside(self, later: Ctx)
        requires
            laws::grows(self.effects, later.effects),
            forall|i: int|
                self.effects.len() <= i < later.effects.len() ==> !is_seal(
                    #[trigger] later.effects[i],
                ),
            later.sessions == self.sessions,
            later.turns.ready == self.turns.ready,
            later.feed.head == self.feed.head,
            table::distinct(self.turns.clients) ==> table::distinct(later.turns.clients),
            table::distinct(self.turns.clients) ==> forall|peer: PeerID| #[trigger]
                later.turns.is_delayed(peer) == self.turns.is_delayed(peer),
        ensures
            self.paces(later),
    {
        reveal(Ctx::paces);
        assert forall|peer: PeerID| #[trigger] later.place(peer) is Some implies seals_to(
            later.effects,
            peer,
        ) == seals_to(self.effects, peer) by {
            assert forall|i: int| self.effects.len() <= i < later.effects.len() implies !seals(
                #[trigger] later.effects[i],
                peer,
            ) by {
                assert(!is_seal(later.effects[i]));
            }
            lemma_seals_same(self.effects, later.effects, peer);
        }
        assert forall|peer: PeerID, x: u32|
            seals_to(self.effects, peer) + #[trigger] turns_after(x, x) == #[trigger] seals_to(
                self.effects,
                peer,
            ) by {
            assert(seals_to(self.effects, peer) + turns_after(x, x) =~= seals_to(
                self.effects,
                peer,
            ));
        }
    }

    pub proof fn lemma_paces_fed(self)
        ensures
            self.feed.head <= self.feed_advanced().feed.head ==> self.paces(self.feed_advanced()),
    {
        reveal(Ctx::paces);
        let later = self.feed_advanced();
        if table::distinct(self.sessions) && table::distinct(self.turns.clients) {
            self.lemma_fed(PeerID(0));
            assert forall|peer: PeerID| #[trigger] later.place(peer) is Some implies {
                &&& self.place(peer) is Some
                &&& self.turns.is_delayed(peer) == later.turns.is_delayed(peer)
                &&& seals_to(later.effects, peer) == seals_to(self.effects, peer) + turns_after(
                    self.place(peer)->0,
                    later.place(peer)->0,
                )
            } by {
                self.lemma_fed(peer);
                assert(turns_after(self.turns.ready, self.turns.ready) =~= Seq::empty());
            }
        }
    }

    pub proof fn lemma_paces_released(self, turn_length_ms: u32)
        ensures
            ({
                let later = self.turns_released(turn_length_ms);
                self.turns.ready <= later.turns.ready && self.feed.head <= later.feed.head
                    ==> self.paces(later)
            }),
    {
        reveal(Ctx::paces);
        let later = self.turns_released(turn_length_ms);
        if table::distinct(self.sessions) && table::distinct(self.turns.clients) {
            self.lemma_released_apart(turn_length_ms);
            assert forall|peer: PeerID| #[trigger] later.place(peer) is Some implies {
                &&& self.place(peer) is Some
                &&& self.turns.is_delayed(peer) == later.turns.is_delayed(peer)
                &&& seals_to(later.effects, peer) == seals_to(self.effects, peer) + turns_after(
                    self.place(peer)->0,
                    later.place(peer)->0,
                )
            } by {
                self.turns_are_told_in_order(turn_length_ms, peer);
                self.lemma_each_once(peer);
                assert(self.turns.is_delayed(peer) == later.turns.is_delayed(peer));
            }
        }
    }

    proof fn lemma_released_apart(self, turn_length_ms: u32)
        requires
            table::distinct(self.sessions),
            table::distinct(self.turns.clients),
        ensures
            self.turns_released(turn_length_ms).sessions == self.sessions,
            self.turns_released(turn_length_ms).turns.clients == self.turns.clients,
    {
        let length = turn_length_ms as u16;
        let after = Ctx { turns: self.turns.released(self.config.observer_lag_limit), ..self };
        after.lemma_all_sealed(self.turns.ready, after.turns.ready, length, PeerID(0));
        after.all_sealed_live(self.turns.ready, after.turns.ready, length).lemma_fed(PeerID(0));
    }

    /// A session that changed, but did not come into the match by it.
    pub proof fn lemma_paces_session(self, peer: PeerID, s: SessionView)
        requires
            s.is_in_game() ==> (table::lookup(self.sessions, peer) matches Some(o)
                && o.is_in_game()),
        ensures
            self.paces(Ctx { sessions: table::with_row(self.sessions, peer, s), ..self }),
    {
        reveal(Ctx::paces);
        let later = Ctx { sessions: table::with_row(self.sessions, peer, s), ..self };
        if table::distinct(self.sessions) {
            table::lemma_with_row_distinct(self.sessions, peer, s);
        }
        assert forall|p: PeerID| #[trigger] later.place(p) is Some implies self.place(p)
            == later.place(p) && seals_to(later.effects, p) == seals_to(self.effects, p)
            + turns_after(self.place(p)->0, later.place(p)->0) by {
            table::lemma_with_row_lookup(self.sessions, peer, s, p);
            assert(seals_to(self.effects, p) + turns_after(self.place(p)->0, self.place(p)->0)
                =~= seals_to(self.effects, p));
        }
    }

    /// What the peers that see the match as it is played, and those on the
    /// feed, are: each is there once, and none is both.
    pub proof fn lemma_each_once(self, peer: PeerID)
        requires
            table::distinct(self.sessions),
            table::distinct(self.turns.clients),
        ensures
            self.live_peers().contains(peer) == (self.place(peer) is Some
                && !self.turns.is_delayed(peer)),
            self.live_peers().no_duplicates(),
            self.turns.delayed_peers().no_duplicates(),
            self.turns.delayed_peers().contains(peer) == self.turns.is_delayed(peer),
            self.live_peers().contains(peer) ==> !self.turns.is_delayed(peer),
    {
        let live = |row: (PeerID, SessionView)|
            row.1.is_in_game() && !self.turns.is_delayed(row.0);
        let late = |row: (PeerID, TurnClient)| row.1.delayed;
        lemma_keys(self.sessions, live, peer);
        lemma_keys(self.turns.clients, late, peer);
    }

    proof fn lemma_replayed(
        self,
        peer: PeerID,
        from: u32,
        to: u32,
        sealed_through: u32,
        turn_length: u16,
    )
        ensures
            ({
                let later = self.replayed(peer, from, to, sealed_through, turn_length);
                &&& seals_to(later.effects, peer) == seals_to(self.effects, peer) + turns_after(
                    from,
                    least(to, sealed_through),
                )
                &&& later.turns == self.turns
                &&& later.feed == self.feed
                &&& later.sessions == self.sessions
                &&& later.log == self.log
            }),
        decreases to,
    {
        let s = seals_to(self.effects, peer);
        if to <= from {
            assert(s + turns_after(from, least(to, sealed_through)) =~= s);
        } else {
            let before = (to - 1) as u32;
            self.lemma_replayed(peer, from, before, sealed_through, turn_length);
            let mid = self.replayed(peer, from, before, sealed_through, turn_length);
            let msgs = stream::command_messages(mid.log.commands_for(to));
            let lines = playing::sends_to(peer, msgs);
            lemma_seals_add(mid.effects, lines, peer);
            lemma_no_seals(lines, peer);
            let told = mid.sent_each(peer, msgs);
            assert(seals_to(mid.effects, peer) + Seq::<u32>::empty() =~= seals_to(
                mid.effects,
                peer,
            ));
            let later = mid.turn_replayed(peer, to, sealed_through, turn_length);
            if to <= sealed_through {
                assert(later.effects.drop_last() =~= told.effects);
                assert(turns_after(from, to) =~= turns_after(from, before).push(to));
                assert(s + turns_after(from, to) =~= (s + turns_after(from, before)).push(to));
            } else {
                assert(later.effects == told.effects);
            }
        }
    }

    proof fn lemma_all_sealed(self, from: u32, to: u32, turn_length: u16, peer: PeerID)
        requires
            table::distinct(self.sessions),
            table::distinct(self.turns.clients),
        ensures
            ({
                let later = self.all_sealed_live(from, to, turn_length);
                &&& seals_to(later.effects, peer) == seals_to(self.effects, peer) + (
                if self.live_peers().contains(peer) {
                    turns_after(from, to)
                } else {
                    Seq::empty()
                })
                &&& later.turns == self.turns
                &&& later.feed == self.feed
                &&& later.sessions == self.sessions
            }),
        decreases to,
    {
        let s = seals_to(self.effects, peer);
        assert(s + Seq::<u32>::empty() =~= s);
        if to <= from {
            assert(s + turns_after(from, to) =~= s);
        } else {
            let before = (to - 1) as u32;
            self.lemma_all_sealed(from, before, turn_length, peer);
            let mid = self.all_sealed_live(from, before, turn_length);
            self.lemma_each_once(peer);
            let peers = self.live_peers();
            let msg = WireMessageView::TurnSealed(
                TurnSealed { turn: to, turn_length },
            );
            let noted = Ctx { log: mid.log.with_length(to, turn_length), ..mid };
            assert(noted.live_peers() == peers);
            lemma_seals_add(mid.effects, context::sends(peers, msg), peer);
            lemma_seals_sent(peers, msg, peer);
            assert(turns_after(from, to) =~= turns_after(from, before).push(to));
            assert(s + turns_after(from, before) + seq![to] =~= s + turns_after(from, to));
        }
    }

    proof fn lemma_told_delayed_all(self, msgs: Seq<WireMessageView>, peer: PeerID)
        requires
            forall|i: int| 0 <= i < msgs.len() ==> !((#[trigger] msgs[i]) is TurnSealed),
        ensures
            ({
                let later = self.told_delayed_all(msgs);
                &&& seals_to(later.effects, peer) == seals_to(self.effects, peer)
                &&& later == (Ctx { effects: later.effects, ..self })
            }),
        decreases msgs.len(),
    {
        if msgs.len() > 0 {
            let before = msgs.drop_last();
            self.lemma_told_delayed_all(before, peer);
            let mid = self.told_delayed_all(before);
            let lines = context::sends(mid.turns.delayed_peers(), msgs.last());
            lemma_seals_add(mid.effects, lines, peer);
            lemma_no_seals(lines, peer);
            assert(seals_to(mid.effects, peer) + Seq::<u32>::empty() =~= seals_to(
                mid.effects,
                peer,
            ));
        }
    }

    proof fn lemma_fed_turns(self, from: u32, to: u32, peer: PeerID)
        requires
            self.turns.delayed_peers().no_duplicates(),
        ensures
            ({
                let later = self.fed_turns(from, to);
                &&& seals_to(later.effects, peer) == seals_to(self.effects, peer) + (
                if self.turns.delayed_peers().contains(peer) {
                    turns_after(from, to)
                } else {
                    Seq::empty()
                })
                &&& later == (Ctx { effects: later.effects, ..self })
            }),
        decreases to,
    {
        let s = seals_to(self.effects, peer);
        assert(s + Seq::<u32>::empty() =~= s);
        if to <= from {
            assert(s + turns_after(from, to) =~= s);
        } else {
            let before = (to - 1) as u32;
            self.lemma_fed_turns(from, before, peer);
            let mid = self.fed_turns(from, before);
            let msgs = stream::command_messages(mid.log.commands_for(to));
            mid.lemma_told_delayed_all(msgs, peer);
            let told = mid.told_delayed_all(msgs);
            let peers = self.turns.delayed_peers();
            let msg = WireMessageView::TurnSealed(
                TurnSealed {
                    turn: to,
                    turn_length: mid.log.length_or(to, mid.config.turn_length_ms as u16),
                },
            );
            lemma_seals_add(told.effects, context::sends(peers, msg), peer);
            lemma_seals_sent(peers, msg, peer);
            assert(turns_after(from, to) =~= turns_after(from, before).push(to));
            assert(s + turns_after(from, before) + seq![to] =~= s + turns_after(from, to));
        }
    }

    proof fn lemma_joins_released(self, joins: Seq<DueJoinView>, peer: PeerID)
        ensures
            seals_to(self.joins_released(joins).effects, peer) == seals_to(self.effects, peer),
            self.joins_released(joins).feed == self.feed,
            self.joins_released(joins).turns == self.turns,
            self.joins_released(joins).sessions == self.sessions,
        decreases joins.len(),
    {
        if joins.len() > 0 {
            self.lemma_joins_released(joins.drop_last(), peer);
            let mid = self.joins_released(joins.drop_last());
            let later = mid.join_released(joins.last());
            assert(later.effects.drop_last() =~= mid.effects);
        }
    }

    proof fn lemma_fed(self, peer: PeerID)
        requires
            table::distinct(self.sessions),
            table::distinct(self.turns.clients),
        ensures
            ({
                let later = self.feed_advanced();
                &&& seals_to(later.effects, peer) == seals_to(self.effects, peer) + (
                if self.turns.is_delayed(peer) {
                    turns_after(self.feed.head, later.feed.head)
                } else {
                    Seq::empty()
                })
                &&& later.turns == self.turns
                &&& later.sessions == self.sessions
            }),
    {
        self.lemma_each_once(peer);
        let moved = Ctx {
            feed: self.feed.advanced(self.turns.ready, !self.players_remain()),
            ..self
        };
        moved.lemma_fed_turns(self.feed.head, moved.feed.head, peer);
        let fed = moved.fed_turns(self.feed.head, moved.feed.head);
        let flares = stream::flare_messages(fed.feed.due_flares());
        let sent = Ctx { feed: fed.feed.flares_sent(), ..fed };
        sent.lemma_told_delayed_all(flares, peer);
        let flared = sent.told_delayed_all(flares);
        Ctx { feed: flared.feed.joins_sent(), ..flared }.lemma_joins_released(
            flared.feed.due_joins(),
            peer,
        );
    }
}

/// Whether an effect tells this peer that a turn was released.
pub open spec fn seals(effect: EffectView, peer: PeerID) -> bool {
    effect matches EffectView::Send { peer: to, msg: WireMessageView::TurnSealed(_) } && to == peer
}

/// Whether an effect tells somebody that a turn was released.
pub open spec fn is_seal(effect: EffectView) -> bool {
    effect matches EffectView::Send { msg: WireMessageView::TurnSealed(_), .. }
}

proof fn lemma_turns_join(s: Seq<u32>, a: u32, b: u32, c: u32)
    requires
        a <= b <= c,
    ensures
        s + turns_after(a, b) + turns_after(b, c) == s + turns_after(a, c),
{
    assert(s + turns_after(a, b) + turns_after(b, c) =~= s + turns_after(a, c));
}

pub proof fn lemma_seals_same(a: Seq<EffectView>, b: Seq<EffectView>, peer: PeerID)
    requires
        laws::grows(a, b),
        forall|i: int| a.len() <= i < b.len() ==> !seals(#[trigger] b[i], peer),
    ensures
        seals_to(b, peer) == seals_to(a, peer),
    decreases b.len(),
{
    if b.len() == a.len() {
        assert(a =~= b);
    } else {
        let rest = b.drop_last();
        assert forall|i: int| 0 <= i < a.len() implies #[trigger] rest[i] == a[i] by {
            assert(rest[i] == b[i]);
        }
        assert forall|i: int| a.len() <= i < rest.len() implies !seals(
            #[trigger] rest[i],
            peer,
        ) by {
            assert(rest[i] == b[i]);
        }
        lemma_seals_same(a, rest, peer);
        assert(!seals(b[b.len() - 1], peer));
    }
}

spec fn least(a: u32, b: u32) -> u32 {
    if a <= b {
        a
    } else {
        b
    }
}

proof fn lemma_seals_add(a: Seq<EffectView>, b: Seq<EffectView>, peer: PeerID)
    ensures
        seals_to(a + b, peer) == seals_to(a, peer) + seals_to(b, peer),
    decreases b.len(),
{
    if b.len() == 0 {
        assert(a + b =~= a);
        assert(seals_to(a, peer) + seals_to(b, peer) =~= seals_to(a, peer));
    } else {
        lemma_seals_add(a, b.drop_last(), peer);
        assert((a + b).drop_last() =~= a + b.drop_last());
        assert((a + b).last() == b.last());
        assert(seals_to(a + b, peer) =~= seals_to(a, peer) + seals_to(b, peer));
    }
}

proof fn lemma_no_seals(effects: Seq<EffectView>, peer: PeerID)
    requires
        forall|i: int|
            0 <= i < effects.len() ==> !((#[trigger] effects[i]) matches EffectView::Send {
                msg: WireMessageView::TurnSealed(_),
                ..
            }),
    ensures
        seals_to(effects, peer) == Seq::<u32>::empty(),
    decreases effects.len(),
{
    if effects.len() > 0 {
        assert(effects.last() == effects[effects.len() - 1]);
        lemma_no_seals(effects.drop_last(), peer);
    }
}

proof fn lemma_seals_sent(peers: Seq<PeerID>, msg: WireMessageView, peer: PeerID)
    requires
        msg is TurnSealed,
        peers.no_duplicates(),
    ensures
        seals_to(context::sends(peers, msg), peer) == if peers.contains(peer) {
            seq![msg->TurnSealed_0.turn]
        } else {
            Seq::<u32>::empty()
        },
    decreases peers.len(),
{
    if peers.len() > 0 {
        let before = peers.drop_last();
        lemma_seals_sent(before, msg, peer);
        let all = context::sends(peers, msg);
        assert(all.drop_last() =~= context::sends(before, msg));
        assert(all.last() == (EffectView::Send { peer: peers.last(), msg }));
        if peers.last() == peer {
            assert(peers[peers.len() - 1] == peer);
            if before.contains(peer) {
                let i = choose|i: int| 0 <= i < before.len() && before[i] == peer;
                assert(peers[i] == peer);
            }
            assert(Seq::<u32>::empty().push(msg->TurnSealed_0.turn)
                =~= seq![msg->TurnSealed_0.turn]);
        } else {
            if peers.contains(peer) {
                let i = choose|i: int| 0 <= i < peers.len() && peers[i] == peer;
                assert(before[i] == peer);
            }
            if before.contains(peer) {
                let i = choose|i: int| 0 <= i < before.len() && before[i] == peer;
                assert(peers[i] == peer);
            }
        }
    }
}

/// The keys of the rows that are picked: each is there once, exactly those of
/// rows that are.
pub proof fn lemma_keys<B>(rows: Seq<(PeerID, B)>, pick: spec_fn((PeerID, B)) -> bool, peer: PeerID)
    requires
        table::distinct(rows),
    ensures
        rows.filter(pick).map_values(|row: (PeerID, B)| row.0).no_duplicates(),
        rows.filter(pick).map_values(|row: (PeerID, B)| row.0).contains(peer) == (table::lookup(
            rows,
            peer,
        ) matches Some(b) && pick((peer, b))),
    decreases rows.len(),
{
    reveal(Seq::filter);
    let key = |row: (PeerID, B)| row.0;
    let keys = rows.filter(pick).map_values(key);
    table::lemma_index_of(rows, peer);
    if rows.len() > 0 {
        let before = rows.drop_last();
        let last = rows.last();
        assert forall|i: int, j: int| 0 <= i < j < before.len() implies #[trigger] before[i].0
            != #[trigger] before[j].0 by {
            assert(before[i] == rows[i] && before[j] == rows[j]);
        }
        lemma_keys(before, pick, peer);
        lemma_keys(before, pick, last.0);
        table::lemma_index_of(before, last.0);
        table::lemma_index_of(before, peer);
        let kept = before.filter(pick).map_values(key);
        assert(!kept.contains(last.0)) by {
            if let Some(i) = table::index_of(before, last.0) {
                assert(before[i] == rows[i]);
                assert(rows[i].0 == rows[rows.len() - 1].0);
            }
        }
        if pick(last) {
            assert(keys =~= kept.push(last.0));
            assert(keys.contains(peer) == (kept.contains(peer) || last.0 == peer)) by {
                if kept.contains(peer) {
                    let i = choose|i: int| 0 <= i < kept.len() && kept[i] == peer;
                    assert(keys[i] == peer);
                }
                if last.0 == peer {
                    assert(keys[kept.len() as int] == peer);
                }
            }
            assert forall|i: int, j: int|
                0 <= i < keys.len() && 0 <= j < keys.len() && i != j implies keys[i] != keys[j] by {
                if i < kept.len() {
                    assert(keys[i] == kept[i]);
                }
                if j < kept.len() {
                    assert(keys[j] == kept[j]);
                }
            }
        } else {
            assert(keys =~= kept);
        }
        if last.0 == peer {
            table::lemma_index_is(rows, peer, rows.len() - 1);
        } else {
            match table::index_of(before, peer) {
                Some(i) => {
                    assert(before[i] == rows[i]);
                    table::lemma_index_is(rows, peer, i);
                },
                None => {
                    assert forall|j: int| 0 <= j < rows.len() implies #[trigger] rows[j].0
                        != peer by {
                        if j < before.len() {
                            assert(before[j] == rows[j]);
                        }
                    }
                    table::lemma_index_none(rows, peer);
                },
            }
        }
    }
}

} // verus!
