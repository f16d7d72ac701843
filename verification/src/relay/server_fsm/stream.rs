//! The turn stream: what the players see of a match, and what delayed
//! observers see of it later.

use vstd::prelude::*;

use crate::network_message::PeerID;
use crate::relay::messages::flare::FlareView;
use crate::relay::messages::items;
use crate::relay::messages::player_command::PlayerCommandView;
use crate::relay::messages::wrong_hash_players::WrongHashPlayersView;
use crate::relay::messages::Flare;
use crate::relay::messages::PlayerCommand;
use crate::relay::messages::TurnSealed;
use crate::relay::messages::WireMessage;
use crate::relay::messages::WireMessageView;
use crate::relay::messages::WrongHashPlayers;
use crate::relay::observer_feed::DueJoin;
use crate::relay::observer_feed::DueJoinView;
use crate::relay::server_fsm::context::Audience;
use crate::relay::server_fsm::context::Context;
use crate::relay::server_fsm::context::Ctx;
use crate::relay::session::SessionView;
use crate::relay::slots;
use crate::relay::slots::UNASSIGNED;
use crate::relay::turn::HashMismatch;
use crate::relay::turn::HashMismatchView;
use crate::table;
use crate::utils;

verus! {

/// The names of these peers, of those that are admitted.
pub open spec fn names_of(sessions: Seq<(PeerID, SessionView)>, peers: Seq<PeerID>) -> Seq<
    Seq<char>,
>
    decreases peers.len(),
{
    if peers.len() == 0 {
        Seq::empty()
    } else {
        let before = names_of(sessions, peers.drop_last());
        match table::lookup(sessions, peers.last()) {
            Some(s) => match s.name() {
                Some(name) => before.push(name),
                None => before,
            },
            None => before,
        }
    }
}

pub open spec fn command_messages(commands: Seq<PlayerCommandView>) -> Seq<WireMessageView> {
    commands.map_values(|c: PlayerCommandView| WireMessageView::PlayerCommand(c))
}

pub open spec fn flare_messages(flares: Seq<FlareView>) -> Seq<WireMessageView> {
    flares.map_values(|f: FlareView| WireMessageView::Flare(f))
}

impl Ctx {
    /// The peers that see the match as it is played.
    pub open spec fn live_peers(self) -> Seq<PeerID> {
        self.sessions.filter(
            |row: (PeerID, SessionView)| row.1.is_in_game() && !self.turns.is_delayed(row.0),
        ).map_values(|row: (PeerID, SessionView)| row.0)
    }

    pub open spec fn told_live(self, msg: WireMessageView) -> Ctx {
        self.sent_to(self.live_peers(), msg)
    }

    pub open spec fn told_delayed(self, msg: WireMessageView) -> Ctx {
        self.sent_to(self.turns.delayed_peers(), msg)
    }

    pub open spec fn told_delayed_all(self, msgs: Seq<WireMessageView>) -> Ctx
        decreases msgs.len(),
    {
        if msgs.len() == 0 {
            self
        } else {
            self.told_delayed_all(msgs.drop_last()).told_delayed(msgs.last())
        }
    }

    /// One released turn told to the players.
    pub open spec fn sealed_live(self, turn: u32, turn_length: u16) -> Ctx {
        Ctx { log: self.log.with_length(turn, turn_length), ..self }.told_live(
            WireMessageView::TurnSealed(TurnSealed { turn, turn_length }),
        )
    }

    /// Every turn after `from`, through `to`, told to the players.
    pub open spec fn all_sealed_live(self, from: u32, to: u32, turn_length: u16) -> Ctx
        decreases to,
    {
        if to <= from {
            self
        } else {
            self.all_sealed_live(from, (to - 1) as u32, turn_length).sealed_live(to, turn_length)
        }
    }

    /// Whether a player is in the match. One who is rejoining counts too, so a
    /// reconnect does not drain the feed in the moment the player is away.
    pub open spec fn players_remain(self) -> bool {
        exists|i: int|
            0 <= i < self.sessions.len() && self.is_player_session(#[trigger] self.sessions[i].1)
    }

    pub open spec fn is_player_session(self, s: SessionView) -> bool {
        &&& s.is_in_game() || s.is_syncing()
        &&& match s.uuid {
            Some(uuid) => match slots::slot_of(self.slots, uuid) {
                Some(slot) => slot != UNASSIGNED,
                None => false,
            },
            None => false,
        }
    }

    /// One turn told to the delayed observers: its commands, then its seal.
    pub open spec fn fed_turn(self, turn: u32) -> Ctx {
        self.told_delayed_all(command_messages(self.log.commands_for(turn))).told_delayed(
            WireMessageView::TurnSealed(
                TurnSealed {
                    turn,
                    turn_length: self.log.length_or(turn, self.config.turn_length_ms as u16),
                },
            ),
        )
    }

    pub open spec fn fed_turns(self, from: u32, to: u32) -> Ctx
        decreases to,
    {
        if to <= from {
            self
        } else {
            self.fed_turns(from, (to - 1) as u32).fed_turn(to)
        }
    }

    /// A joiner is granted its snapshot as it is told to join.
    pub open spec fn join_released(self, join: DueJoinView) -> Ctx {
        Ctx { transfers: self.transfers.granting(join.joiner, join.snapshot), ..self }.sent(
            join.joiner,
            WireMessageView::Join(join.join),
        )
    }

    pub open spec fn joins_released(self, joins: Seq<DueJoinView>) -> Ctx
        decreases joins.len(),
    {
        if joins.len() == 0 {
            self
        } else {
            self.joins_released(joins.drop_last()).join_released(joins.last())
        }
    }

    /// The feed moved on, and everything that became due told.
    pub open spec fn feed_advanced(self) -> Ctx {
        let moved = Ctx {
            feed: self.feed.advanced(self.turns.ready, !self.players_remain()),
            ..self
        };
        let fed = moved.fed_turns(self.feed.head, moved.feed.head);
        let flares = fed.feed.due_flares();
        let flared = Ctx { feed: fed.feed.flares_sent(), ..fed }.told_delayed_all(
            flare_messages(flares),
        );
        let joins = flared.feed.due_joins();
        Ctx { feed: flared.feed.joins_sent(), ..flared }.joins_released(joins)
    }

    /// Every turn that may be released is, and the feed follows.
    pub open spec fn turns_released(self, turn_length_ms: u32) -> Ctx {
        let after = Ctx { turns: self.turns.released(self.config.observer_lag_limit), ..self };
        after.all_sealed_live(
            self.turns.ready,
            after.turns.ready,
            turn_length_ms as u16,
        ).feed_advanced()
    }

    pub open spec fn mismatch_told(self, m: HashMismatchView) -> Ctx {
        let msg = WireMessageView::WrongHashPlayers(
            WrongHashPlayersView {
                turn: m.turn,
                hash_expected: m.reference,
                player_names: names_of(self.sessions, m.mismatched),
            },
        );
        match m.recipient {
            Some(peer) => self.sent(peer, msg),
            None => self.broadcast(msg, Audience::InGame),
        }
    }

    pub open spec fn mismatches_told(self, found: Seq<HashMismatchView>) -> Ctx
        decreases found.len(),
    {
        if found.len() == 0 {
            self
        } else {
            self.mismatches_told(found.drop_last()).mismatch_told(found.last())
        }
    }
}

impl Context {
    fn live_peers(&self) -> (r: Vec<PeerID>)
        ensures
            r@ == self@.live_peers(),
    {
        let ghost c = self@;
        let ghost all = self.sessions@;
        let ghost live = |row: (PeerID, SessionView)|
            row.1.is_in_game() && !c.turns.is_delayed(row.0);
        let ghost peer = |row: (PeerID, SessionView)| row.0;
        let mut out: Vec<PeerID> = Vec::new();
        let mut i: usize = 0;
        proof {
            utils::lemma_filter_ends(all, live);
            assert(out@ =~= all.take(0).filter(live).map_values(peer));
        }
        while i < self.sessions.rows.len()
            invariant
                c == self@,
                all == self.sessions@,
                live == (|row: (PeerID, SessionView)|
                    row.1.is_in_game() && !c.turns.is_delayed(row.0)),
                peer == (|row: (PeerID, SessionView)| row.0),
                i <= self.sessions.rows@.len(),
                out@ == all.take(i as int).filter(live).map_values(peer),
            decreases self.sessions.rows@.len() - i,
        {
            let ghost before = all.take(i as int).filter(live);
            proof {
                utils::lemma_filter_step(all, i as int, live);
                assert(all[i as int] == table::row_view(self.sessions.rows@[i as int]));
                assert(before.push(all[i as int]).map_values(peer) =~= before.map_values(
                    peer,
                ).push(peer(all[i as int])));
            }
            let p = self.sessions.rows[i].0;
            if self.sessions.rows[i].1.is_in_game() && !self.turns.is_delayed(p) {
                out.push(p);
            }
            i += 1;
        }
        out
    }

    /// The turn stream and flares as the players see them. Delayed observers
    /// get the same messages later, from the feed.
    pub fn broadcast_live(&mut self, msg: &WireMessage)
        ensures
            final(self)@ == old(self)@.told_live(msg@),
    {
        let peers = self.live_peers();
        self.send_to(&peers, msg);
    }

    pub fn broadcast_delayed(&mut self, msg: &WireMessage)
        ensures
            final(self)@ == old(self)@.told_delayed(msg@),
    {
        let peers = self.turns.delayed_peers();
        self.send_to(&peers, msg);
    }

    fn feed_commands(&mut self, commands: &Vec<PlayerCommand>)
        requires
            old(self).wf(),
        ensures
            final(self)@ == old(self)@.told_delayed_all(
                command_messages(items::views(commands@)),
            ),
            final(self).wf(),
            final(self)@ == (Ctx { effects: final(self)@.effects, ..old(self)@ }),
    {
        let ghost c = self@;
        let ghost msgs = command_messages(items::views(commands@));
        let mut i: usize = 0;
        assert(msgs.take(0) =~= Seq::empty());
        while i < commands.len()
            invariant
                c == old(self)@,
                c.wf(),
                msgs == command_messages(items::views(commands@)),
                i <= commands@.len(),
                self@ == c.told_delayed_all(msgs.take(i as int)),
                self@ == (Ctx { effects: self@.effects, ..c }),
            decreases commands@.len() - i,
        {
            proof {
                assert(msgs.take(i + 1).drop_last() =~= msgs.take(i as int));
                assert(msgs.take(i + 1).last() == WireMessageView::PlayerCommand(
                    commands@[i as int]@,
                ));
            }
            self.broadcast_delayed(&WireMessage::PlayerCommand(commands[i].clone()));
            i += 1;
        }
        assert(msgs.take(i as int) =~= msgs);
    }

    fn feed_flares(&mut self, flares: &Vec<Flare>)
        requires
            old(self).wf(),
        ensures
            final(self)@ == old(self)@.told_delayed_all(flare_messages(items::views(flares@))),
            final(self).wf(),
            final(self)@ == (Ctx { effects: final(self)@.effects, ..old(self)@ }),
    {
        let ghost c = self@;
        let ghost msgs = flare_messages(items::views(flares@));
        let mut i: usize = 0;
        assert(msgs.take(0) =~= Seq::empty());
        while i < flares.len()
            invariant
                c == old(self)@,
                c.wf(),
                msgs == flare_messages(items::views(flares@)),
                i <= flares@.len(),
                self@ == c.told_delayed_all(msgs.take(i as int)),
                self@ == (Ctx { effects: self@.effects, ..c }),
            decreases flares@.len() - i,
        {
            proof {
                assert(msgs.take(i + 1).drop_last() =~= msgs.take(i as int));
                assert(msgs.take(i + 1).last() == WireMessageView::Flare(flares@[i as int]@));
            }
            self.broadcast_delayed(&WireMessage::Flare(flares[i].clone()));
            i += 1;
        }
        assert(msgs.take(i as int) =~= msgs);
    }

    fn feed_turn(&mut self, turn: u32)
        requires
            old(self).wf(),
        ensures
            final(self)@ == old(self)@.fed_turn(turn),
            final(self).wf(),
            final(self)@ == (Ctx { effects: final(self)@.effects, ..old(self)@ }),
    {
        let commands = self.log.commands_for(turn);
        self.feed_commands(&commands);
        let turn_length: u16 = self.log.length_or(turn, self.config.turn_length_ms as u16);
        self.broadcast_delayed(&WireMessage::TurnSealed(TurnSealed { turn, turn_length }));
    }

    fn feed_turns(&mut self, from: u32, to: u32)
        requires
            old(self).wf(),
        ensures
            final(self)@ == old(self)@.fed_turns(from, to),
            final(self).wf(),
            final(self)@ == (Ctx { effects: final(self)@.effects, ..old(self)@ }),
    {
        let ghost c = self@;
        let mut turn: u32 = from;
        while turn < to
            invariant
                c == old(self)@,
                self.wf(),
                from <= turn,
                turn <= to || turn == from,
                self@ == c.fed_turns(from, turn),
                self@ == (Ctx { effects: self@.effects, ..c }),
            decreases to - turn,
        {
            turn = turn + 1;
            self.feed_turn(turn);
        }
    }

    fn release_joins(&mut self, joins: Vec<DueJoin>)
        requires
            old(self).wf(),
        ensures
            final(self)@ == old(self)@.joins_released(items::views(joins@)),
            final(self).wf(),
            final(self)@ == (Ctx {
                effects: final(self)@.effects,
                transfers: final(self)@.transfers,
                ..old(self)@
            }),
    {
        let ghost c = self@;
        let ghost all = items::views(joins@);
        let mut i: usize = 0;
        assert(all.take(0) =~= Seq::empty());
        while i < joins.len()
            invariant
                c == old(self)@,
                all == items::views(joins@),
                i <= joins@.len(),
                self.wf(),
                self@ == c.joins_released(all.take(i as int)),
                self@ == (Ctx { effects: self@.effects, transfers: self@.transfers, ..c }),
            decreases joins@.len() - i,
        {
            proof {
                assert(all.take(i + 1).drop_last() =~= all.take(i as int));
                assert(all.take(i + 1).last() == joins@[i as int]@);
            }
            let join = &joins[i];
            self.transfers.grant(join.joiner, join.snapshot.clone());
            self.send(join.joiner, WireMessage::Join(join.join.clone()));
            i += 1;
        }
        assert(all.take(i as int) =~= all);
    }

    pub fn players_remain(&self) -> (r: bool)
        ensures
            r == self@.players_remain(),
    {
        let mut i: usize = 0;
        while i < self.sessions.rows.len()
            invariant
                i <= self.sessions.rows@.len(),
                forall|j: int|
                    0 <= j < i ==> !self@.is_player_session(#[trigger] self@.sessions[j].1),
            decreases self.sessions.rows@.len() - i,
        {
            let s = &self.sessions.rows[i].1;
            assert(self@.sessions[i as int] == table::row_view(self.sessions.rows@[i as int]));
            let plays = match &s.uuid {
                Some(uuid) => match self.slots.slot_of(uuid) {
                    Some(slot) => slot != UNASSIGNED,
                    None => false,
                },
                None => false,
            };
            if (s.is_in_game() || s.is_syncing()) && plays {
                assert(self@.is_player_session(self@.sessions[i as int].1));
                return true;
            }
            i += 1;
        }
        false
    }

    /// Every turn is sealed live before it is sealed here, so its commands and
    /// its length are all in the match log by the time it is due.
    pub fn advance_feed(&mut self)
        requires
            old(self).wf(),
        ensures
            final(self)@ == old(self)@.feed_advanced(),
            final(self).wf(),
            final(self)@ == (Ctx {
                effects: final(self)@.effects,
                transfers: final(self)@.transfers,
                feed: final(self)@.feed,
                ..old(self)@
            }),
    {
        let draining = !self.players_remain();
        let ready: u32 = self.turns.ready_turn();
        let (from, to) = self.feed.advance(ready, draining);
        self.feed_turns(from, to);
        let flares = self.feed.due_flares();
        self.feed_flares(&flares);
        let joins = self.feed.due_joins();
        self.release_joins(joins);
    }

    fn seal_live(&mut self, from: u32, to: u32, turn_length: u16)
        requires
            old(self).wf(),
        ensures
            final(self)@ == old(self)@.all_sealed_live(from, to, turn_length),
            final(self).wf(),
            final(self)@ == (Ctx {
                effects: final(self)@.effects,
                log: final(self)@.log,
                ..old(self)@
            }),
    {
        let ghost c = self@;
        let mut turn: u32 = from;
        while turn < to
            invariant
                c == old(self)@,
                self.wf(),
                from <= turn,
                turn <= to || turn == from,
                self@ == c.all_sealed_live(from, turn, turn_length),
                self@ == (Ctx { effects: self@.effects, log: self@.log, ..c }),
            decreases to - turn,
        {
            turn = turn + 1;
            self.log.record_turn_length(turn, turn_length);
            self.broadcast_live(&WireMessage::TurnSealed(TurnSealed { turn, turn_length }));
        }
    }

    pub fn release_turns(&mut self, turn_length_ms: u32)
        requires
            old(self).wf(),
        ensures
            final(self)@ == old(self)@.turns_released(turn_length_ms),
            final(self).wf(),
            final(self)@ == (Ctx {
                effects: final(self)@.effects,
                log: final(self)@.log,
                turns: final(self)@.turns,
                transfers: final(self)@.transfers,
                feed: final(self)@.feed,
                ..old(self)@
            }),
    {
        let (from, to) = self.turns.release(self.config.observer_lag_limit);
        self.seal_live(from, to, turn_length_ms as u16);
        self.advance_feed();
    }

    pub fn report_mismatch(&mut self, mismatch: &HashMismatch)
        ensures
            final(self)@ == old(self)@.mismatch_told(mismatch@),
    {
        let ghost sessions = self@.sessions;
        let ghost all = mismatch.mismatched@;
        let mut names: Vec<String> = Vec::new();
        let mut i: usize = 0;
        proof {
            assert(all.take(0) =~= Seq::empty());
            assert(items::views(names@) =~= Seq::empty());
        }
        while i < mismatch.mismatched.len()
            invariant
                self == old(self),
                sessions == self@.sessions,
                all == mismatch.mismatched@,
                i <= all.len(),
                items::views(names@) == names_of(sessions, all.take(i as int)),
            decreases all.len() - i,
        {
            let ghost so_far = items::views(names@);
            proof {
                assert(all.take(i + 1).drop_last() =~= all.take(i as int));
                assert(all.take(i + 1).last() == all[i as int]);
            }
            if let Some(s) = self.sessions.get(&mismatch.mismatched[i]) {
                if let Some(name) = s.name() {
                    let name = utils::copy_text(name);
                    let ghost v = name@;
                    names.push(name);
                    assert(items::views(names@) =~= so_far.push(v));
                }
            }
            i += 1;
        }
        assert(all.take(i as int) =~= all);
        let msg = WireMessage::WrongHashPlayers(
            WrongHashPlayers {
                turn: mismatch.turn,
                hash_expected: vstd::slice::slice_to_vec(mismatch.reference.as_slice()),
                player_names: names,
            },
        );
        match mismatch.recipient {
            Some(peer) => self.send(peer, msg),
            None => self.broadcast(&msg, Audience::InGame),
        }
    }

    pub fn report_mismatches(&mut self, found: &Vec<HashMismatch>)
        requires
            old(self).wf(),
        ensures
            final(self)@ == old(self)@.mismatches_told(items::views(found@)),
            final(self).wf(),
            final(self)@ == (Ctx { effects: final(self)@.effects, ..old(self)@ }),
    {
        let ghost c = self@;
        let ghost all = items::views(found@);
        let mut i: usize = 0;
        assert(all.take(0) =~= Seq::empty());
        while i < found.len()
            invariant
                c == old(self)@,
                self.wf(),
                all == items::views(found@),
                i <= found@.len(),
                self@ == c.mismatches_told(all.take(i as int)),
                self@ == (Ctx { effects: self@.effects, ..c }),
            decreases found@.len() - i,
        {
            proof {
                assert(all.take(i + 1).drop_last() =~= all.take(i as int));
                assert(all.take(i + 1).last() == found@[i as int]@);
            }
            self.report_mismatch(&found[i]);
            i += 1;
        }
        assert(all.take(i as int) =~= all);
    }
}

} // verus!
