//! What observers see of a match, some turns behind the players.

use std::sync::Arc;

use vstd::prelude::*;

use crate::network_message::PeerID;
use crate::relay::messages::items;
use crate::relay::messages::Flare;
use crate::relay::messages::FlareView;
use crate::relay::messages::Join;
use crate::relay::messages::JoinView;
use crate::relay::turn::INITIAL_READY_TURN;
use crate::table;
use crate::table::Table;
use crate::utils;

verus! {

/// Observers watch the match this many turns behind the players, so what they
/// see cannot be relayed back to a player in time to matter. At the stock
/// 200 ms turn that is one minute.
pub const DEFAULT_DELAY_TURNS: u32 = 300;

/// The feed keeps no copy of the turn stream: every command and turn length is
/// kept in the match log anyway, so releasing a turn to the delayed observers
/// is a read of the log at a later moment. What it does hold is the traffic
/// the log does not keep, flares, and joiners that have to wait for the feed
/// to reach the state they were handed.
#[derive(Debug)]
pub struct ObserverFeed {
    pub delay: u32,
    /// The last turn sealed to delayed observers.
    pub head: u32,
    /// Each with the turn it belongs to, earlier turns first.
    pub flares: Vec<(u32, Flare)>,
    pub joins: Table<PeerID, HeldJoin>,
}

#[derive(Debug)]
pub struct HeldJoin {
    /// The highest turn the snapshot's source had been sealed when it was
    /// taken; the snapshot cannot be past it.
    pub bound: u32,
    pub join: Join,
    /// Held back with the join, because a joiner that could download it
    /// earlier would see state from a turn the feed has not reached.
    pub snapshot: Arc<Vec<u8>>,
}

/// What [`HeldJoin`] is.
pub struct HeldJoinView {
    pub bound: u32,
    pub join: JoinView,
    pub snapshot: Seq<u8>,
}

impl View for HeldJoin {
    type V = HeldJoinView;

    open spec fn view(&self) -> HeldJoinView {
        HeldJoinView { bound: self.bound, join: self.join@, snapshot: self.snapshot@ }
    }
}

/// What [`ObserverFeed`] is.
pub struct Feed {
    pub delay: u32,
    pub head: u32,
    pub flares: Seq<(u32, FlareView)>,
    pub joins: Seq<(PeerID, HeldJoinView)>,
}

/// A queued flare.
pub open spec fn flare_view(f: (u32, Flare)) -> (u32, FlareView) {
    (f.0, f.1@)
}

pub open spec fn flare_views(s: Seq<(u32, Flare)>) -> Seq<(u32, FlareView)> {
    s.map_values(|f: (u32, Flare)| flare_view(f))
}

impl View for ObserverFeed {
    type V = Feed;

    open spec fn view(&self) -> Feed {
        Feed {
            delay: self.delay,
            head: self.head,
            flares: flare_views(self.flares@),
            joins: self.joins@,
        }
    }
}

/// A join that is sent, and the snapshot it was built for.
#[derive(Debug)]
pub struct DueJoin {
    pub joiner: PeerID,
    pub join: Join,
    pub snapshot: Arc<Vec<u8>>,
}

/// What [`DueJoin`] is.
pub struct DueJoinView {
    pub joiner: PeerID,
    pub join: JoinView,
    pub snapshot: Seq<u8>,
}

impl View for DueJoin {
    type V = DueJoinView;

    open spec fn view(&self) -> DueJoinView {
        DueJoinView { joiner: self.joiner, join: self.join@, snapshot: self.snapshot@ }
    }
}

/// Those queued for turns up to this one.
pub open spec fn up_to(flares: Seq<(u32, FlareView)>, turn: u32) -> Seq<(u32, FlareView)> {
    flares.filter(|f: (u32, FlareView)| f.0 <= turn)
}

/// Those queued for turns past this one.
pub open spec fn past(flares: Seq<(u32, FlareView)>, turn: u32) -> Seq<(u32, FlareView)> {
    flares.filter(|f: (u32, FlareView)| f.0 > turn)
}

/// The joins the feed has reached.
pub open spec fn due(joins: Seq<(PeerID, HeldJoinView)>, head: u32) -> Seq<DueJoinView> {
    joins.filter(|j: (PeerID, HeldJoinView)| j.1.bound <= head).map_values(
        |j: (PeerID, HeldJoinView)|
            DueJoinView { joiner: j.0, join: j.1.join, snapshot: j.1.snapshot },
    )
}

/// The joins the feed has not reached.
pub open spec fn not_due(joins: Seq<(PeerID, HeldJoinView)>, head: u32) -> Seq<
    (PeerID, HeldJoinView),
> {
    joins.filter(|j: (PeerID, HeldJoinView)| j.1.bound > head)
}

impl Feed {
    pub open spec fn new(delay: u32) -> Feed {
        Feed {
            delay,
            head: INITIAL_READY_TURN,
            flares: Seq::empty(),
            joins: Seq::empty(),
        }
    }

    /// Where the feed is once the players are at `live`. Without players there
    /// is nothing to hide, so the feed follows the live turn. It never moves
    /// back, because a client cannot take a sealed turn back.
    pub open spec fn reached(self, live: u32, draining: bool) -> u32 {
        let target = if draining {
            live
        } else if live >= self.delay {
            (live - self.delay) as u32
        } else {
            0
        };
        if target > self.head {
            target
        } else {
            self.head
        }
    }

    pub open spec fn advanced(self, live: u32, draining: bool) -> Feed {
        Feed { head: self.reached(live, draining), ..self }
    }

    /// A flare goes behind those of its own turn and earlier ones.
    pub open spec fn with_flare(self, turn: u32, flare: FlareView) -> Feed {
        Feed {
            flares: up_to(self.flares, turn).push((turn, flare)) + past(self.flares, turn),
            ..self
        }
    }

    /// The flares that are due, in order.
    pub open spec fn due_flares(self) -> Seq<FlareView> {
        up_to(self.flares, self.head).map_values(|f: (u32, FlareView)| f.1)
    }

    pub open spec fn flares_sent(self) -> Feed {
        Feed { flares: past(self.flares, self.head), ..self }
    }

    pub open spec fn with_join(
        self,
        joiner: PeerID,
        bound: u32,
        join: JoinView,
        snapshot: Seq<u8>,
    ) -> Feed {
        Feed {
            joins: table::with_row(self.joins, joiner, HeldJoinView { bound, join, snapshot }),
            ..self
        }
    }

    pub open spec fn due_joins(self) -> Seq<DueJoinView> {
        due(self.joins, self.head)
    }

    pub open spec fn joins_sent(self) -> Feed {
        Feed { joins: not_due(self.joins, self.head), ..self }
    }

    pub open spec fn forgotten(self, peer: PeerID) -> Feed {
        Feed { joins: table::without_row(self.joins, peer), ..self }
    }

    /// The feed never moves back, stays the delay behind the players while
    /// there are any and no further, and never passes them.
    pub proof fn stays_behind(self, live: u32, draining: bool)
        requires
            self.head <= live,
        ensures
            self.head <= self.advanced(live, draining).head <= live,
            !draining ==> {
                ||| self.advanced(live, draining).head == self.head
                ||| self.advanced(live, draining).head + self.delay <= live
            },
            self.advanced(live, draining).head + self.delay >= live,
            draining ==> self.advanced(live, draining).head == live,
    {
    }

    /// A flare that the feed has reached is let out with every other of them,
    /// just as it was raised; one it has not reached waits.
    pub proof fn flares_wait_for_the_feed(self, turn: u32, flare: FlareView)
        requires
            self.flares.contains((turn, flare)),
        ensures
            turn <= self.head ==> self.due_flares().contains(flare),
            turn > self.head ==> self.flares_sent().flares.contains((turn, flare)),
            forall|f: FlareView| #[trigger]
                self.due_flares().contains(f) ==> exists|t: u32|
                    t <= self.head && #[trigger] self.flares.contains((t, f)),
            forall|i: int|
                0 <= i < self.flares_sent().flares.len() ==> (
                #[trigger] self.flares_sent().flares[i]).0 > self.head,
    {
        let near = |f: (u32, FlareView)| f.0 <= self.head;
        let far = |f: (u32, FlareView)| f.0 > self.head;
        let k = choose|k: int| 0 <= k < self.flares.len() && self.flares[k] == (turn, flare);
        let a = up_to(self.flares, self.head);
        if turn <= self.head {
            self.flares.lemma_filter_contains(near, k);
            let i = choose|i: int| 0 <= i < a.len() && a[i] == (turn, flare);
            assert(self.due_flares()[i] == flare);
        } else {
            self.flares.lemma_filter_contains(far, k);
        }
        assert forall|f: FlareView| #[trigger] self.due_flares().contains(f) implies exists|t: u32|
            t <= self.head && #[trigger] self.flares.contains((t, f)) by {
            let i = choose|i: int| 0 <= i < self.due_flares().len() && self.due_flares()[i] == f;
            self.flares.lemma_filter_pred(near, i);
            assert(a.contains(a[i]));
            self.flares.lemma_filter_contains_rev(near, a[i]);
            assert(self.flares.contains((a[i].0, f)));
        }
        assert forall|i: int| 0 <= i < self.flares_sent().flares.len() implies (
        #[trigger] self.flares_sent().flares[i]).0 > self.head by {
            self.flares.lemma_filter_pred(far, i);
        }
    }

    /// Every join that is held is let out once the feed has reached its
    /// snapshot, and held still until then.
    pub proof fn joins_are_not_lost(self, i: int)
        requires
            0 <= i < self.joins.len(),
        ensures
            ({
                let (joiner, held) = self.joins[i];
                &&& held.bound <= self.head ==> self.due_joins().contains(
                    DueJoinView { joiner, join: held.join, snapshot: held.snapshot },
                )
                &&& held.bound > self.head ==> self.joins_sent().joins.contains((joiner, held))
            }),
    {
        let now = |j: (PeerID, HeldJoinView)| j.1.bound <= self.head;
        let later = |j: (PeerID, HeldJoinView)| j.1.bound > self.head;
        let (joiner, held) = self.joins[i];
        if held.bound <= self.head {
            self.joins.lemma_filter_contains(now, i);
            let rows = self.joins.filter(now);
            let k = choose|k: int| 0 <= k < rows.len() && rows[k] == self.joins[i];
            assert(self.due_joins()[k] == (DueJoinView {
                joiner,
                join: held.join,
                snapshot: held.snapshot,
            }));
        } else {
            self.joins.lemma_filter_contains(later, i);
        }
    }

    /// A flare that is kept is kept with every other.
    pub proof fn lemma_with_flare(self, turn: u32, flare: FlareView)
        ensures
            self.with_flare(turn, flare).flares.contains((turn, flare)),
            forall|f: (u32, FlareView)| #[trigger]
                self.flares.contains(f) ==> self.with_flare(turn, flare).flares.contains(f),
    {
        let near = |f: (u32, FlareView)| f.0 <= turn;
        let far = |f: (u32, FlareView)| f.0 > turn;
        let a = up_to(self.flares, turn);
        let b = past(self.flares, turn);
        let all = self.with_flare(turn, flare).flares;
        assert(all[a.len() as int] == (turn, flare));
        assert forall|f: (u32, FlareView)| #[trigger] self.flares.contains(f) implies all.contains(
            f,
        ) by {
            let k = choose|k: int| 0 <= k < self.flares.len() && self.flares[k] == f;
            if f.0 <= turn {
                self.flares.lemma_filter_contains(near, k);
                let i = choose|i: int| 0 <= i < a.len() && a[i] == f;
                assert(all[i] == f);
            } else {
                self.flares.lemma_filter_contains(far, k);
                let i = choose|i: int| 0 <= i < b.len() && b[i] == f;
                assert(all[a.len() + 1 + i] == f);
            }
        }
    }

    /// Whether the feed holds this join and has reached its snapshot.
    pub open spec fn has_reached(self, d: DueJoinView) -> bool {
        exists|k: int|
            0 <= k < self.joins.len() && (#[trigger] self.joins[k]).0 == d.joiner
                && self.joins[k].1.bound <= self.head && self.joins[k].1.join == d.join
                && self.joins[k].1.snapshot == d.snapshot
    }

    /// No join is let out before the feed has reached its snapshot, and none
    /// that it has reached stays behind.
    pub proof fn joins_wait_for_the_feed(self)
        ensures
            forall|i: int|
                0 <= i < self.due_joins().len() ==> self.has_reached(
                    #[trigger] self.due_joins()[i],
                ),
            forall|i: int|
                0 <= i < self.joins_sent().joins.len() ==> (
                #[trigger] self.joins_sent().joins[i]).1.bound > self.head,
    {
        let now = |j: (PeerID, HeldJoinView)| j.1.bound <= self.head;
        let later = |j: (PeerID, HeldJoinView)| j.1.bound > self.head;
        assert forall|i: int| 0 <= i < self.due_joins().len() implies self.has_reached(
            #[trigger] self.due_joins()[i],
        ) by {
            let row = self.joins.filter(now)[i];
            assert(now(row));
            assert(self.joins.filter(now).contains(row));
            self.joins.lemma_filter_contains_rev(now, row);
            let k = choose|k: int| 0 <= k < self.joins.len() && self.joins[k] == row;
            assert(self.joins[k].0 == self.due_joins()[i].joiner);
        }
        assert forall|i: int| 0 <= i < self.joins_sent().joins.len() implies (
        #[trigger] self.joins_sent().joins[i]).1.bound > self.head by {
            assert(later(self.joins.filter(later)[i]));
        }
    }
}

/// Flares split by whether their turn is past the given one.
fn split(flares: Vec<(u32, Flare)>, turn: u32) -> (r: (Vec<(u32, Flare)>, Vec<(u32, Flare)>))
    ensures
        flare_views(r.0@) == up_to(flare_views(flares@), turn),
        flare_views(r.1@) == past(flare_views(flares@), turn),
{
    let ghost all = flare_views(flares@);
    let ghost near = |f: (u32, FlareView)| f.0 <= turn;
    let ghost far = |f: (u32, FlareView)| f.0 > turn;
    let mut first: Vec<(u32, Flare)> = Vec::new();
    let mut second: Vec<(u32, Flare)> = Vec::new();
    let mut i: usize = 0;
    proof {
        utils::lemma_filter_ends(all, near);
        utils::lemma_filter_ends(all, far);
        assert(flare_views(first@) =~= Seq::empty());
    }
    while i < flares.len()
        invariant
            all == flare_views(flares@),
            near == (|f: (u32, FlareView)| f.0 <= turn),
            far == (|f: (u32, FlareView)| f.0 > turn),
            i <= flares@.len(),
            flare_views(first@) == all.take(i as int).filter(near),
            flare_views(second@) == all.take(i as int).filter(far),
        decreases flares@.len() - i,
    {
        let ghost a = flare_views(first@);
        let ghost b = flare_views(second@);
        proof {
            utils::lemma_filter_step(all, i as int, near);
            utils::lemma_filter_step(all, i as int, far);
        }
        let t: u32 = flares[i].0;
        let flare = flares[i].1.clone();
        let ghost v = (t, flare@);
        if t <= turn {
            first.push((t, flare));
            assert(flare_views(first@) =~= a.push(v));
        } else {
            second.push((t, flare));
            assert(flare_views(second@) =~= b.push(v));
        }
        i += 1;
    }
    (first, second)
}

impl ObserverFeed {
    pub fn new(delay: u32) -> (r: Self)
        ensures
            r@ == Feed::new(delay),
    {
        let r = ObserverFeed {
            delay,
            head: INITIAL_READY_TURN,
            flares: Vec::new(),
            joins: Table::new(),
        };
        assert(flare_views(r.flares@) =~= Seq::empty());
        r
    }

    pub fn head(&self) -> (r: u32)
        ensures
            r == self@.head,
    {
        self.head
    }

    /// Returns where the feed was and where it is: the turns that became due
    /// are those after the first, through the second.
    pub fn advance(&mut self, live_ready_turn: u32, draining: bool) -> (r: (u32, u32))
        ensures
            final(self)@ == old(self)@.advanced(live_ready_turn, draining),
            r == (old(self)@.head, final(self)@.head),
    {
        let target: u32 = if draining {
            live_ready_turn
        } else {
            live_ready_turn.saturating_sub(self.delay)
        };
        let from: u32 = self.head;
        if target > self.head {
            self.head = target;
        }
        (from, self.head)
    }

    pub fn queue_flare(&mut self, turn: u32, flare: Flare)
        ensures
            final(self)@ == old(self)@.with_flare(turn, flare@),
    {
        let ghost v = flare@;
        let mut flares: Vec<(u32, Flare)> = Vec::new();
        std::mem::swap(&mut flares, &mut self.flares);
        let (mut first, mut second) = split(flares, turn);
        let ghost a = flare_views(first@);
        let ghost b = flare_views(second@);
        first.push((turn, flare));
        assert(flare_views(first@) =~= a.push((turn, v)));
        let ghost c = flare_views(first@);
        first.append(&mut second);
        assert(flare_views(first@) =~= c + b);
        self.flares = first;
    }

    pub fn due_flares(&mut self) -> (r: Vec<Flare>)
        ensures
            final(self)@ == old(self)@.flares_sent(),
            items::views(r@) == old(self)@.due_flares(),
    {
        let mut flares: Vec<(u32, Flare)> = Vec::new();
        std::mem::swap(&mut flares, &mut self.flares);
        let (first, second) = split(flares, self.head);
        self.flares = second;
        let mut out: Vec<Flare> = Vec::new();
        let mut i: usize = 0;
        while i < first.len()
            invariant
                i <= first@.len(),
                out@.len() == i,
                forall|j: int| 0 <= j < i ==> (#[trigger] out@[j])@ == first@[j].1@,
            decreases first@.len() - i,
        {
            out.push(first[i].1.clone());
            i += 1;
        }
        proof {
            let f = flare_views(first@);
            assert(items::views(out@) =~= f.map_values(
                |f: (u32, FlareView)| f.1,
            ));
        }
        out
    }

    pub fn hold_join(&mut self, joiner: PeerID, bound: u32, join: Join, snapshot: Arc<Vec<u8>>)
        ensures
            final(self)@ == old(self)@.with_join(joiner, bound, join@, snapshot@),
    {
        self.joins.put(joiner, HeldJoin { bound, join, snapshot });
    }

    /// A released join leaves the feed together with its snapshot, which the
    /// caller grants to the joiner as it sends the join.
    pub fn due_joins(&mut self) -> (r: Vec<DueJoin>)
        ensures
            final(self)@ == old(self)@.joins_sent(),
            items::views(r@) == old(self)@.due_joins(),
    {
        let head: u32 = self.head;
        let ghost all = self.joins@;
        let ghost now = |j: (PeerID, HeldJoinView)| j.1.bound <= head;
        let ghost later = |j: (PeerID, HeldJoinView)| j.1.bound > head;
        let ghost row = |j: (PeerID, HeldJoinView)|
            DueJoinView { joiner: j.0, join: j.1.join, snapshot: j.1.snapshot };
        let mut out: Vec<DueJoin> = Vec::new();
        let mut kept: Table<PeerID, HeldJoin> = Table::new();
        let mut i: usize = 0;
        proof {
            utils::lemma_filter_ends(all, now);
            utils::lemma_filter_ends(all, later);
            assert(items::views(out@) =~= all.take(0).filter(now).map_values(row));
        }
        while i < self.joins.rows.len()
            invariant
                self == old(self),
                head == self.head,
                all == self.joins@,
                now == (|j: (PeerID, HeldJoinView)| j.1.bound <= head),
                later == (|j: (PeerID, HeldJoinView)| j.1.bound > head),
                row == (|j: (PeerID, HeldJoinView)|
                    DueJoinView { joiner: j.0, join: j.1.join, snapshot: j.1.snapshot }),
                i <= self.joins.rows@.len(),
                items::views(out@) == all.take(i as int).filter(now).map_values(row),
                kept@ == all.take(i as int).filter(later),
            decreases self.joins.rows@.len() - i,
        {
            let ghost a = items::views(out@);
            let ghost b = kept@;
            let ghost before = all.take(i as int).filter(now);
            proof {
                utils::lemma_filter_step(all, i as int, now);
                utils::lemma_filter_step(all, i as int, later);
                assert(all[i as int] == table::row_view(self.joins.rows@[i as int]));
            }
            let joiner = self.joins.rows[i].0;
            let held = &self.joins.rows[i].1;
            let join = held.join.clone();
            let snapshot = held.snapshot.clone();
            if held.bound <= head {
                let due = DueJoin { joiner, join, snapshot };
                let ghost d = due@;
                out.push(due);
                proof {
                    assert(items::views(out@) =~= a.push(d));
                    assert(before.push(all[i as int]).map_values(row) =~= before.map_values(
                        row,
                    ).push(row(all[i as int])));
                }
            } else {
                let same = HeldJoin { bound: held.bound, join, snapshot };
                let ghost s = same@;
                kept.rows.push((joiner, same));
                assert(kept@ =~= b.push((joiner, s)));
            }
            i += 1;
        }
        self.joins = kept;
        out
    }

    /// Called once the joiner has loaded, and on departure.
    pub fn forget(&mut self, peer: PeerID)
        ensures
            final(self)@ == old(self)@.forgotten(peer),
    {
        let _ = self.joins.take(&peer);
    }
}

} // verus!
