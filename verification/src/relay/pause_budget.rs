//! How long each player may hold the match paused.

use vstd::prelude::*;

use crate::clock;
use crate::clock::Time;
use crate::relay::messages::items;
use crate::relay::messages::Guid;
use crate::table;
use crate::table::Table;

verus! {

// Spans are in milliseconds. A quota longer than any match anyone would play
// is how an operator turns the policy off.
pub const DEFAULT_BUDGET: i64 = 180_000;

pub const STATUS_INTERVAL: i64 = 10_000;

/// What a pass found worth telling the clients about. What is left of a quota
/// is in nanoseconds.
#[derive(Debug)]
pub enum BudgetEvent {
    Expired { uuid: Guid },
    Status { uuid: Guid, remaining: i128 },
    CoordinatedStarted,
    CoordinatedEnded,
    /// The match is held for players who are away: gone, still syncing back
    /// in, or silent too long. Their absence is charged to the same quota a
    /// pause spends, so leaving is never a cheaper pause.
    AutoPauseStarted { uuids: Vec<Guid> },
    AutoPauseEnded,
    AbsentExpired { uuid: Guid },
    AbsentStatus { uuid: Guid, remaining: i128 },
}

/// What a [`BudgetEvent`] says.
pub enum BudgetEventView {
    Expired { uuid: Seq<char> },
    Status { uuid: Seq<char>, remaining: i128 },
    CoordinatedStarted,
    CoordinatedEnded,
    AutoPauseStarted { uuids: Seq<Seq<char>> },
    AutoPauseEnded,
    AbsentExpired { uuid: Seq<char> },
    AbsentStatus { uuid: Seq<char>, remaining: i128 },
}

impl View for BudgetEvent {
    type V = BudgetEventView;

    open spec fn view(&self) -> BudgetEventView {
        match *self {
            BudgetEvent::Expired { uuid } => BudgetEventView::Expired { uuid: uuid@ },
            BudgetEvent::Status { uuid, remaining } => BudgetEventView::Status {
                uuid: uuid@,
                remaining,
            },
            BudgetEvent::CoordinatedStarted => BudgetEventView::CoordinatedStarted,
            BudgetEvent::CoordinatedEnded => BudgetEventView::CoordinatedEnded,
            BudgetEvent::AutoPauseStarted { uuids } => BudgetEventView::AutoPauseStarted {
                uuids: items::views(uuids@),
            },
            BudgetEvent::AutoPauseEnded => BudgetEventView::AutoPauseEnded,
            BudgetEvent::AbsentExpired { uuid } => BudgetEventView::AbsentExpired { uuid: uuid@ },
            BudgetEvent::AbsentStatus { uuid, remaining } => BudgetEventView::AbsentStatus {
                uuid: uuid@,
                remaining,
            },
        }
    }
}

/// Who is pausing, and what everyone has left, in nanoseconds.
#[derive(Debug)]
pub struct PauseBudget {
    pub pausing: Vec<Guid>,
    /// Only a player who was charged has a row.
    pub left: Table<Guid, i128>,
    pub budget: i128,
    /// What a pause costs however soon it is lifted. The drain alone charges
    /// only the time a pause was held, so toggling at packet rate would cost
    /// nothing while every pause still puts a line on everyone's screen.
    pub min_charge: i128,
    /// When each current pause began, as the newest tick time known here.
    pub paused_at: Table<Guid, Time>,
    pub last_check: Option<Time>,
    pub last_status: Option<Time>,
    pub coordinated: bool,
    pub held: bool,
}

/// What [`PauseBudget`] is.
pub struct Quotas {
    pub pausing: Seq<Seq<char>>,
    pub left: Seq<(Seq<char>, i128)>,
    pub budget: i128,
    pub min_charge: i128,
    pub paused_at: Seq<(Seq<char>, Time)>,
    pub last_check: Option<Time>,
    pub last_status: Option<Time>,
    pub coordinated: bool,
    pub held: bool,
}

impl View for PauseBudget {
    type V = Quotas;

    open spec fn view(&self) -> Quotas {
        Quotas {
            pausing: items::views(self.pausing@),
            left: self.left@,
            budget: self.budget,
            min_charge: self.min_charge,
            paused_at: self.paused_at@,
            last_check: self.last_check,
            last_status: self.last_status,
            coordinated: self.coordinated,
            held: self.held,
        }
    }
}

/// The largest quota, of either sign.
pub const LARGEST: i128 = 0x100_0000_0000_0000_0000_0000;

/// A quota charged with a span; nothing is left once it is used up.
pub open spec fn charged(left: i128, span: int) -> i128 {
    if left - span > 0 {
        (left - span) as i128
    } else {
        0
    }
}

/// What is left for everyone once each of these has been charged.
pub open spec fn all_charged(
    left: Seq<(Seq<char>, i128)>,
    who: Seq<Seq<char>>,
    budget: i128,
    span: int,
) -> Seq<(Seq<char>, i128)>
    decreases who.len(),
{
    if who.len() == 0 {
        left
    } else {
        let before = all_charged(left, who.drop_last(), budget, span);
        table::with_row(before, who.last(), charged(left_for(before, who.last(), budget), span))
    }
}

/// What one player has left.
pub open spec fn left_for(left: Seq<(Seq<char>, i128)>, uuid: Seq<char>, budget: i128) -> i128 {
    match table::lookup(left, uuid) {
        Some(x) => x,
        None => budget,
    }
}

/// What the wait for absent players comes to: what everyone has left, who is
/// still waited for, and what is to be told.
pub struct Wait {
    pub left: Seq<(Seq<char>, i128)>,
    pub waiting: Seq<Seq<char>>,
    pub events: Seq<BudgetEventView>,
}

/// Each absent player is charged; one with nothing left is not waited for. A
/// player who had nothing left to begin with is passed over.
pub open spec fn waited_for(
    left: Seq<(Seq<char>, i128)>,
    absent: Seq<Seq<char>>,
    budget: i128,
    span: int,
) -> Wait
    decreases absent.len(),
{
    if absent.len() == 0 {
        Wait { left, waiting: Seq::empty(), events: Seq::empty() }
    } else {
        let w = waited_for(left, absent.drop_last(), budget, span);
        let uuid = absent.last();
        let had = left_for(w.left, uuid, budget);
        let has = charged(had, span);
        if had <= 0 {
            Wait { left: table::with_row(w.left, uuid, had), ..w }
        } else if has <= 0 {
            Wait {
                left: table::with_row(w.left, uuid, has),
                events: w.events.push(BudgetEventView::AbsentExpired { uuid }),
                ..w
            }
        } else {
            Wait {
                left: table::with_row(w.left, uuid, has),
                waiting: w.waiting.push(uuid),
                ..w
            }
        }
    }
}

/// Those of the pausing with nothing left.
pub open spec fn used_up(
    pausing: Seq<Seq<char>>,
    left: Seq<(Seq<char>, i128)>,
    budget: i128,
) -> Seq<Seq<char>> {
    pausing.filter(|u: Seq<char>| left_for(left, u, budget) <= 0)
}

/// Those of the pausing with something left.
pub open spec fn not_used_up(
    pausing: Seq<Seq<char>>,
    left: Seq<(Seq<char>, i128)>,
    budget: i128,
) -> Seq<Seq<char>> {
    pausing.filter(|u: Seq<char>| left_for(left, u, budget) > 0)
}

/// Rows without those of the given players.
pub open spec fn all_dropped(rows: Seq<(Seq<char>, Time)>, who: Seq<Seq<char>>) -> Seq<
    (Seq<char>, Time),
>
    decreases who.len(),
{
    if who.len() == 0 {
        rows
    } else {
        table::without_row(all_dropped(rows, who.drop_last()), who.last())
    }
}

/// Whether a player is not this one.
pub open spec fn other_than(uuid: Seq<char>) -> spec_fn(Seq<char>) -> bool {
    |u: Seq<char>| u != uuid
}

impl Quotas {
    pub open spec fn new(budget: i64, min_charge: i64) -> Quotas {
        Quotas {
            pausing: Seq::empty(),
            left: Seq::empty(),
            budget: clock::ms(budget) as i128,
            min_charge: clock::ms(min_charge) as i128,
            paused_at: Seq::empty(),
            last_check: None,
            last_status: None,
            coordinated: false,
            held: false,
        }
    }

    /// What one player has left.
    pub open spec fn remaining(self, uuid: Seq<char>) -> i128 {
        left_for(self.left, uuid, self.budget)
    }

    /// A player pauses.
    pub open spec fn paused(self, uuid: Seq<char>) -> Quotas {
        if self.pausing.contains(uuid) {
            self
        } else {
            Quotas {
                pausing: self.pausing.push(uuid),
                paused_at: match self.last_check {
                    Some(now) => table::with_row(self.paused_at, uuid, now),
                    None => self.paused_at,
                },
                ..self
            }
        }
    }

    /// What the drain has not yet taken of the least a pause costs is charged
    /// when the pause is lifted.
    pub open spec fn shortfall_charged(self, uuid: Seq<char>) -> Quotas {
        let started = table::lookup(self.paused_at, uuid);
        let paused_at = table::without_row(self.paused_at, uuid);
        match (started, self.last_check) {
            (Some(start), Some(now)) => {
                let passed = now.instant() - start.instant();
                let held = if passed > 0 {
                    passed
                } else {
                    0
                };
                let shortfall = self.min_charge - held;
                Quotas {
                    paused_at,
                    left: if shortfall > 0 {
                        table::with_row(
                            self.left,
                            uuid,
                            charged(self.remaining(uuid), shortfall),
                        )
                    } else {
                        self.left
                    },
                    ..self
                }
            },
            _ => Quotas { paused_at, ..self },
        }
    }

    /// A player no longer pauses, whether lifting the pause or leaving.
    pub open spec fn resumed(self, uuid: Seq<char>) -> Quotas {
        if self.pausing.contains(uuid) {
            Quotas {
                pausing: self.pausing.filter(other_than(uuid)),
                ..self
            }.shortfall_charged(uuid)
        } else {
            self
        }
    }

    /// A returning player keeps what the player they were had left.
    pub open spec fn inherited(self, old_uuid: Seq<char>, new_uuid: Seq<char>) -> Quotas {
        match table::lookup(self.left, old_uuid) {
            Some(x) => Quotas {
                left: table::with_row(table::without_row(self.left, old_uuid), new_uuid, x),
                ..self
            },
            None => self,
        }
    }

    /// The time since the last pass, none when the clock stepped backwards.
    pub open spec fn elapsed(self, now: Time) -> int {
        match self.last_check {
            Some(last) => if now.instant() - last.instant() > 0 {
                now.instant() - last.instant()
            } else {
                0
            },
            None => 0,
        }
    }

    /// Whether everyone is pausing. With one player, that would let them pause
    /// for free.
    pub open spec fn is_coordinated(self, players: usize) -> bool {
        players >= 2 && self.pausing.len() == players
    }

    /// Whether the countdown is due, and when it was last shown. One moment
    /// for everyone, so two players pausing at once are reported together.
    pub open spec fn status_due(self, now: Time) -> (bool, Option<Time>) {
        match self.last_status {
            None => (false, Some(now)),
            Some(_) => if clock::interval_due(
                self.last_status,
                now,
                clock::ms(STATUS_INTERVAL),
            ) {
                (true, Some(now))
            } else {
                (false, self.last_status)
            },
        }
    }

    /// What turning to or from everyone pausing tells.
    pub open spec fn turned(self, players: usize) -> Seq<BudgetEventView> {
        if self.is_coordinated(players) == self.coordinated {
            Seq::empty()
        } else if self.is_coordinated(players) {
            seq![BudgetEventView::CoordinatedStarted]
        } else {
            seq![BudgetEventView::CoordinatedEnded]
        }
    }

    /// The pausing are charged, unless everyone pauses, and those with nothing
    /// left no longer pause.
    pub open spec fn drained(self, now: Time, players: usize) -> (Quotas, Seq<BudgetEventView>) {
        let left = if self.is_coordinated(players) {
            self.left
        } else {
            all_charged(self.left, self.pausing, self.budget, self.elapsed(now))
        };
        let out = used_up(self.pausing, left, self.budget);
        (
            Quotas {
                pausing: not_used_up(self.pausing, left, self.budget),
                left,
                paused_at: all_dropped(self.paused_at, out),
                last_check: Some(now),
                coordinated: self.is_coordinated(players),
                ..self
            },
            self.turned(players) + out.map_values(
                |uuid: Seq<char>| BudgetEventView::Expired { uuid },
            ),
        )
    }

    /// What starting or ending the wait tells.
    pub open spec fn hold_turned(self, waiting: Seq<Seq<char>>) -> Seq<BudgetEventView> {
        if waiting.len() > 0 && !self.held {
            seq![BudgetEventView::AutoPauseStarted { uuids: waiting }]
        } else if waiting.len() == 0 && self.held {
            seq![BudgetEventView::AutoPauseEnded]
        } else {
            Seq::empty()
        }
    }

    /// The countdowns, when they are due.
    pub open spec fn counted_down(self, now: Time, waiting: Seq<Seq<char>>) -> (
        Quotas,
        Seq<BudgetEventView>,
    ) {
        let (due, last_status) = if !self.coordinated || waiting.len() > 0 {
            self.status_due(now)
        } else {
            (false, self.last_status)
        };
        let statuses = if !self.coordinated && due {
            self.pausing.map_values(
                |uuid: Seq<char>|
                    BudgetEventView::Status { uuid, remaining: self.remaining(uuid) },
            )
        } else {
            Seq::empty()
        };
        let countdowns = if due {
            waiting.map_values(
                |uuid: Seq<char>|
                    BudgetEventView::AbsentStatus { uuid, remaining: self.remaining(uuid) },
            )
        } else {
            Seq::empty()
        };
        (Quotas { last_status, ..self }, statuses + countdowns)
    }

    /// One pass: everything after it, and what is to be told, in order.
    pub open spec fn checked(self, now: Time, players: usize, absent: Seq<Seq<char>>) -> (
        Quotas,
        Seq<BudgetEventView>,
    ) {
        let (drained, first) = self.drained(now, players);
        let w = waited_for(drained.left, absent, self.budget, self.elapsed(now));
        let waited = Quotas { left: w.left, held: w.waiting.len() > 0, ..drained };
        let (after, last) = waited.counted_down(now, w.waiting);
        (after, first + w.events + self.hold_turned(w.waiting) + last)
    }

    pub open spec fn wf(self) -> bool {
        &&& -LARGEST <= self.budget <= LARGEST
        &&& -LARGEST <= self.min_charge <= LARGEST
        &&& rows_wf(self.left)
    }
}

/// Quotas that were not made up.
pub open spec fn rows_wf(left: Seq<(Seq<char>, i128)>) -> bool {
    forall|i: int| 0 <= i < left.len() ==> -LARGEST <= (#[trigger] left[i]).1 <= LARGEST
}

proof fn lemma_rows_wf(left: Seq<(Seq<char>, i128)>, uuid: Seq<char>, value: i128)
    requires
        rows_wf(left),
        -LARGEST <= value <= LARGEST,
    ensures
        rows_wf(table::with_row(left, uuid, value)),
{
    table::lemma_index_of(left, uuid);
}

proof fn lemma_left_wf(left: Seq<(Seq<char>, i128)>, uuid: Seq<char>, budget: i128)
    requires
        rows_wf(left),
        -LARGEST <= budget <= LARGEST,
    ensures
        -LARGEST <= left_for(left, uuid, budget) <= LARGEST,
{
    table::lemma_index_of(left, uuid);
}

/// Whether an identity is among these.
pub fn holds(who: &Vec<Guid>, uuid: &Guid) -> (r: bool)
    ensures
        r == items::views(who@).contains(uuid@),
{
    let ghost all = items::views(who@);
    let mut i: usize = 0;
    while i < who.len()
        invariant
            all == items::views(who@),
            i <= who@.len(),
            forall|j: int| 0 <= j < i ==> all[j] != uuid@,
        decreases who@.len() - i,
    {
        assert(all[i as int] == who@[i as int]@);
        if who[i].same(uuid) {
            return true;
        }
        i += 1;
    }
    false
}

/// These identities without one.
pub fn all_but(who: &Vec<Guid>, uuid: &Guid) -> (r: Vec<Guid>)
    ensures
        items::views(r@) == items::views(who@).filter(other_than(uuid@)),
{
    let ghost all = items::views(who@);
    let ghost other = other_than(uuid@);
    let mut out: Vec<Guid> = Vec::new();
    let mut i: usize = 0;
    proof {
        reveal(Seq::filter);
        assert(all.take(0).filter(other) =~= Seq::empty());
        assert(items::views(out@) =~= Seq::empty());
    }
    while i < who.len()
        invariant
            all == items::views(who@),
            other == other_than(uuid@),
            i <= who@.len(),
            items::views(out@) == all.take(i as int).filter(other),
        decreases who@.len() - i,
    {
        let ghost before = items::views(out@);
        proof {
            reveal(Seq::filter);
            assert(all.take(i + 1).drop_last() =~= all.take(i as int));
            assert(all.take(i + 1).last() == who@[i as int]@);
        }
        if !who[i].same(uuid) {
            out.push(who[i].clone());
            assert(items::views(out@) =~= before.push(who@[i as int]@));
        }
        i += 1;
    }
    assert(all.take(i as int) =~= all);
    out
}

fn less(left: i128, span: i128) -> (r: i128)
    requires
        -LARGEST <= left <= LARGEST,
        0 <= span <= 2 * clock::FAR,
    ensures
        r == charged(left, span as int),
        -LARGEST <= r <= LARGEST,
{
    if left - span > 0 {
        left - span
    } else {
        0
    }
}

/// Adds to what is to be told.
fn tell(events: &mut Vec<BudgetEvent>, event: BudgetEvent)
    ensures
        items::views(final(events)@) == items::views(old(events)@).push(event@),
{
    let ghost e = event@;
    events.push(event);
    assert(items::views(events@) =~= items::views(old(events)@).push(e));
}

impl PauseBudget {
    pub open spec fn wf(self) -> bool {
        self@.wf()
    }

    pub fn new(budget: i64, min_charge: i64) -> (r: Self)
        ensures
            r@ == Quotas::new(budget, min_charge),
            r.wf(),
    {
        let r = PauseBudget {
            pausing: Vec::new(),
            left: Table::new(),
            budget: clock::millis(budget),
            min_charge: clock::millis(min_charge),
            paused_at: Table::new(),
            last_check: None,
            last_status: None,
            coordinated: false,
            held: false,
        };
        assert(items::views(r.pausing@) =~= Seq::empty());
        r
    }

    fn charge_shortfall(&mut self, uuid: &Guid)
        requires
            old(self).wf(),
        ensures
            final(self)@ == old(self)@.shortfall_charged(uuid@),
            final(self).wf(),
    {
        let started = self.paused_at.take(uuid);
        let (start, now) = match (started, self.last_check) {
            (Some(start), Some(now)) => (start, now),
            _ => return ,
        };
        let passed: i128 = now.since(start);
        let held: i128 = if passed > 0 {
            passed
        } else {
            0
        };
        let shortfall: i128 = self.min_charge - held;
        if shortfall > 0 {
            let had: i128 = self.remaining(uuid);
            let has: i128 = less(had, shortfall);
            proof {
                lemma_rows_wf(self.left@, uuid@, has);
            }
            self.left.put(uuid.clone(), has);
        }
    }

    /// Whether the set of the pausing changed, which is what decides whether
    /// the message is worth relaying.
    pub fn set_pausing(&mut self, uuid: &Guid, pausing: bool) -> (r: bool)
        requires
            old(self).wf(),
        ensures
            r == (old(self)@.pausing.contains(uuid@) != pausing),
            final(self)@ == if pausing {
                old(self)@.paused(uuid@)
            } else {
                old(self)@.resumed(uuid@)
            },
            final(self).wf(),
    {
        let already = holds(&self.pausing, uuid);
        if pausing {
            if !already {
                self.pausing.push(uuid.clone());
                assert(items::views(self.pausing@) =~= old(self)@.pausing.push(uuid@));
                if let Some(now) = self.last_check {
                    self.paused_at.put(uuid.clone(), now);
                }
            }
            !already
        } else {
            self.clear_pausing(uuid);
            already
        }
    }

    /// A player who leaves is charged as for lifting the pause, or leaving
    /// would be the free way to toggle. What they have left stays behind,
    /// because the same player may come back.
    pub fn clear_pausing(&mut self, uuid: &Guid)
        requires
            old(self).wf(),
        ensures
            final(self)@ == old(self)@.resumed(uuid@),
            final(self).wf(),
    {
        if holds(&self.pausing, uuid) {
            self.pausing = all_but(&self.pausing, uuid);
            self.charge_shortfall(uuid);
        }
    }

    pub fn auto_paused(&self) -> (r: bool)
        ensures
            r == self@.held,
    {
        self.held
    }

    /// Everyone pausing, in the order in which they paused.
    pub fn pausing(&self) -> (r: Vec<Guid>)
        ensures
            items::views(r@) == self@.pausing,
    {
        items::copy_items(&self.pausing)
    }

    /// What a player has left, in nanoseconds.
    pub fn remaining(&self, uuid: &Guid) -> (r: i128)
        requires
            self.wf(),
        ensures
            r == self@.remaining(uuid@),
            -LARGEST <= r <= LARGEST,
    {
        proof {
            lemma_left_wf(self.left@, uuid@, self.budget);
        }
        match self.left.get(uuid) {
            Some(x) => *x,
            None => self.budget,
        }
    }

    /// A returning client has a fresh identity, so without this a player would
    /// come back to a full quota.
    pub fn inherit(&mut self, old_uuid: &Guid, new_uuid: &Guid)
        requires
            old(self).wf(),
        ensures
            final(self)@ == old(self)@.inherited(old_uuid@, new_uuid@),
            final(self).wf(),
    {
        let ghost before = self.left@;
        proof {
            table::lemma_index_of(before, old_uuid@);
        }
        if let Some(x) = self.left.take(old_uuid) {
            proof {
                assert(rows_wf(self.left@)) by {
                    assert forall|i: int| 0 <= i < self.left@.len() implies -LARGEST <= (
                    #[trigger] self.left@[i]).1 <= LARGEST by {
                        let k = table::index_of(before, old_uuid@)->0;
                        if i < k {
                            assert(self.left@[i] == before[i]);
                        } else {
                            assert(self.left@[i] == before[i + 1]);
                        }
                    }
                }
                lemma_rows_wf(self.left@, new_uuid@, x);
            }
            self.left.put(new_uuid.clone(), x);
        }
    }

    fn drain(&mut self, span: i128)
        requires
            old(self).wf(),
            0 <= span <= 2 * clock::FAR,
        ensures
            final(self)@ == (Quotas {
                left: all_charged(
                    old(self)@.left,
                    old(self)@.pausing,
                    old(self)@.budget,
                    span as int,
                ),
                ..old(self)@
            }),
            final(self).wf(),
    {
        let ghost who = self@.pausing;
        let ghost left = self@.left;
        let ghost budget = self.budget;
        let mut i: usize = 0;
        assert(who.take(0) =~= Seq::empty());
        while i < self.pausing.len()
            invariant
                who == old(self)@.pausing,
                left == old(self)@.left,
                budget == old(self).budget,
                0 <= span <= 2 * clock::FAR,
                i <= self.pausing@.len(),
                self.wf(),
                self@ == (Quotas {
                    left: all_charged(left, who.take(i as int), budget, span as int),
                    ..old(self)@
                }),
            decreases self.pausing@.len() - i,
        {
            let uuid = self.pausing[i].clone();
            proof {
                assert(who[i as int] == self.pausing@[i as int]@);
                assert(who.take(i + 1).drop_last() =~= who.take(i as int));
                assert(who.take(i + 1).last() == uuid@);
            }
            let had: i128 = self.remaining(&uuid);
            let has: i128 = less(had, span);
            proof {
                lemma_rows_wf(self.left@, uuid@, has);
            }
            self.left.put(uuid, has);
            i += 1;
        }
        assert(who.take(i as int) =~= who);
    }

    /// Lifts the pauses of those with nothing left.
    fn expire(&mut self, events: &mut Vec<BudgetEvent>)
        requires
            old(self).wf(),
        ensures
            ({
                let q = old(self)@;
                let out = used_up(q.pausing, q.left, q.budget);
                &&& final(self)@ == (Quotas {
                    pausing: not_used_up(q.pausing, q.left, q.budget),
                    paused_at: all_dropped(q.paused_at, out),
                    ..q
                })
                &&& items::views(final(events)@) == items::views(old(events)@) + out.map_values(
                    |uuid: Seq<char>| BudgetEventView::Expired { uuid },
                )
            }),
            final(self).wf(),
    {
        let ghost q = self@;
        let ghost told = items::views(events@);
        let ghost gone = |u: Seq<char>| left_for(q.left, u, q.budget) <= 0;
        let ghost stays = |u: Seq<char>| left_for(q.left, u, q.budget) > 0;
        let ghost expired = |uuid: Seq<char>| BudgetEventView::Expired { uuid };
        let mut kept: Vec<Guid> = Vec::new();
        let mut i: usize = 0;
        proof {
            reveal(Seq::filter);
            assert(q.pausing.take(0) =~= Seq::empty());
            assert(items::views(kept@) =~= Seq::empty());
            assert(Seq::<Seq<char>>::empty().map_values(expired) =~= Seq::empty());
            assert(told + Seq::<BudgetEventView>::empty() =~= told);
        }
        while i < self.pausing.len()
            invariant
                q == old(self)@,
                self.wf(),
                gone == (|u: Seq<char>| left_for(q.left, u, q.budget) <= 0),
                stays == (|u: Seq<char>| left_for(q.left, u, q.budget) > 0),
                expired == (|uuid: Seq<char>| BudgetEventView::Expired { uuid }),
                i <= self.pausing@.len(),
                items::views(kept@) == q.pausing.take(i as int).filter(stays),
                self@ == (Quotas {
                    paused_at: all_dropped(q.paused_at, q.pausing.take(i as int).filter(gone)),
                    ..q
                }),
                items::views(events@) == told + q.pausing.take(i as int).filter(gone).map_values(
                    expired,
                ),
            decreases self.pausing@.len() - i,
        {
            let uuid = self.pausing[i].clone();
            let ghost before = items::views(kept@);
            let ghost out = q.pausing.take(i as int).filter(gone);
            let ghost out_next = q.pausing.take(i + 1).filter(gone);
            let ghost so_far = items::views(events@);
            proof {
                reveal(Seq::filter);
                assert(q.pausing[i as int] == self.pausing@[i as int]@);
                assert(q.pausing.take(i + 1).drop_last() =~= q.pausing.take(i as int));
                assert(q.pausing.take(i + 1).last() == uuid@);
            }
            let left: i128 = self.remaining(&uuid);
            if left <= 0 {
                proof {
                    assert(out_next == out.push(uuid@));
                    assert(out_next.drop_last() =~= out);
                    assert(out_next.map_values(expired) =~= out.map_values(expired).push(
                        expired(uuid@),
                    ));
                    assert(so_far.push(expired(uuid@)) =~= told + out_next.map_values(expired));
                }
                let _ = self.paused_at.take(&uuid);
                tell(events, BudgetEvent::Expired { uuid });
            } else {
                let ghost u = uuid@;
                kept.push(uuid);
                assert(items::views(kept@) =~= before.push(u));
            }
            i += 1;
        }
        assert(q.pausing.take(i as int) =~= q.pausing);
        self.pausing = kept;
    }

    /// Charges those the match waits for.
    fn wait(&mut self, absent: &Vec<Guid>, span: i128, events: &mut Vec<BudgetEvent>) -> (r: Vec<
        Guid,
    >)
        requires
            old(self).wf(),
            0 <= span <= 2 * clock::FAR,
        ensures
            ({
                let q = old(self)@;
                let w = waited_for(q.left, items::views(absent@), q.budget, span as int);
                &&& final(self)@ == (Quotas { left: w.left, ..q })
                &&& items::views(r@) == w.waiting
                &&& items::views(final(events)@) == items::views(old(events)@) + w.events
            }),
            final(self).wf(),
    {
        let ghost q = self@;
        let ghost who = items::views(absent@);
        let ghost told = items::views(events@);
        let mut waiting: Vec<Guid> = Vec::new();
        let mut i: usize = 0;
        proof {
            assert(who.take(0) =~= Seq::empty());
            assert(items::views(waiting@) =~= Seq::empty());
            assert(told + Seq::<BudgetEventView>::empty() =~= told);
        }
        while i < absent.len()
            invariant
                q == old(self)@,
                who == items::views(absent@),
                told == items::views(old(events)@),
                0 <= span <= 2 * clock::FAR,
                i <= absent@.len(),
                self.wf(),
                self@ == (Quotas {
                    left: waited_for(q.left, who.take(i as int), q.budget, span as int).left,
                    ..q
                }),
                items::views(waiting@) == waited_for(
                    q.left,
                    who.take(i as int),
                    q.budget,
                    span as int,
                ).waiting,
                items::views(events@) == told + waited_for(
                    q.left,
                    who.take(i as int),
                    q.budget,
                    span as int,
                ).events,
            decreases absent@.len() - i,
        {
            let uuid = absent[i].clone();
            let ghost before = waited_for(q.left, who.take(i as int), q.budget, span as int);
            proof {
                assert(who[i as int] == absent@[i as int]@);
                assert(who.take(i + 1).drop_last() =~= who.take(i as int));
                assert(who.take(i + 1).last() == uuid@);
            }
            let had: i128 = self.remaining(&uuid);
            i += 1;
            if had <= 0 {
                proof {
                    lemma_rows_wf(self.left@, uuid@, had);
                }
                self.left.put(uuid, had);
                continue ;
            }
            let has: i128 = less(had, span);
            proof {
                lemma_rows_wf(self.left@, uuid@, has);
            }
            self.left.put(uuid.clone(), has);
            let ghost u = uuid@;
            if has <= 0 {
                tell(events, BudgetEvent::AbsentExpired { uuid });
                assert(items::views(events@) =~= told + before.events.push(
                    BudgetEventView::AbsentExpired { uuid: u },
                ));
            } else {
                let ghost w = items::views(waiting@);
                waiting.push(uuid);
                assert(items::views(waiting@) =~= w.push(u));
            }
        }
        assert(who.take(i as int) =~= who);
        waiting
    }

    /// Charges those pausing, and lifts the pauses of those with nothing left.
    fn settle(&mut self, now: Time, players: usize, span: i128, events: &mut Vec<BudgetEvent>)
        requires
            old(self).wf(),
            span == old(self)@.elapsed(now),
            0 <= span <= 2 * clock::FAR,
        ensures
            final(self)@ == old(self)@.drained(now, players).0,
            items::views(final(events)@) == items::views(old(events)@) + old(self)@.drained(
                now,
                players,
            ).1,
            final(self).wf(),
    {
        let ghost q = self@;
        let ghost told = items::views(events@);
        self.last_check = Some(now);
        let coordinated = players >= 2 && self.pausing.len() == players;
        if coordinated != self.coordinated {
            self.coordinated = coordinated;
            if coordinated {
                tell(events, BudgetEvent::CoordinatedStarted);
            } else {
                tell(events, BudgetEvent::CoordinatedEnded);
            }
        }
        assert(items::views(events@) =~= told + q.turned(players));
        if !coordinated {
            self.drain(span);
        }
        self.expire(events);
        assert(items::views(events@) =~= told + q.drained(now, players).1);
    }

    fn status_due(&mut self, now: Time) -> (r: bool)
        ensures
            ({
                let (due, last) = old(self)@.status_due(now);
                &&& r == due
                &&& final(self)@ == (Quotas { last_status: last, ..old(self)@ })
            }),
    {
        match self.last_status {
            Some(last) => {
                let since: i128 = now.since(last);
                if since >= clock::millis(STATUS_INTERVAL) || since < 0 {
                    self.last_status = Some(now);
                    true
                } else {
                    false
                }
            },
            None => {
                self.last_status = Some(now);
                false
            },
        }
    }

    fn tell_pausing(&self, events: &mut Vec<BudgetEvent>)
        requires
            self.wf(),
        ensures
            items::views(final(events)@) == items::views(old(events)@) + self@.pausing.map_values(
                |uuid: Seq<char>|
                    BudgetEventView::Status { uuid, remaining: self@.remaining(uuid) },
            ),
    {
        let ghost q = self@;
        let ghost told = items::views(events@);
        let ghost line = |uuid: Seq<char>|
            BudgetEventView::Status { uuid, remaining: self@.remaining(uuid) };
        let mut i: usize = 0;
        assert(told =~= told + q.pausing.take(0).map_values(line));
        while i < self.pausing.len()
            invariant
                self.wf(),
                q == self@,
                line == (|uuid: Seq<char>|
                    BudgetEventView::Status { uuid, remaining: self@.remaining(uuid) }),
                i <= self.pausing@.len(),
                items::views(events@) == told + q.pausing.take(i as int).map_values(line),
            decreases self.pausing@.len() - i,
        {
            let uuid = self.pausing[i].clone();
            assert(q.pausing[i as int] == uuid@);
            let remaining: i128 = self.remaining(&uuid);
            let ghost u = uuid@;
            let ghost so_far = items::views(events@);
            tell(events, BudgetEvent::Status { uuid, remaining });
            assert(so_far.push(line(u)) =~= told + q.pausing.take(i + 1).map_values(line));
            i += 1;
        }
        assert(q.pausing.take(i as int) =~= q.pausing);
    }

    fn tell_waiting(&self, waiting: &Vec<Guid>, events: &mut Vec<BudgetEvent>)
        requires
            self.wf(),
        ensures
            items::views(final(events)@) == items::views(old(events)@) + items::views(
                waiting@,
            ).map_values(
                |uuid: Seq<char>|
                    BudgetEventView::AbsentStatus { uuid, remaining: self@.remaining(uuid) },
            ),
    {
        let ghost who = items::views(waiting@);
        let ghost told = items::views(events@);
        let ghost line = |uuid: Seq<char>|
            BudgetEventView::AbsentStatus { uuid, remaining: self@.remaining(uuid) };
        let mut i: usize = 0;
        assert(told =~= told + who.take(0).map_values(line));
        while i < waiting.len()
            invariant
                self.wf(),
                who == items::views(waiting@),
                line == (|uuid: Seq<char>|
                    BudgetEventView::AbsentStatus { uuid, remaining: self@.remaining(uuid) }),
                i <= waiting@.len(),
                items::views(events@) == told + who.take(i as int).map_values(line),
            decreases waiting@.len() - i,
        {
            let uuid = waiting[i].clone();
            assert(who[i as int] == uuid@);
            let remaining: i128 = self.remaining(&uuid);
            let ghost u = uuid@;
            let ghost so_far = items::views(events@);
            tell(events, BudgetEvent::AbsentStatus { uuid, remaining });
            assert(so_far.push(line(u)) =~= told + who.take(i + 1).map_values(line));
            i += 1;
        }
        assert(who.take(i as int) =~= who);
    }

    fn count_down(&mut self, now: Time, waiting: &Vec<Guid>, events: &mut Vec<BudgetEvent>)
        requires
            old(self).wf(),
        ensures
            final(self)@ == old(self)@.counted_down(now, items::views(waiting@)).0,
            items::views(final(events)@) == items::views(old(events)@) + old(self)@.counted_down(
                now,
                items::views(waiting@),
            ).1,
            final(self).wf(),
    {
        let ghost q = self@;
        let ghost told = items::views(events@);
        let due = (!self.coordinated || waiting.len() > 0) && self.status_due(now);
        assert(forall|u: Seq<char>| #[trigger] self@.remaining(u) == q.remaining(u));
        if !self.coordinated && due {
            self.tell_pausing(events);
        }
        if due {
            self.tell_waiting(waiting, events);
        }
        assert(items::views(events@) =~= told + q.counted_down(now, items::views(waiting@)).1);
    }

    /// One pass over everyone pausing and everyone away. `players` is how many
    /// players are connected, and `absent` those the match should wait for.
    pub fn check(&mut self, now: Time, players: usize, absent: &Vec<Guid>) -> (r: Vec<BudgetEvent>)
        requires
            old(self).wf(),
        ensures
            (final(self)@, items::views(r@)) == old(self)@.checked(
                now,
                players,
                items::views(absent@),
            ),
            final(self).wf(),
    {
        let ghost q = self@;
        let mut events: Vec<BudgetEvent> = Vec::new();
        assert(items::views(events@) =~= Seq::empty());
        let span: i128 = match self.last_check {
            Some(last) => {
                let passed: i128 = now.since(last);
                if passed > 0 {
                    passed
                } else {
                    0
                }
            },
            None => 0,
        };
        self.settle(now, players, span, &mut events);
        let ghost first = items::views(events@);
        assert(first =~= q.drained(now, players).1);
        let waiting = self.wait(absent, span, &mut events);
        let ghost second = items::views(events@);
        if waiting.len() > 0 && !self.held {
            self.held = true;
            let uuids = items::copy_items(&waiting);
            tell(&mut events, BudgetEvent::AutoPauseStarted { uuids });
        } else if waiting.len() == 0 && self.held {
            self.held = false;
            tell(&mut events, BudgetEvent::AutoPauseEnded);
        }
        assert(items::views(events@) =~= second + q.hold_turned(items::views(waiting@)));
        self.count_down(now, &waiting, &mut events);
        events
    }
}

/// Nobody has less than nothing left.
pub open spec fn never_negative(left: Seq<(Seq<char>, i128)>, budget: i128) -> bool {
    &&& budget >= 0
    &&& forall|i: int| 0 <= i < left.len() ==> (#[trigger] left[i]).1 >= 0
}

proof fn lemma_charge_one(
    left: Seq<(Seq<char>, i128)>,
    uuid: Seq<char>,
    value: i128,
    other: Seq<char>,
    budget: i128,
)
    requires
        never_negative(left, budget),
        0 <= value <= left_for(left, uuid, budget),
    ensures
        never_negative(table::with_row(left, uuid, value), budget),
        0 <= left_for(table::with_row(left, uuid, value), other, budget) <= left_for(
            left,
            other,
            budget,
        ),
        other != uuid ==> left_for(table::with_row(left, uuid, value), other, budget)
            == left_for(left, other, budget),
{
    table::lemma_index_of(left, uuid);
    table::lemma_index_of(left, other);
    table::lemma_with_row_lookup(left, uuid, value, other);
    table::lemma_index_of(table::with_row(left, uuid, value), other);
}

proof fn lemma_all_charged(
    left: Seq<(Seq<char>, i128)>,
    who: Seq<Seq<char>>,
    budget: i128,
    span: int,
    other: Seq<char>,
)
    requires
        never_negative(left, budget),
        span >= 0,
    ensures
        never_negative(all_charged(left, who, budget, span), budget),
        0 <= left_for(all_charged(left, who, budget, span), other, budget) <= left_for(
            left,
            other,
            budget,
        ),
    decreases who.len(),
{
    table::lemma_index_of(left, other);
    if who.len() > 0 {
        let before = all_charged(left, who.drop_last(), budget, span);
        lemma_all_charged(left, who.drop_last(), budget, span, other);
        lemma_all_charged(left, who.drop_last(), budget, span, who.last());
        lemma_charge_one(
            before,
            who.last(),
            charged(left_for(before, who.last(), budget), span),
            other,
            budget,
        );
    }
}

proof fn lemma_waited_for(
    left: Seq<(Seq<char>, i128)>,
    absent: Seq<Seq<char>>,
    budget: i128,
    span: int,
    other: Seq<char>,
)
    requires
        never_negative(left, budget),
        span >= 0,
    ensures
        ({
            let w = waited_for(left, absent, budget, span);
            &&& never_negative(w.left, budget)
            &&& 0 <= left_for(w.left, other, budget) <= left_for(left, other, budget)
            &&& !absent.contains(other) ==> left_for(w.left, other, budget) == left_for(
                left,
                other,
                budget,
            )
            &&& w.waiting.contains(other) ==> absent.contains(other)
        }),
    decreases absent.len(),
{
    table::lemma_index_of(left, other);
    if absent.len() > 0 {
        let rest = absent.drop_last();
        let w = waited_for(left, rest, budget, span);
        let uuid = absent.last();
        lemma_waited_for(left, rest, budget, span, other);
        lemma_waited_for(left, rest, budget, span, uuid);
        let had = left_for(w.left, uuid, budget);
        let has = charged(had, span);
        lemma_charge_one(w.left, uuid, had, other, budget);
        lemma_charge_one(w.left, uuid, has, other, budget);
        assert(absent[absent.len() - 1] == uuid);
        if rest.contains(other) {
            let k = choose|k: int| 0 <= k < rest.len() && rest[k] == other;
            assert(absent[k] == other);
        }
        let pushed = w.waiting.push(uuid);
        if pushed.contains(other) {
            let k = choose|k: int| 0 <= k < pushed.len() && pushed[k] == other;
            if k < w.waiting.len() {
                assert(w.waiting[k] == other);
            }
        }
    }
}

proof fn lemma_charged_once(
    left: Seq<(Seq<char>, i128)>,
    who: Seq<Seq<char>>,
    budget: i128,
    span: int,
    uuid: Seq<char>,
)
    requires
        who.no_duplicates(),
    ensures
        left_for(all_charged(left, who, budget, span), uuid, budget) == if who.contains(uuid) {
            charged(left_for(left, uuid, budget), span)
        } else {
            left_for(left, uuid, budget)
        },
    decreases who.len(),
{
    if who.len() > 0 {
        let rest = who.drop_last();
        let last = who.last();
        let before = all_charged(left, rest, budget, span);
        lemma_charged_once(left, rest, budget, span, uuid);
        table::lemma_with_row_lookup(
            before,
            last,
            charged(left_for(before, last, budget), span),
            uuid,
        );
        lemma_last_once(who, uuid);
    }
}

proof fn lemma_waited_once(
    left: Seq<(Seq<char>, i128)>,
    absent: Seq<Seq<char>>,
    budget: i128,
    span: int,
    uuid: Seq<char>,
)
    requires
        never_negative(left, budget),
        span >= 0,
        absent.no_duplicates(),
    ensures
        left_for(waited_for(left, absent, budget, span).left, uuid, budget)
            == if absent.contains(uuid) {
            charged(left_for(left, uuid, budget), span)
        } else {
            left_for(left, uuid, budget)
        },
    decreases absent.len(),
{
    if absent.len() > 0 {
        let rest = absent.drop_last();
        let last = absent.last();
        let w = waited_for(left, rest, budget, span);
        lemma_waited_once(left, rest, budget, span, uuid);
        lemma_waited_for(left, rest, budget, span, last);
        let had = left_for(w.left, last, budget);
        table::lemma_with_row_lookup(w.left, last, had, uuid);
        table::lemma_with_row_lookup(w.left, last, charged(had, span), uuid);
        lemma_last_once(absent, uuid);
    }
}

proof fn lemma_last_once(s: Seq<Seq<char>>, x: Seq<char>)
    requires
        s.len() > 0,
        s.no_duplicates(),
    ensures
        s.contains(x) == (s.last() == x || s.drop_last().contains(x)),
        s.last() == x ==> !s.drop_last().contains(x),
        s.drop_last().no_duplicates(),
{
    let rest = s.drop_last();
    assert(s[s.len() - 1] == s.last());
    if rest.contains(x) {
        let k = choose|k: int| 0 <= k < rest.len() && rest[k] == x;
        assert(s[k] == x);
    }
    if s.contains(x) {
        let k = choose|k: int| 0 <= k < s.len() && s[k] == x;
        if k < rest.len() {
            assert(rest[k] == x);
        }
    }
}

proof fn lemma_kept(s: Seq<Seq<char>>, pick: spec_fn(Seq<char>) -> bool, x: Seq<char>)
    ensures
        s.filter(pick).contains(x) == (s.contains(x) && pick(x)),
        s.no_duplicates() ==> s.filter(pick).no_duplicates(),
    decreases s.len(),
{
    reveal(Seq::filter);
    if s.len() > 0 {
        let rest = s.drop_last();
        let last = s.last();
        lemma_kept(rest, pick, x);
        lemma_kept(rest, pick, last);
        let before = rest.filter(pick);
        assert(s =~= rest.push(last));
        assert(s.contains(x) == (rest.contains(x) || last == x)) by {
            lemma_pushed(rest, last, x);
        }
        lemma_pushed(before, last, x);
        if s.no_duplicates() {
            lemma_last_once(s, last);
            let all = before.push(last);
            assert forall|i: int, j: int|
                0 <= i < all.len() && 0 <= j < all.len() && i != j && pick(
                    last,
                ) implies all[i] != all[j] by {
                assert(!before.contains(last));
                if i < before.len() {
                    assert(before[i] == all[i]);
                }
                if j < before.len() {
                    assert(before[j] == all[j]);
                }
            }
        }
    }
}

proof fn lemma_pushed<A>(s: Seq<A>, last: A, x: A)
    ensures
        s.push(last).contains(x) == (s.contains(x) || last == x),
{
    let all = s.push(last);
    if s.contains(x) {
        let k = choose|k: int| 0 <= k < s.len() && s[k] == x;
        assert(all[k] == x);
    }
    assert(all[s.len() as int] == last);
    if all.contains(x) {
        let k = choose|k: int| 0 <= k < all.len() && all[k] == x;
        if k < s.len() {
            assert(s[k] == x);
        }
    }
}

proof fn lemma_waiting(
    left: Seq<(Seq<char>, i128)>,
    absent: Seq<Seq<char>>,
    budget: i128,
    span: int,
    uuid: Seq<char>,
)
    requires
        never_negative(left, budget),
        span >= 0,
        absent.no_duplicates(),
    ensures
        ({
            let w = waited_for(left, absent, budget, span);
            &&& w.waiting.contains(uuid) == (absent.contains(uuid) && left_for(
                w.left,
                uuid,
                budget,
            ) > 0)
            &&& forall|i: int|
                0 <= i < w.events.len() ==> (#[trigger] w.events[i]) is AbsentExpired
        }),
    decreases absent.len(),
{
    if absent.len() > 0 {
        let rest = absent.drop_last();
        let last = absent.last();
        let w = waited_for(left, rest, budget, span);
        lemma_last_once(absent, uuid);
        lemma_waiting(left, rest, budget, span, uuid);
        lemma_waited_for(left, rest, budget, span, last);
        let had = left_for(w.left, last, budget);
        table::lemma_with_row_lookup(w.left, last, had, uuid);
        table::lemma_with_row_lookup(w.left, last, charged(had, span), uuid);
        lemma_pushed(w.waiting, last, uuid);
    }
}

impl Quotas {
    /// Who pauses once someone no longer does: everyone else who did.
    pub proof fn lemma_resumed(self, uuid: Seq<char>)
        ensures
            !self.resumed(uuid).pausing.contains(uuid),
            forall|u: Seq<char>|
                u != uuid && #[trigger] self.pausing.contains(u) ==> self.resumed(
                    uuid,
                ).pausing.contains(u),
    {
        lemma_kept(self.pausing, other_than(uuid), uuid);
        assert forall|u: Seq<char>|
            u != uuid && #[trigger] self.pausing.contains(u) implies self.resumed(
            uuid,
        ).pausing.contains(u) by {
            lemma_kept(self.pausing, other_than(uuid), u);
        }
    }

    /// Whoever pauses is among those who do.
    pub proof fn lemma_paused(self, uuid: Seq<char>)
        ensures
            self.paused(uuid).pausing.contains(uuid),
    {
        if !self.pausing.contains(uuid) {
            assert(self.pausing.push(uuid)[self.pausing.len() as int] == uuid);
        }
    }

    /// Nobody has less than nothing left, and nobody pauses twice over.
    pub open spec fn sound(self) -> bool {
        &&& never_negative(self.left, self.budget)
        &&& self.pausing.no_duplicates()
    }

    /// From the first pass on, whatever is done, nobody has less than nothing
    /// left and nobody pauses twice over.
    pub proof fn quotas_stay_sound(
        self,
        budget: i64,
        min_charge: i64,
        uuid: Seq<char>,
        new_uuid: Seq<char>,
        now: Time,
        players: usize,
        absent: Seq<Seq<char>>,
    )
        requires
            self.sound(),
        ensures
            budget >= 0 ==> Quotas::new(budget, min_charge).sound(),
            self.paused(uuid).sound(),
            self.resumed(uuid).sound(),
            self.inherited(uuid, new_uuid).sound(),
            self.checked(now, players, absent).0.sound(),
    {
        if !self.pausing.contains(uuid) {
            let all = self.pausing.push(uuid);
            assert forall|i: int, j: int|
                0 <= i < all.len() && 0 <= j < all.len() && i != j implies all[i] != all[j] by {
                if i < self.pausing.len() {
                    assert(self.pausing[i] == all[i]);
                }
                if j < self.pausing.len() {
                    assert(self.pausing[j] == all[j]);
                }
            }
        }
        lemma_kept(self.pausing, other_than(uuid), uuid);
        if let (Some(start), Some(last)) = (
            table::lookup(self.paused_at, uuid),
            self.last_check,
        ) {
            let passed = last.instant() - start.instant();
            let held = if passed > 0 {
                passed
            } else {
                0
            };
            if self.min_charge - held > 0 {
                table::lemma_index_of(self.left, uuid);
                lemma_charge_one(
                    self.left,
                    uuid,
                    charged(self.remaining(uuid), self.min_charge - held),
                    uuid,
                    self.budget,
                );
            }
        }
        if let Some(x) = table::lookup(self.left, uuid) {
            table::lemma_index_of(self.left, uuid);
            let k = table::index_of(self.left, uuid)->0;
            assert(x == self.left[k].1);
            let others = self.left.remove(k);
            assert forall|i: int| 0 <= i < others.len() implies (#[trigger] others[i]).1 >= 0 by {
                if i < k {
                    assert(others[i] == self.left[i]);
                } else {
                    assert(others[i] == self.left[i + 1]);
                }
            }
            table::lemma_index_of(others, new_uuid);
        }
        self.quotas_only_shrink(now, players, absent, uuid);
        let left = self.drained(now, players).0.left;
        lemma_kept(
            self.pausing,
            |u: Seq<char>| left_for(left, u, self.budget) > 0,
            uuid,
        );
    }

    /// Who is charged by a pass, who no longer pauses after it, and when the
    /// match is held. Nobody gains; those who neither pause nor are waited for
    /// are not charged, and nobody is where no time has passed, on the first
    /// pass, or, of those present, where everyone pauses. A player is told to
    /// have run out exactly where the pass lifted their pause. The match is held
    /// exactly while someone it waits for has something left.
    pub proof fn passes_charge_fairly(
        self,
        now: Time,
        players: usize,
        absent: Seq<Seq<char>>,
        uuid: Seq<char>,
    )
        requires
            self.sound(),
            absent.no_duplicates(),
        ensures
            ({
                let (after, told) = self.checked(now, players, absent);
                &&& 0 <= after.remaining(uuid) <= self.remaining(uuid)
                &&& (!self.pausing.contains(uuid) && !absent.contains(uuid)) || (
                self.is_coordinated(players) && !absent.contains(uuid)) || (match self.last_check {
                    Some(last) => now.instant() <= last.instant(),
                    None => true,
                }) ==> after.remaining(uuid) == self.remaining(uuid)
                &&& told.contains(BudgetEventView::Expired { uuid }) <==> self.pausing.contains(
                    uuid,
                ) && !after.pausing.contains(uuid)
                &&& after.held <==> exists|g: Seq<char>|
                    absent.contains(g) && #[trigger] after.remaining(g) > 0
            }),
    {
        self.quotas_only_shrink(now, players, absent, uuid);
        let span = self.elapsed(now);
        let (drained, first) = self.drained(now, players);
        let left = drained.left;
        lemma_all_charged(self.left, self.pausing, self.budget, span, uuid);
        lemma_charged_once(self.left, self.pausing, self.budget, span, uuid);
        lemma_waited_once(left, absent, self.budget, span, uuid);
        let w = waited_for(left, absent, self.budget, span);
        let (after, told) = self.checked(now, players, absent);
        let gone = |u: Seq<char>| left_for(left, u, self.budget) <= 0;
        lemma_kept(self.pausing, gone, uuid);
        lemma_kept(
            self.pausing,
            |u: Seq<char>| left_for(left, u, self.budget) > 0,
            uuid,
        );
        let out = used_up(self.pausing, left, self.budget);
        let lines = out.map_values(|u: Seq<char>| BudgetEventView::Expired { uuid: u });
        let e = BudgetEventView::Expired { uuid };
        let start = self.turned(players);
        assert(first == start + lines);
        lemma_waiting(left, absent, self.budget, span, uuid);
        let waited = Quotas { left: w.left, held: w.waiting.len() > 0, ..drained };
        let last = waited.counted_down(now, w.waiting).1;
        let rest = w.events + self.hold_turned(w.waiting) + last;
        assert(told =~= start + lines + rest);
        assert forall|i: int| 0 <= i < rest.len() implies !((#[trigger] rest[i]) is Expired) by {
            let n = w.events.len();
            let m = n + self.hold_turned(w.waiting).len();
            if i < n {
                assert(rest[i] == w.events[i]);
            } else if i < m {
                assert(rest[i] == self.hold_turned(w.waiting)[i - n]);
            } else {
                assert(rest[i] == last[i - m]);
            }
        }
        if out.contains(uuid) {
            let k = choose|k: int| 0 <= k < out.len() && out[k] == uuid;
            assert(lines[k] == e);
            assert(told[start.len() + k] == e);
        }
        if told.contains(e) {
            let k = choose|k: int| 0 <= k < told.len() && told[k] == e;
            if k < start.len() {
                assert(told[k] == start[k]);
            } else if k < start.len() + lines.len() {
                assert(told[k] == lines[k - start.len()]);
                assert(out[k - start.len()] == uuid);
            } else {
                assert(told[k] == rest[k - start.len() - lines.len()]);
            }
        }
        if w.waiting.len() > 0 {
            let g = w.waiting[0];
            lemma_waiting(left, absent, self.budget, span, g);
            assert(w.waiting.contains(g));
            assert(absent.contains(g) && after.remaining(g) > 0);
        }
        if exists|g: Seq<char>| absent.contains(g) && #[trigger] after.remaining(g) > 0 {
            let g = choose|g: Seq<char>| absent.contains(g) && #[trigger] after.remaining(g) > 0;
            lemma_waiting(left, absent, self.budget, span, g);
            assert(w.waiting.contains(g));
        }
    }

    /// Leaving is never the cheaper pause: a player who is waited for is
    /// charged what one who pauses is, the time that has passed.
    pub proof fn being_away_costs_as_much(
        self,
        now: Time,
        players: usize,
        absent: Seq<Seq<char>>,
        uuid: Seq<char>,
    )
        requires
            never_negative(self.left, self.budget),
            self.pausing.no_duplicates(),
            absent.no_duplicates(),
        ensures
            self.pausing.contains(uuid) && !self.is_coordinated(players) && !absent.contains(uuid)
                ==> self.checked(now, players, absent).0.remaining(uuid) == charged(
                self.remaining(uuid),
                self.elapsed(now),
            ),
            absent.contains(uuid) && !self.pausing.contains(uuid) ==> self.checked(
                now,
                players,
                absent,
            ).0.remaining(uuid) == charged(self.remaining(uuid), self.elapsed(now)),
    {
        let span = self.elapsed(now);
        let drained = self.drained(now, players).0.left;
        lemma_all_charged(self.left, self.pausing, self.budget, span, uuid);
        lemma_charged_once(self.left, self.pausing, self.budget, span, uuid);
        lemma_waited_once(drained, absent, self.budget, span, uuid);
    }

    /// A pass never adds to what anyone has left, and never takes more than
    /// there was.
    pub proof fn quotas_only_shrink(
        self,
        now: Time,
        players: usize,
        absent: Seq<Seq<char>>,
        uuid: Seq<char>,
    )
        requires
            never_negative(self.left, self.budget),
        ensures
            ({
                let after = self.checked(now, players, absent).0;
                &&& never_negative(after.left, after.budget)
                &&& 0 <= after.remaining(uuid) <= self.remaining(uuid)
            }),
    {
        let span = self.elapsed(now);
        let drained = self.drained(now, players).0.left;
        lemma_all_charged(self.left, self.pausing, self.budget, span, uuid);
        table::lemma_index_of(self.left, uuid);
        lemma_waited_for(drained, absent, self.budget, span, uuid);
    }

    /// While everyone pauses, nobody who is present is charged.
    pub proof fn pausing_together_is_free(
        self,
        now: Time,
        players: usize,
        absent: Seq<Seq<char>>,
        uuid: Seq<char>,
    )
        requires
            never_negative(self.left, self.budget),
            self.is_coordinated(players),
            !absent.contains(uuid),
        ensures
            self.checked(now, players, absent).0.remaining(uuid) == self.remaining(uuid),
    {
        lemma_waited_for(self.left, absent, self.budget, self.elapsed(now), uuid);
    }

    /// A player who pauses and lifts the pause before the next pass pays what
    /// a pause costs at least.
    pub proof fn toggling_costs(self, uuid: Seq<char>)
        requires
            !self.pausing.contains(uuid),
            self.last_check is Some,
            self.min_charge > 0,
        ensures
            self.paused(uuid).resumed(uuid).remaining(uuid) == charged(
                self.remaining(uuid),
                self.min_charge as int,
            ),
            !self.paused(uuid).resumed(uuid).pausing.contains(uuid),
    {
        let p = self.paused(uuid);
        let now = self.last_check->0;
        assert(p.pausing[self.pausing.len() as int] == uuid);
        table::lemma_with_row_lookup(self.paused_at, uuid, now, uuid);
        let has = charged(self.remaining(uuid), self.min_charge as int);
        table::lemma_with_row_lookup(self.left, uuid, has, uuid);
        let others = p.pausing.filter(other_than(uuid));
        if others.contains(uuid) {
            let k = choose|k: int| 0 <= k < others.len() && others[k] == uuid;
            assert(others[k] != uuid);
        }
    }

    /// A returning player has what the player they were had left.
    pub proof fn returning_restores_nothing(self, old_uuid: Seq<char>, new_uuid: Seq<char>)
        requires
            table::has_key(self.left, old_uuid),
        ensures
            self.inherited(old_uuid, new_uuid).remaining(new_uuid) == self.remaining(old_uuid),
    {
        let x = table::lookup(self.left, old_uuid)->0;
        let t = table::without_row(self.left, old_uuid);
        table::lemma_with_row_lookup(t, new_uuid, x, new_uuid);
    }
}

} // verus!
