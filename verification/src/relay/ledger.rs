//! Per-identity allowances that outlive the connection they were spent on,
//! which is what a per-session limit cannot do against someone who simply
//! reconnects. Only identities that spent something recently are held.

use vstd::arithmetic::div_mod::lemma_hoist_over_denominator;
use vstd::prelude::*;

use crate::clock;
use crate::clock::Time;
use crate::table;
use crate::table::Key;
use crate::table::Table;

verus! {

/// What an identity has left, and when it last gained something, in
/// nanoseconds since 1970.
#[derive(Debug, Clone, Copy, PartialEq, Eq, Structural)]
pub struct Bucket {
    pub tokens: u32,
    pub anchor: i128,
}

impl View for Bucket {
    type V = Bucket;

    open spec fn view(&self) -> Bucket {
        *self
    }
}

/// A moment that a clock can show.
pub open spec fn in_reach(at: int) -> bool {
    -clock::FAR <= at <= clock::FAR
}

/// Whole intervals between two moments.
pub open spec fn steps(from: int, to: int, interval: int) -> int {
    (to - from) / 1_000_000 / interval
}

/// A bucket credited with one token for every whole interval, up to the burst.
/// A clock that stepped backwards credits nothing, and the wait begins anew.
pub open spec fn refilled(b: Bucket, burst: u32, interval: i64, now: int) -> Bucket {
    let n = steps(b.anchor as int, now, interval as int);
    if now < b.anchor {
        Bucket { tokens: b.tokens, anchor: now as i128 }
    } else if n == 0 {
        b
    } else if b.tokens + n >= burst {
        Bucket { tokens: burst, anchor: now as i128 }
    } else {
        Bucket {
            tokens: (b.tokens + n) as u32,
            anchor: (b.anchor + n * interval * 1_000_000) as i128,
        }
    }
}

/// The bucket of an identity never seen is full.
pub open spec fn bucket_of<A>(rows: Seq<(A, Bucket)>, key: A, burst: u32, now: int) -> Bucket {
    match table::lookup(rows, key) {
        Some(b) => b,
        None => Bucket { tokens: burst, anchor: now as i128 },
    }
}

/// A bucket after one token was spent. A full one has nothing to refill, so
/// the wait for what is spent here begins now.
pub open spec fn spent(b: Bucket, burst: u32, interval: i64, now: int) -> Bucket {
    let r = refilled(b, burst, interval, now);
    Bucket {
        tokens: if r.tokens == 0 {
            0
        } else {
            (r.tokens - 1) as u32
        },
        anchor: if r.tokens >= burst {
            now as i128
        } else {
            r.anchor
        },
    }
}

/// Whether an identity may spend.
pub open spec fn may_spend<A>(
    rows: Seq<(A, Bucket)>,
    key: A,
    burst: u32,
    interval: Option<i64>,
    now: int,
) -> bool {
    match (interval, table::lookup(rows, key)) {
        (Some(i), Some(b)) => refilled(b, burst, i, now).tokens > 0,
        _ => true,
    }
}

/// The rows once asking has brought the asker's up to date.
pub open spec fn asked<A>(
    rows: Seq<(A, Bucket)>,
    key: A,
    burst: u32,
    interval: Option<i64>,
    now: int,
) -> Seq<(A, Bucket)> {
    match (interval, table::lookup(rows, key)) {
        (Some(i), Some(b)) => table::with_row(rows, key, refilled(b, burst, i, now)),
        _ => rows,
    }
}

/// The rows once an identity has spent.
pub open spec fn after_spend<A>(
    rows: Seq<(A, Bucket)>,
    key: A,
    burst: u32,
    interval: Option<i64>,
    now: int,
) -> Seq<(A, Bucket)> {
    match interval {
        Some(i) => table::with_row(
            rows,
            key,
            spent(bucket_of(rows, key, burst, now), burst, i, now),
        ),
        None => rows,
    }
}

/// The rows that are not full, brought up to date.
pub open spec fn pruned<A>(
    rows: Seq<(A, Bucket)>,
    burst: u32,
    interval: Option<i64>,
    now: int,
) -> Seq<(A, Bucket)>
    decreases rows.len(),
{
    match interval {
        None => rows,
        Some(i) => if rows.len() == 0 {
            rows
        } else {
            let head = pruned(rows.drop_last(), burst, interval, now);
            let b = refilled(rows.last().1, burst, i, now);
            if b.tokens < burst {
                head.push((rows.last().0, b))
            } else {
                head
            }
        },
    }
}

/// Allowances by identity: a burst, and one more for every interval in
/// milliseconds; no interval turns the ledger off.
#[derive(Debug)]
pub struct Ledger<K: Key> {
    pub burst: u32,
    pub interval: Option<i64>,
    pub buckets: Table<K, Bucket>,
}

/// What [`Ledger`] is.
pub struct Allowances<A> {
    pub burst: u32,
    pub interval: Option<i64>,
    pub rows: Seq<(A, Bucket)>,
}

impl<K: Key> View for Ledger<K> {
    type V = Allowances<K::V>;

    open spec fn view(&self) -> Allowances<K::V> {
        Allowances { burst: self.burst, interval: self.interval, rows: self.buckets@ }
    }
}

impl<A> Allowances<A> {
    pub open spec fn new(burst: u32, interval: Option<i64>) -> Allowances<A> {
        Allowances {
            burst,
            interval: match interval {
                Some(i) if i > 0 => Some(i),
                _ => None,
            },
            rows: Seq::empty(),
        }
    }

    pub open spec fn may_spend(self, key: A, now: Time) -> bool {
        may_spend(self.rows, key, self.burst, self.interval, now.instant())
    }

    pub open spec fn asked(self, key: A, now: Time) -> Allowances<A> {
        Allowances {
            rows: asked(self.rows, key, self.burst, self.interval, now.instant()),
            ..self
        }
    }

    pub open spec fn spent(self, key: A, now: Time) -> Allowances<A> {
        Allowances {
            rows: after_spend(self.rows, key, self.burst, self.interval, now.instant()),
            ..self
        }
    }

    pub open spec fn spent_times(self, key: A, now: Time, n: nat) -> Allowances<A>
        decreases n,
    {
        if n == 0 {
            self
        } else {
            self.spent_times(key, now, (n - 1) as nat).spent(key, now)
        }
    }

    pub open spec fn pruned(self, now: Time) -> Allowances<A> {
        Allowances {
            rows: pruned(self.rows, self.burst, self.interval, now.instant()),
            ..self
        }
    }

    /// However large its burst, an identity runs out: once it has spent that
    /// many, or one where the burst is none, it may not spend again until an
    /// interval has passed. Then it may, unless the burst is none.
    pub proof fn spending_runs_out(self, key: A, now: Time, n: nat, later: Time)
        requires
            self.interval matches Some(i) && i > 0,
            table::lookup(self.rows, key) is None,
            n >= 1,
            n >= self.burst,
        ensures
            self.spent_times(key, now, n).may_spend(key, later) <==> self.burst > 0
                && later.instant() - now.instant() >= clock::ms(self.interval->0),
    {
        self.lemma_spent_times(key, now, n);
        later.lemma_in_reach();
        let i = self.interval->0 as int;
        let gone = later.instant() - now.instant();
        if gone >= 0 {
            lemma_steps(now.instant(), later.instant(), i);
            let e = gone / 1_000_000;
            assert(e >= i <==> gone >= i * 1_000_000);
            if e >= i {
                assert(e / i >= 1) by (nonlinear_arith)
                    requires
                        e >= i,
                        i > 0,
                ;
            } else {
                assert(e / i == 0) by (nonlinear_arith)
                    requires
                        0 <= e < i,
                ;
            }
        }
    }

    proof fn lemma_spent_times(self, key: A, now: Time, n: nat)
        requires
            self.interval matches Some(i) && i > 0,
            table::lookup(self.rows, key) is None,
            n >= 1,
        ensures
            self.spent_times(key, now, n).burst == self.burst,
            self.spent_times(key, now, n).interval == self.interval,
            table::lookup(self.spent_times(key, now, n).rows, key) == Some(
                Bucket {
                    tokens: if n >= self.burst {
                        0
                    } else {
                        (self.burst - n) as u32
                    },
                    anchor: now.instant() as i128,
                },
            ),
            in_reach(now.instant()),
        decreases n,
    {
        reveal_with_fuel(Allowances::spent_times, 2);
        now.lemma_in_reach();
        let i = self.interval->0;
        assert(0int / (i as int) == 0) by (nonlinear_arith)
            requires
                i > 0,
        ;
        let before = self.spent_times(key, now, (n - 1) as nat);
        if n > 1 {
            self.lemma_spent_times(key, now, (n - 1) as nat);
        }
        let b = bucket_of(before.rows, key, self.burst, now.instant());
        table::lemma_with_row_lookup(
            before.rows,
            key,
            spent(b, self.burst, i, now.instant()),
            key,
        );
    }
}

/// Rows that a ledger can hold.
pub open spec fn sound<A>(rows: Seq<(A, Bucket)>, burst: u32) -> bool {
    forall|i: int|
        0 <= i < rows.len() ==> in_reach((#[trigger] rows[i]).1.anchor as int) && rows[i].1.tokens
            <= burst
}

proof fn lemma_steps(from: int, to: int, interval: int)
    requires
        from <= to,
        interval > 0,
    ensures
        0 <= steps(from, to, interval) <= (to - from) / 1_000_000,
        0 <= steps(from, to, interval) * interval * 1_000_000 <= to - from,
{
    let e = (to - from) / 1_000_000;
    assert(0 <= e / interval <= e) by (nonlinear_arith)
        requires
            e >= 0,
            interval > 0,
    ;
    assert((e / interval) * interval <= e) by (nonlinear_arith)
        requires
            e >= 0,
            interval > 0,
    ;
    assert((e / interval) * interval >= 0) by (nonlinear_arith)
        requires
            e / interval >= 0,
            interval > 0,
    ;
}

/// Crediting a bucket early and again later gives what crediting it once later
/// gives.
pub proof fn refill_in_two(b: Bucket, burst: u32, interval: i64, now: int, later: int)
    requires
        interval > 0,
        b.tokens <= burst,
        b.anchor <= now <= later,
        in_reach(b.anchor as int),
        in_reach(now),
        in_reach(later),
    ensures
        refilled(refilled(b, burst, interval, now), burst, interval, later).tokens == refilled(
            b,
            burst,
            interval,
            later,
        ).tokens,
{
    let a = b.anchor as int;
    let i = interval as int;
    let n = steps(a, now, i);
    let m = steps(a, later, i);
    lemma_steps(a, now, i);
    lemma_steps(a, later, i);
    let mid = refilled(b, burst, interval, now);
    if n == 0 {
        assert(mid == b);
    } else if b.tokens + n >= burst {
        assert(m >= n) by {
            assert((now - a) / 1_000_000 <= (later - a) / 1_000_000);
            let x = (now - a) / 1_000_000;
            let y = (later - a) / 1_000_000;
            assert(x / i <= y / i) by (nonlinear_arith)
                requires
                    0 <= x <= y,
                    i > 0,
            ;
        }
        assert(mid.tokens == burst);
        lemma_steps(now, later, i);
    } else {
        let anchor = a + n * i * 1_000_000;
        assert(mid.anchor == anchor);
        let e = (later - a) / 1_000_000;
        let f = (later - anchor) / 1_000_000;
        assert(f == e - n * i);
        lemma_hoist_over_denominator(e, -n, i as nat);
        assert(-n * i == -(n * i)) by (nonlinear_arith);
        assert(steps(anchor, later, i) == m - n);
        lemma_steps(anchor, later, i);
    }
}

/// A full bucket stays full.
proof fn lemma_full_stays(b: Bucket, burst: u32, interval: i64, now: int, later: int)
    requires
        interval > 0,
        b.tokens <= burst,
        b.anchor <= now <= later,
        in_reach(b.anchor as int),
        in_reach(now),
        in_reach(later),
        refilled(b, burst, interval, now).tokens >= burst,
    ensures
        refilled(b, burst, interval, later).tokens == burst,
{
    refill_in_two(b, burst, interval, now, later);
    let mid = refilled(b, burst, interval, now);
    lemma_steps(b.anchor as int, now, interval as int);
    lemma_steps(mid.anchor as int, later, interval as int);
}

proof fn lemma_pruned_keys<A>(rows: Seq<(A, Bucket)>, burst: u32, interval: i64, now: int, key: A)
    requires
        table::distinct(rows),
    ensures
        match table::lookup(rows, key) {
            None => table::lookup(pruned(rows, burst, Some(interval), now), key) is None,
            Some(b) => {
                let r = refilled(b, burst, interval, now);
                table::lookup(pruned(rows, burst, Some(interval), now), key) == if r.tokens
                    < burst {
                    Some(r)
                } else {
                    None
                }
            },
        },
    decreases rows.len(),
{
    if rows.len() > 0 {
        let head = rows.drop_last();
        let last = rows.last();
        assert forall|i: int, j: int| 0 <= i < j < head.len() implies #[trigger] head[i].0
            != #[trigger] head[j].0 by {
            assert(head[i] == rows[i] && head[j] == rows[j]);
        }
        lemma_pruned_keys(head, burst, interval, now, key);
        let kept = pruned(head, burst, Some(interval), now);
        table::lemma_index_of(rows, key);
        table::lemma_index_of(head, key);
        table::lemma_index_of(kept, key);
        lemma_pruned_keys(head, burst, interval, now, last.0);
        table::lemma_index_of(head, last.0);
        let all = pruned(rows, burst, Some(interval), now);
        if last.0 == key {
            assert forall|j: int| 0 <= j < rows.len() - 1 implies #[trigger] rows[j].0 != key by {
                assert(rows[rows.len() - 1].0 == key);
            }
            table::lemma_index_is(rows, key, rows.len() - 1);
            assert forall|j: int| 0 <= j < head.len() implies #[trigger] head[j].0 != key by {
                assert(head[j] == rows[j]);
            }
            table::lemma_index_none(head, key);
            if refilled(last.1, burst, interval, now).tokens < burst {
                assert forall|j: int| 0 <= j < kept.len() implies #[trigger] all[j].0 != key by {
                    assert(all[j] == kept[j]);
                }
                table::lemma_index_is(all, key, kept.len() as int);
            }
        } else {
            match table::index_of(head, key) {
                Some(i) => {
                    assert(rows[i] == head[i]);
                    assert forall|j: int| 0 <= j < i implies #[trigger] rows[j].0 != key by {
                        assert(rows[j] == head[j]);
                    }
                    table::lemma_index_is(rows, key, i);
                },
                None => {
                    assert forall|j: int| 0 <= j < rows.len() implies #[trigger] rows[j].0
                        != key by {
                        if j < head.len() {
                            assert(rows[j] == head[j]);
                        }
                    }
                    table::lemma_index_none(rows, key);
                },
            }
            if refilled(last.1, burst, interval, now).tokens < burst {
                table::lemma_index_of(all, key);
                match table::index_of(kept, key) {
                    Some(i) => {
                        assert(all[i] == kept[i]);
                        assert forall|j: int| 0 <= j < i implies #[trigger] all[j].0 != key by {
                            assert(all[j] == kept[j]);
                        }
                        table::lemma_index_is(all, key, i);
                    },
                    None => {
                        assert forall|j: int| 0 <= j < all.len() implies #[trigger] all[j].0
                            != key by {
                            if j < kept.len() {
                                assert(all[j] == kept[j]);
                            }
                        }
                        table::lemma_index_none(all, key);
                    },
                }
            }
        }
    }
}

/// Forgetting full buckets changes no later answer: a full bucket is the same
/// as none, as long as the burst is not empty and the clock has not stepped
/// back behind what is held.
pub proof fn pruning_is_unseen<A>(
    rows: Seq<(A, Bucket)>,
    key: A,
    burst: u32,
    interval: i64,
    now: int,
    later: int,
)
    requires
        table::distinct(rows),
        sound(rows, burst),
        burst >= 1,
        interval > 0,
        now <= later,
        in_reach(now),
        in_reach(later),
        forall|i: int| 0 <= i < rows.len() ==> (#[trigger] rows[i]).1.anchor <= now,
    ensures
        may_spend(pruned(rows, burst, Some(interval), now), key, burst, Some(interval), later)
            == may_spend(rows, key, burst, Some(interval), later),
{
    lemma_pruned_keys(rows, burst, interval, now, key);
    table::lemma_index_of(rows, key);
    if let Some(i) = table::index_of(rows, key) {
        let b = rows[i].1;
        refill_in_two(b, burst, interval, now, later);
        if refilled(b, burst, interval, now).tokens >= burst {
            lemma_full_stays(b, burst, interval, now, later);
        }
    }
}

fn refill(b: Bucket, burst: u32, interval: i64, now: Time) -> (r: Bucket)
    requires
        interval > 0,
        in_reach(b.anchor as int),
        b.tokens <= burst,
    ensures
        r == refilled(b, burst, interval, now.instant()),
        in_reach(r.anchor as int),
        r.tokens <= burst,
        in_reach(now.instant()),
{
    let at: i128 = now.to_nanos();
    if at < b.anchor {
        return Bucket { tokens: b.tokens, anchor: at };
    }
    proof {
        lemma_steps(b.anchor as int, at as int, interval as int);
    }
    let elapsed: i128 = (at - b.anchor) / clock::MILLI;
    let n: i128 = elapsed / interval as i128;
    if n == 0 {
        return b;
    }
    if n >= (burst - b.tokens) as i128 {
        return Bucket { tokens: burst, anchor: at };
    }
    proof {
        assert(0 <= n * interval <= n * interval * 1_000_000) by (nonlinear_arith)
            requires
                n >= 0,
                interval > 0,
        ;
    }
    let moved: i128 = n * interval as i128;
    Bucket { tokens: b.tokens + n as u32, anchor: b.anchor + moved * clock::MILLI }
}

impl<K: Key> Ledger<K> {
    pub open spec fn wf(self) -> bool {
        &&& sound(self.buckets@, self.burst)
        &&& self.interval matches Some(i) ==> i > 0
    }

    /// An interval that is not positive turns the ledger off, as none does.
    pub fn new(burst: u32, interval: Option<i64>) -> (r: Self)
        ensures
            r.wf(),
            r@ == Allowances::<K::V>::new(burst, interval),
    {
        let interval = match interval {
            Some(i) => if i > 0 {
                Some(i)
            } else {
                None
            },
            None => None,
        };
        Ledger { burst, interval, buckets: Table::new() }
    }

    /// Whether the identity has a token left.
    pub fn has_token(&mut self, key: &K, now: Time) -> (r: bool)
        requires
            old(self).wf(),
        ensures
            final(self).wf(),
            r == old(self)@.may_spend(key@, now),
            final(self)@ == old(self)@.asked(key@, now),
    {
        let interval: i64 = match self.interval {
            Some(i) => i,
            None => return true,
        };
        proof {
            table::lemma_index_of(self.buckets@, key@);
        }
        let i: usize = match self.buckets.position(key) {
            Some(i) => i,
            None => return true,
        };
        let ghost before = self.buckets@;
        assert(self.buckets@[i as int] == table::row_view(self.buckets.rows@[i as int]));
        let b = refill(self.buckets.rows[i].1, self.burst, interval, now);
        let row = &mut self.buckets.rows[i];
        row.1 = b;
        assert(self.buckets@ =~= before.update(i as int, (key@, b)));
        b.tokens > 0
    }

    /// Spends one of the identity's tokens.
    pub fn spend(&mut self, key: K, now: Time)
        requires
            old(self).wf(),
        ensures
            final(self).wf(),
            final(self)@ == old(self)@.spent(key@, now),
    {
        let interval: i64 = match self.interval {
            Some(i) => i,
            None => return ,
        };
        proof {
            table::lemma_index_of(self.buckets@, key@);
        }
        let at: i128 = now.to_nanos();
        let held = match self.buckets.get(&key) {
            Some(b) => *b,
            None => Bucket { tokens: self.burst, anchor: at },
        };
        let r = refill(held, self.burst, interval, now);
        let b = Bucket {
            tokens: if r.tokens == 0 {
                0
            } else {
                r.tokens - 1
            },
            anchor: if r.tokens >= self.burst {
                at
            } else {
                r.anchor
            },
        };
        self.buckets.put(key, b);
    }

    /// A full bucket is the same as none, so it is forgotten.
    pub fn prune(&mut self, now: Time)
        requires
            old(self).wf(),
        ensures
            final(self).wf(),
            final(self)@ == old(self)@.pruned(now),
    {
        let interval: i64 = match self.interval {
            Some(i) => i,
            None => return ,
        };
        let burst: u32 = self.burst;
        let ghost all = self.buckets@;
        let mut kept: Table<K, Bucket> = Table::new();
        let mut rest: Table<K, Bucket> = Table::new();
        std::mem::swap(&mut rest, &mut self.buckets);
        let ghost total = all.len();
        assert(all.skip(0) =~= all);
        assert(all.take(0) =~= Seq::empty());
        let ghost mut done: int = 0;
        while rest.rows.len() > 0
            invariant
                interval > 0,
                0 <= done <= all.len(),
                rest@ == all.skip(done),
                sound(all, burst),
                sound(kept@, burst),
                kept@ == pruned(all.take(done), burst, Some(interval), now.instant()),
            decreases rest.rows@.len(),
        {
            let ghost prior = rest@;
            assert(prior.len() == rest.rows@.len());
            assert(prior[0] == all[done]);
            assert(prior[0] == table::row_view(rest.rows@[0]));
            let row = rest.rows.remove(0);
            assert(rest@ =~= prior.drop_first());
            assert(rest@ =~= all.skip(done + 1));
            let b = refill(row.1, burst, interval, now);
            proof {
                assert(all.take(done + 1).drop_last() =~= all.take(done));
                assert(all.take(done + 1).last() == all[done]);
            }
            if b.tokens < burst {
                let ghost before = kept@;
                let ghost key = row.0@;
                kept.rows.push((row.0, b));
                assert(kept@ =~= before.push((key, b)));
            }
            proof {
                done = done + 1;
            }
        }
        assert(all.take(done) =~= all);
        self.buckets = kept;
    }
}

} // verus!
