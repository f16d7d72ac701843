use vstd::prelude::*;

use crate::clock;
use crate::clock::Time;
use crate::relay::server_fsm::config::Config;

verus! {

/// One message's worth of a bucket, in thousandths so that a rate of one a
/// second still refills something on every tick.
pub const COST: i64 = 1000;

#[derive(Debug, Clone, Copy, PartialEq, Eq, Structural)]
pub enum Verdict {
    Pass,
    /// Over the limit, but not by enough to tell a burst from a flood.
    Drop,
    /// Still sending long after being over the limit, which no stock client
    /// does.
    Kick,
}

/// An allowance that refills with time.
#[derive(Debug, Clone, Copy, PartialEq, Eq, Structural)]
pub struct TokenBucket {
    pub milli: i64,
    pub rate_per_sec: u32,
    pub burst: u32,
    pub last: Option<Time>,
}

pub open spec fn smaller(a: int, b: int) -> int {
    if a <= b { a } else { b }
}

pub open spec fn larger(a: int, b: int) -> int {
    if a >= b { a } else { b }
}

impl TokenBucket {
    /// What a full bucket holds.
    pub open spec fn full(self) -> int {
        self.burst * COST
    }

    /// Whole milliseconds between two moments, none when the clock stepped
    /// backwards.
    pub open spec fn elapsed_ms(last: Time, now: Time) -> int {
        larger(now.instant() - last.instant(), 0) / 1_000_000
    }

    /// What the bucket holds once the time since its last use is credited.
    pub open spec fn level(self, now: Option<Time>) -> int {
        match (now, self.last) {
            (Some(now), Some(last)) => smaller(
                self.milli + Self::elapsed_ms(last, now) * self.rate_per_sec,
                self.full(),
            ),
            _ => self.milli as int,
        }
    }

    /// How far in debt a bucket must be for its peer to be removed: no further
    /// than a bucket can be.
    pub open spec fn floor(self, kick_multiple: u32) -> int {
        -smaller(self.full() * (kick_multiple - 1), i64::MAX as int)
    }

    /// Never more than full.
    pub open spec fn wf(self) -> bool {
        self.milli <= self.full()
    }

    /// What one message gets, and the bucket after it. A message that is
    /// dropped still spends where a kick can follow, so the debt measures how
    /// long the peer kept going.
    pub open spec fn taken(self, now: Option<Time>, kick_multiple: u32) -> (Verdict, int) {
        let level = self.level(now);
        if self.rate_per_sec == 0 {
            (Verdict::Pass, self.milli as int)
        } else if level >= COST {
            (Verdict::Pass, level - COST)
        } else if kick_multiple == 0 {
            (Verdict::Drop, larger(level, 0))
        } else {
            let left = larger(level - COST, i64::MIN as int);
            (
                if left <= self.floor(kick_multiple) {
                    Verdict::Kick
                } else {
                    Verdict::Drop
                },
                left,
            )
        }
    }

    /// A rate of 0 turns the limit off.
    pub fn new(rate_per_sec: u32, burst: u32) -> (r: Self)
        ensures
            r.wf(),
            r.milli == r.full(),
            r.rate_per_sec == rate_per_sec,
            r.burst == burst,
            r.last is None,
    {
        TokenBucket { milli: burst as i64 * COST, rate_per_sec, burst, last: None }
    }

    /// Takes one message's worth. `now` is the newest tick time; none before
    /// the first tick, when nothing has had time to refill.
    pub fn take(&mut self, now: Option<Time>, kick_multiple: u32) -> (r: Verdict)
        requires
            old(self).wf(),
        ensures
            final(self).wf(),
            (r, final(self).milli as int) == old(self).taken(now, kick_multiple),
            final(self).rate_per_sec == old(self).rate_per_sec,
            final(self).burst == old(self).burst,
            final(self).last == if old(self).rate_per_sec != 0 && now is Some {
                now
            } else {
                old(self).last
            },
    {
        if self.rate_per_sec == 0 {
            return Verdict::Pass;
        }
        let full: i64 = self.burst as i64 * COST;
        let mut level: i64 = self.milli;
        if let Some(now) = now {
            if let Some(last) = self.last {
                let mut elapsed: i128 = now.since(last);
                if elapsed < 0 {
                    elapsed = 0;
                }
                let elapsed_ms: i128 = elapsed / clock::MILLI;
                let rate: i128 = self.rate_per_sec as i128;
                proof {
                    assert(0 <= elapsed_ms <= 0x4000_0000_0000_0000_0000);
                    assert(0 <= elapsed_ms * rate <= 0x4000_0000_0000_0000_0000 * 0xffff_ffff)
                        by (nonlinear_arith)
                        requires
                            0 <= elapsed_ms <= 0x4000_0000_0000_0000_0000,
                            0 <= rate <= 0xffff_ffff,
                    ;
                }
                let credited: i128 = level as i128 + elapsed_ms * rate;
                level = if credited >= full as i128 {
                    full
                } else {
                    credited as i64
                };
            }
            self.last = Some(now);
        }
        if level >= COST {
            self.milli = level - COST;
            return Verdict::Pass;
        }
        if kick_multiple == 0 {
            self.milli = if level < 0 {
                0
            } else {
                level
            };
            return Verdict::Drop;
        }
        self.milli = if level >= i64::MIN + COST {
            level - COST
        } else {
            i64::MIN
        };
        let rounds: i128 = (kick_multiple - 1) as i128;
        let whole: i128 = full as i128;
        proof {
            assert(0 <= whole * rounds <= 0xffff_ffff * 1000 * 0xffff_ffff) by (nonlinear_arith)
                requires
                    0 <= whole <= 0xffff_ffff * 1000,
                    0 <= rounds <= 0xffff_ffff,
            ;
        }
        let debt: i128 = if whole * rounds <= i64::MAX as i128 {
            whole * rounds
        } else {
            i64::MAX as i128
        };
        if (self.milli as i128) <= -debt {
            Verdict::Kick
        } else {
            Verdict::Drop
        }
    }

    /// The bucket once a message has been taken.
    pub open spec fn after(self, now: Option<Time>, kick_multiple: u32) -> TokenBucket {
        TokenBucket {
            milli: self.taken(now, kick_multiple).1 as i64,
            last: if self.rate_per_sec != 0 && now is Some {
                now
            } else {
                self.last
            },
            ..self
        }
    }

    /// The bucket once `n` messages have been taken at one moment.
    pub open spec fn after_takes(self, now: Option<Time>, kick_multiple: u32, n: nat) -> TokenBucket
        decreases n,
    {
        if n == 0 {
            self
        } else {
            self.after_takes(now, kick_multiple, (n - 1) as nat).after(now, kick_multiple)
        }
    }

    proof fn lemma_after_takes(self, now: Option<Time>, kick_multiple: u32, n: nat)
        requires
            self.milli == self.full(),
            self.last is None,
            self.rate_per_sec != 0,
        ensures
            ({
                let b = self.after_takes(now, kick_multiple, n);
                &&& b.milli == if kick_multiple == 0 {
                    larger(self.full() - n * COST, 0)
                } else {
                    larger(self.full() - n * COST, i64::MIN as int)
                }
                &&& b.level(now) == b.milli
                &&& b.rate_per_sec == self.rate_per_sec
                &&& b.burst == self.burst
                &&& b.last is None || b.last == now
            }),
        decreases n,
    {
        if n > 0 {
            self.lemma_after_takes(now, kick_multiple, (n - 1) as nat);
        }
        let b = self.after_takes(now, kick_multiple, n);
        if let (Some(now), Some(last)) = (now, b.last) {
            assert(TokenBucket::elapsed_ms(last, now) == 0);
        }
    }

    /// A burst of messages at one moment, from a bucket that is full: as many as
    /// the burst pass. Those past it are dropped, and where a kick can follow
    /// the peer is removed with the one that makes them the burst that many
    /// times over, as long as a bucket can be that far in debt.
    pub proof fn bursts_pass_then_drop_then_kick(
        self,
        now: Option<Time>,
        kick_multiple: u32,
        n: nat,
    )
        requires
            self.milli == self.full(),
            self.last is None,
            self.burst > 0,
            n >= 1,
            self.full() * (kick_multiple - 1) <= i64::MAX || n * COST - self.full() < i64::MAX,
        ensures
            self.after_takes(now, kick_multiple, (n - 1) as nat).taken(now, kick_multiple).0
                == if self.rate_per_sec == 0 || n <= self.burst {
                Verdict::Pass
            } else if kick_multiple >= 1 && n >= kick_multiple * self.burst {
                Verdict::Kick
            } else {
                Verdict::Drop
            },
    {
        if self.rate_per_sec != 0 {
            self.lemma_after_takes(now, kick_multiple, (n - 1) as nat);
            let k = kick_multiple as int;
            let burst = self.burst as int;
            assert(self.full() * (k - 1) == 1000 * (k * burst) - 1000 * burst) by (nonlinear_arith)
                requires
                    self.full() == burst * 1000,
            ;
        } else {
            self.lemma_off(now, kick_multiple, (n - 1) as nat);
        }
    }

    proof fn lemma_off(self, now: Option<Time>, kick_multiple: u32, n: nat)
        requires
            self.rate_per_sec == 0,
        ensures
            self.after_takes(now, kick_multiple, n).rate_per_sec == 0,
        decreases n,
    {
        if n > 0 {
            self.lemma_off(now, kick_multiple, (n - 1) as nat);
        }
    }

    /// Switched off, a bucket lets everything through.
    pub proof fn off_passes(self, now: Option<Time>, kick_multiple: u32)
        requires
            self.rate_per_sec == 0,
        ensures
            self.taken(now, kick_multiple) == (Verdict::Pass, self.milli as int),
    {
    }

    /// Whatever the clock did, a message passes only when a whole message's
    /// worth is there, and is then paid for.
    pub proof fn pass_is_paid(self, now: Option<Time>, kick_multiple: u32)
        requires
            self.wf(),
            self.rate_per_sec != 0,
            self.taken(now, kick_multiple).0 == Verdict::Pass,
        ensures
            COST <= self.level(now) <= self.full(),
            self.taken(now, kick_multiple).1 == self.level(now) - COST,
    {
    }
}

/// What a peer has sent for one turn.
#[derive(Debug, Clone, Copy, PartialEq, Eq, Structural)]
pub struct TurnUse {
    pub turn: u32,
    pub count: u32,
    pub bytes: usize,
}

/// What one peer has sent for each turn still open to commands.
#[derive(Debug)]
pub struct TurnQuota {
    pub open: Vec<TurnUse>,
}

pub open spec fn capped(a: int, b: int) -> int {
    if a > b { b } else { a }
}

/// Whether a cap is set and passed.
pub open spec fn over(used: int, cap: int) -> bool {
    cap != 0 && used > cap
}

/// The turns that have not been released.
pub open spec fn still_open(s: Seq<TurnUse>, ready_turn: u32) -> Seq<TurnUse> {
    s.filter(|u: TurnUse| u.turn > ready_turn)
}

/// The first record for a turn.
pub open spec fn use_index(s: Seq<TurnUse>, turn: u32) -> Option<int>
    decreases s.len(),
{
    if s.len() == 0 {
        None
    } else if s[0].turn == turn {
        Some(0)
    } else {
        match use_index(s.drop_first(), turn) {
            Some(i) => Some(i + 1),
            None => None,
        }
    }
}

/// One more command recorded for a turn; counts stop at the largest number.
pub open spec fn used_more(s: Seq<TurnUse>, turn: u32, bytes: usize) -> (Seq<TurnUse>, TurnUse) {
    match use_index(s, turn) {
        Some(i) => {
            let u = TurnUse {
                turn,
                count: capped(s[i].count + 1, u32::MAX as int) as u32,
                bytes: capped(s[i].bytes + bytes, usize::MAX as int) as usize,
            };
            (s.update(i, u), u)
        },
        None => {
            let u = TurnUse { turn, count: 1, bytes };
            (s.push(u), u)
        },
    }
}

/// What a turn's use gets under the caps. A cap of 0 is off, and so is a kick
/// multiple of 0.
pub open spec fn quota_verdict(
    u: TurnUse,
    max_count: u32,
    max_bytes: usize,
    kick_multiple: u32,
) -> Verdict {
    if !over(u.count as int, max_count as int) && !over(u.bytes as int, max_bytes as int) {
        Verdict::Pass
    } else if kick_multiple != 0 && (over(
        u.count as int,
        capped(max_count * kick_multiple, u32::MAX as int),
    ) || over(u.bytes as int, capped(max_bytes * kick_multiple, usize::MAX as int))) {
        Verdict::Kick
    } else {
        Verdict::Drop
    }
}

impl Default for TurnQuota {
    fn default() -> (r: Self)
        ensures
            r.open@ == Seq::<TurnUse>::empty(),
    {
        TurnQuota { open: Vec::new() }
    }
}

fn product32(a: u32, b: u32) -> (r: u32)
    ensures
        r == capped(a * b, u32::MAX as int),
{
    proof {
        assert(0 <= a * b <= 0xffff_ffff * 0xffff_ffff) by (nonlinear_arith)
            requires
                0 <= a <= 0xffff_ffff,
                0 <= b <= 0xffff_ffff,
        ;
    }
    let p: u64 = a as u64 * b as u64;
    if p > u32::MAX as u64 {
        u32::MAX
    } else {
        p as u32
    }
}

fn product_size(a: usize, b: u32) -> (r: usize)
    ensures
        r == capped(a * b, usize::MAX as int),
{
    proof {
        assert(0 <= a * b <= 0xffff_ffff_ffff_ffff * 0xffff_ffff) by (nonlinear_arith)
            requires
                0 <= a <= 0xffff_ffff_ffff_ffff,
                0 <= b <= 0xffff_ffff,
        ;
    }
    let p: u128 = a as u128 * b as u128;
    if p > usize::MAX as u128 {
        usize::MAX
    } else {
        p as usize
    }
}

impl TurnQuota {
    /// Forgets the turns that have been released.
    fn close(&mut self, ready_turn: u32)
        ensures
            final(self).open@ == still_open(old(self).open@, ready_turn),
    {
        let mut kept: Vec<TurnUse> = Vec::new();
        let mut i: usize = 0;
        let ghost all = self.open@;
        let ghost open = |u: TurnUse| u.turn > ready_turn;
        while i < self.open.len()
            invariant
                all == self.open@,
                i <= all.len(),
                open == |u: TurnUse| u.turn > ready_turn,
                kept@ == all.take(i as int).filter(open),
            decreases all.len() - i,
        {
            let u = self.open[i];
            proof {
                assert(all.take(i + 1) =~= all.take(i as int).push(u));
                reveal(Seq::filter);
                assert(all.take(i + 1).drop_last() =~= all.take(i as int));
            }
            if u.turn > ready_turn {
                kept.push(u);
            }
            i += 1;
        }
        assert(all.take(i as int) =~= all);
        self.open = kept;
    }

    fn position(&self, turn: u32) -> (r: Option<usize>)
        ensures
            match r {
                Some(i) => use_index(self.open@, turn) == Some(i as int) && i < self.open@.len(),
                None => use_index(self.open@, turn) is None,
            },
    {
        let ghost all = self.open@;
        let mut i: usize = 0;
        assert(all.skip(0) =~= all);
        while i < self.open.len()
            invariant
                all == self.open@,
                i <= all.len(),
                use_index(all, turn) == match use_index(all.skip(i as int), turn) {
                    Some(j) => Some(i + j),
                    None => None,
                },
            decreases all.len() - i,
        {
            assert(all.skip(i as int).drop_first() =~= all.skip(i + 1));
            assert(all.skip(i as int)[0] == all[i as int]);
            if self.open[i].turn == turn {
                return Some(i);
            }
            i += 1;
        }
        None
    }

    /// Records a command of `bytes` bytes for a turn. Dropped commands are
    /// counted too: the excess is what tells a flood from a burst.
    pub fn charge(
        &mut self,
        turn: u32,
        bytes: usize,
        ready_turn: u32,
        max_count: u32,
        max_bytes: usize,
        kick_multiple: u32,
    ) -> (r: Verdict)
        ensures
            ({
                let (open, u) = used_more(still_open(old(self).open@, ready_turn), turn, bytes);
                &&& final(self).open@ == open
                &&& r == quota_verdict(u, max_count, max_bytes, kick_multiple)
            }),
    {
        self.close(ready_turn);
        let used = match self.position(turn) {
            Some(i) => {
                let before = self.open[i];
                let u = TurnUse {
                    turn,
                    count: before.count.saturating_add(1),
                    bytes: before.bytes.saturating_add(bytes),
                };
                self.open.set(i, u);
                u
            },
            None => {
                let u = TurnUse { turn, count: 1, bytes };
                self.open.push(u);
                u
            },
        };
        let over_count = max_count != 0 && used.count > max_count;
        let over_bytes = max_bytes != 0 && used.bytes > max_bytes;
        if !over_count && !over_bytes {
            return Verdict::Pass;
        }
        if kick_multiple == 0 {
            return Verdict::Drop;
        }
        let count_limit: u32 = product32(max_count, kick_multiple);
        let bytes_limit: usize = product_size(max_bytes, kick_multiple);
        if (count_limit != 0 && used.count > count_limit) || (bytes_limit != 0 && used.bytes
            > bytes_limit) {
            Verdict::Kick
        } else {
            Verdict::Drop
        }
    }
}

/// One command: the turn it is for, its size, and the last released turn.
pub struct Charge {
    pub turn: u32,
    pub bytes: usize,
    pub ready_turn: u32,
}

/// What is recorded once these commands have come, in this order.
pub open spec fn recorded(charges: Seq<Charge>) -> Seq<TurnUse>
    decreases charges.len(),
{
    if charges.len() == 0 {
        Seq::empty()
    } else {
        let c = charges.last();
        used_more(
            still_open(recorded(charges.drop_last()), c.ready_turn),
            c.turn,
            c.bytes,
        ).0
    }
}

/// What the last of these commands was recorded as.
pub open spec fn last_recorded(charges: Seq<Charge>) -> TurnUse {
    let c = charges.last();
    used_more(
        still_open(recorded(charges.drop_last()), c.ready_turn),
        c.turn,
        c.bytes,
    ).1
}

/// How many of these commands are for a turn.
pub open spec fn count_for(charges: Seq<Charge>, turn: u32) -> nat
    decreases charges.len(),
{
    if charges.len() == 0 {
        0
    } else {
        count_for(charges.drop_last(), turn) + if charges.last().turn == turn {
            1nat
        } else {
            0
        }
    }
}

/// How many bytes the commands for a turn have.
pub open spec fn bytes_for(charges: Seq<Charge>, turn: u32) -> nat
    decreases charges.len(),
{
    if charges.len() == 0 {
        0
    } else {
        bytes_for(charges.drop_last(), turn) + if charges.last().turn == turn {
            charges.last().bytes as nat
        } else {
            0
        }
    }
}

/// What is recorded for a turn.
spec fn record(s: Seq<TurnUse>, turn: u32) -> Option<TurnUse> {
    match use_index(s, turn) {
        Some(i) => Some(s[i]),
        None => None,
    }
}

proof fn lemma_use_index(s: Seq<TurnUse>, turn: u32)
    ensures
        match use_index(s, turn) {
            Some(i) => 0 <= i < s.len() && s[i].turn == turn && forall|j: int|
                0 <= j < i ==> (#[trigger] s[j]).turn != turn,
            None => forall|j: int| 0 <= j < s.len() ==> (#[trigger] s[j]).turn != turn,
        },
    decreases s.len(),
{
    if s.len() > 0 && s[0].turn != turn {
        let rest = s.drop_first();
        lemma_use_index(rest, turn);
        let last = match use_index(rest, turn) {
            Some(i) => i,
            None => rest.len() as int,
        };
        assert forall|j: int| 0 <= j < last + 1 implies (#[trigger] s[j]).turn != turn by {
            if j > 0 {
                assert(rest[j - 1] == s[j]);
            }
        }
    }
}

proof fn lemma_record_push(s: Seq<TurnUse>, u: TurnUse, turn: u32)
    ensures
        record(s.push(u), turn) == (match record(s, turn) {
            Some(r) => Some(r),
            None => if u.turn == turn {
                Some(u)
            } else {
                None
            },
        }),
{
    let t = s.push(u);
    lemma_use_index(s, turn);
    lemma_use_index(t, turn);
    assert forall|j: int| 0 <= j < s.len() implies #[trigger] t[j] == s[j] by {}
    assert(t[s.len() as int] == u);
    if let Some(i) = use_index(s, turn) {
        assert(t[i] == s[i]);
        let k = use_index(t, turn)->0;
        if k < i {
            assert(t[k] == s[k]);
        }
    }
    if let Some(k) = use_index(t, turn) {
        if k < s.len() {
            assert(t[k] == s[k]);
        }
    }
}

/// Forgetting released turns keeps what is recorded for the others.
proof fn lemma_record_open(s: Seq<TurnUse>, ready_turn: u32, turn: u32)
    requires
        ready_turn < turn,
    ensures
        record(still_open(s, ready_turn), turn) == record(s, turn),
    decreases s.len(),
{
    reveal(Seq::filter);
    if s.len() > 0 {
        let rest = s.drop_last();
        let last = s.last();
        lemma_record_open(rest, ready_turn, turn);
        assert(s =~= rest.push(last));
        lemma_record_push(rest, last, turn);
        lemma_record_push(still_open(rest, ready_turn), last, turn);
    }
}

proof fn lemma_record_more(s: Seq<TurnUse>, turn: u32, bytes: usize, other: u32)
    ensures
        record(used_more(s, turn, bytes).0, turn) == Some(used_more(s, turn, bytes).1),
        other != turn ==> record(used_more(s, turn, bytes).0, other) == record(s, other),
{
    let (t, u) = used_more(s, turn, bytes);
    match use_index(s, turn) {
        Some(i) => {
            lemma_use_index(s, turn);
            lemma_use_index(s, other);
            lemma_use_index(t, turn);
            lemma_use_index(t, other);
            assert forall|j: int| 0 <= j < s.len() implies (#[trigger] t[j]).turn
                == s[j].turn by {}
            assert forall|j: int| 0 <= j < s.len() implies (#[trigger] s[j]).turn
                == t[j].turn by {}
            assert(t[i] == u);
            let k = use_index(t, turn)->0;
            if k < i {
                assert(s[k].turn != turn);
            }
            if let Some(m) = use_index(s, other) {
                assert(t[m].turn == other);
                let p = use_index(t, other)->0;
                assert(s[p].turn == other);
            }
            if let Some(p) = use_index(t, other) {
                assert(s[p].turn == other);
            }
        },
        None => {
            lemma_record_push(s, u, turn);
            lemma_record_push(s, u, other);
        },
    }
}

proof fn lemma_recorded(charges: Seq<Charge>, turn: u32)
    requires
        forall|i: int| 0 <= i < charges.len() ==> (#[trigger] charges[i]).ready_turn < turn,
    ensures
        record(recorded(charges), turn) == if count_for(charges, turn) == 0 {
            None
        } else {
            Some(
                TurnUse {
                    turn,
                    count: capped(count_for(charges, turn) as int, u32::MAX as int) as u32,
                    bytes: capped(bytes_for(charges, turn) as int, usize::MAX as int) as usize,
                },
            )
        },
        count_for(charges, turn) == 0 ==> bytes_for(charges, turn) == 0,
    decreases charges.len(),
{
    if charges.len() > 0 {
        let before = charges.drop_last();
        let c = charges.last();
        assert(c == charges[charges.len() - 1]);
        assert forall|i: int| 0 <= i < before.len() implies (#[trigger] before[i]).ready_turn
            < turn by {
            assert(before[i] == charges[i]);
        }
        lemma_recorded(before, turn);
        let open = still_open(recorded(before), c.ready_turn);
        lemma_record_open(recorded(before), c.ready_turn, turn);
        lemma_record_more(open, c.turn, c.bytes, turn);
        lemma_use_index(open, turn);
    }
}

/// What commands for one turn get adds up over all of them, dropped ones too,
/// whatever came for other turns in between: as many as the caps allow pass,
/// those past them are dropped, and past the caps that many times over the
/// peer is removed.
pub proof fn charges_add_up(
    charges: Seq<Charge>,
    max_count: u32,
    max_bytes: usize,
    kick_multiple: u32,
)
    requires
        charges.len() > 0,
        forall|i: int|
            0 <= i < charges.len() ==> (#[trigger] charges[i]).ready_turn < charges.last().turn,
        count_for(charges, charges.last().turn) <= u32::MAX,
        bytes_for(charges, charges.last().turn) <= usize::MAX,
    ensures
        ({
            let n = count_for(charges, charges.last().turn) as int;
            let b = bytes_for(charges, charges.last().turn) as int;
            let k = kick_multiple as int;
            quota_verdict(last_recorded(charges), max_count, max_bytes, kick_multiple) == if (
            max_count == 0 || n <= max_count) && (max_bytes == 0 || b <= max_bytes) {
                Verdict::Pass
            } else if k != 0 && ((max_count != 0 && n > capped(max_count * k, u32::MAX as int)) || (
            max_bytes != 0 && b > capped(max_bytes * k, usize::MAX as int))) {
                Verdict::Kick
            } else {
                Verdict::Drop
            }
        }),
{
    let c = charges.last();
    let before = charges.drop_last();
    lemma_recorded(charges, c.turn);
    let open = still_open(recorded(before), c.ready_turn);
    lemma_record_more(open, c.turn, c.bytes, c.turn);
    let k = kick_multiple as int;
    assert(max_count != 0 && k != 0 ==> max_count * k > 0) by (nonlinear_arith)
        requires
            k >= 0,
            max_count >= 0,
    ;
    assert(max_bytes != 0 && k != 0 ==> max_bytes * k > 0) by (nonlinear_arith)
        requires
            k >= 0,
            max_bytes >= 0,
    ;
}

/// Per connection, so a peer that reconnects starts afresh, but only after
/// paying for a whole new handshake.
#[derive(Debug)]
pub struct Limits {
    pub chat: TokenBucket,
    pub flare: TokenBucket,
    pub commands: TurnQuota,
}

impl Limits {
    /// What a connection is held to. Every bucket starts full, and no turn has
    /// been commanded yet.
    pub fn new(config: &Config) -> (r: Self)
        ensures
            r.chat.wf(),
            r.chat.milli == r.chat.full(),
            r.chat.rate_per_sec == config.chat_per_sec,
            r.chat.burst == config.chat_burst,
            r.chat.last is None,
            r.flare.wf(),
            r.flare.milli == r.flare.full(),
            r.flare.rate_per_sec == config.flare_per_sec,
            r.flare.burst == config.flare_burst,
            r.flare.last is None,
            r.commands.open@.len() == 0,
    {
        Limits {
            chat: TokenBucket::new(config.chat_per_sec, config.chat_burst),
            flare: TokenBucket::new(config.flare_per_sec, config.flare_burst),
            commands: TurnQuota::default(),
        }
    }
}

} // verus!
