//! Time as the rules see it. Nothing here reads a clock: the program around
//! the library does, and hands over what it read.

use vstd::prelude::*;

verus! {

/// A moment: seconds since 1970 and the nanoseconds within the second.
#[derive(Debug, Clone, Copy, PartialEq, Eq, Structural)]
pub struct Time {
    pub secs: i64,
    pub nanos: u32,
}

impl View for Time {
    type V = Time;

    open spec fn view(&self) -> Time {
        *self
    }
}

/// Nanoseconds in a millisecond.
pub const MILLI: i128 = 1_000_000;

impl Time {
    /// The moment in nanoseconds since 1970.
    pub open spec fn instant(self) -> int {
        self.secs * 1_000_000_000 + self.nanos
    }

    /// The nanoseconds that have passed since another moment, negative when
    /// that one is later: a wall clock can step backwards.
    pub fn since(self, earlier: Time) -> (r: i128)
        ensures
            r == self.instant() - earlier.instant(),
            -2 * FAR <= r <= 2 * FAR,
    {
        self.to_nanos() - earlier.to_nanos()
    }

    /// The moment in nanoseconds since 1970.
    pub fn to_nanos(self) -> (r: i128)
        ensures
            r == self.instant(),
            -FAR <= r <= FAR,
    {
        self.secs as i128 * 1_000_000_000 + self.nanos as i128
    }

    /// No moment is further off than the clock can show.
    pub proof fn lemma_in_reach(self)
        ensures
            -FAR <= self.instant() <= FAR,
    {
    }
}

/// How far from 1970 a moment can be, in nanoseconds.
pub const FAR: i128 = 0x1_0000_0000_0000_0000_0000_0000;

/// A span in milliseconds as nanoseconds.
pub open spec fn ms(span: i64) -> int {
    span * 1_000_000
}

/// A span in milliseconds as nanoseconds.
pub fn millis(span: i64) -> (r: i128)
    ensures
        r == ms(span),
{
    span as i128 * MILLI
}

/// Whole seconds of a span in nanoseconds, cut towards zero.
pub open spec fn whole_secs(span: int) -> int {
    if span >= 0 {
        span / 1_000_000_000
    } else {
        -((-span) / 1_000_000_000)
    }
}

/// Something done at most once an interval: due the first time, once the
/// interval has passed, and at once when the clock has stepped backwards.
pub open spec fn interval_due(last: Option<Time>, now: Time, interval: int) -> bool {
    match last {
        None => true,
        Some(last) => {
            let elapsed = now.instant() - last.instant();
            elapsed >= interval || elapsed < 0
        },
    }
}

/// Whether something done at most once an interval is due.
pub fn due_again(last: Option<Time>, now: Time, interval: i64) -> (r: bool)
    ensures
        r == interval_due(last, now, ms(interval)),
{
    match last {
        Some(last) => {
            let elapsed: i128 = now.since(last);
            elapsed >= millis(interval) || elapsed < 0
        },
        None => true,
    }
}

/// A wait that began at `anchor` and, when the clock has stepped backwards,
/// begins anew: whether it is over, and when it began.
pub open spec fn waited(anchor: Option<Time>, now: Time, limit: int) -> (bool, Time) {
    let start = match anchor {
        Some(t) => t,
        None => now,
    };
    let elapsed = now.instant() - start.instant();
    if elapsed < 0 {
        (false, now)
    } else {
        (elapsed >= limit, start)
    }
}

/// Whether a wait is over, and when it began.
pub fn wait_over(anchor: Option<Time>, now: Time, limit: i64) -> (r: (bool, Time))
    ensures
        r == waited(anchor, now, ms(limit)),
{
    let start = match anchor {
        Some(t) => t,
        None => now,
    };
    let elapsed: i128 = now.since(start);
    if elapsed < 0 {
        (false, now)
    } else {
        (elapsed >= millis(limit), start)
    }
}

/// A wait never ends early: it is over only once the limit has passed since
/// it began, whatever the clock did in between.
pub proof fn waited_is_not_early(anchor: Option<Time>, now: Time, limit: int)
    ensures
        waited(anchor, now, limit).0 ==> now.instant() - waited(anchor, now, limit).1.instant()
            >= limit,
        waited(anchor, now, limit).1.instant() <= now.instant(),
{
}

} // verus!
