use vstd::prelude::*;

use crate::clock;
use crate::clock::Time;
use crate::network_message::PeerID;

verus! {

// Warnings are advisory only: real connection loss is the transport's timeout,
// and nobody is ever disconnected over these. All spans are in milliseconds.
pub const WARNING_INTERVAL: i64 = 1000;

pub const SILENCE_LIMIT: i64 = 2000;

pub const BAD_RTT: i64 = 400;

/// Past this a silent player is treated as away and the match is held for it,
/// long before the transport gives up on the peer. Well above
/// [`SILENCE_LIMIT`], so a slow frame never pauses anyone.
pub const AFK_SILENCE_LIMIT: i64 = 10_000;

/// What a session is warned about. A session is never reported both ways in
/// the same pass.
#[derive(Debug, Clone, Copy, PartialEq, Eq, Structural)]
pub enum Warning {
    Silent(i64),
    Lagging(i64),
}

/// When the last pass over the connections was.
#[derive(Debug, Clone, Copy, PartialEq, Eq, Structural)]
pub struct Monitor {
    pub last_pass: Option<Time>,
}

/// What a session's timing is worth a warning for; silence comes first.
pub open spec fn warning(mean_rtt: i64, since_last_received: i64) -> Option<Warning> {
    if since_last_received > SILENCE_LIMIT {
        Some(Warning::Silent(since_last_received))
    } else if mean_rtt > BAD_RTT {
        Some(Warning::Lagging(mean_rtt))
    } else {
        None
    }
}

impl Default for Monitor {
    fn default() -> (r: Self)
        ensures
            r.last_pass is None,
    {
        Monitor { last_pass: None }
    }
}

impl Monitor {
    /// Whether a pass is due, and the pass after it.
    pub open spec fn after(self, now: Time) -> (bool, Monitor) {
        if clock::interval_due(self.last_pass, now, clock::ms(WARNING_INTERVAL)) {
            (true, Monitor { last_pass: Some(now) })
        } else {
            (false, self)
        }
    }

    /// Whether a pass is due; if it is, it counts as made.
    pub fn due(&mut self, now: Time) -> (r: bool)
        ensures
            (r, *final(self)) == old(self).after(now),
    {
        let run = clock::due_again(self.last_pass, now, WARNING_INTERVAL);
        if run {
            self.last_pass = Some(now);
        }
        run
    }

    pub fn classify(mean_rtt: i64, since_last_received: i64) -> (r: Option<Warning>)
        ensures
            r == warning(mean_rtt, since_last_received),
    {
        if since_last_received > SILENCE_LIMIT {
            Some(Warning::Silent(since_last_received))
        } else if mean_rtt > BAD_RTT {
            Some(Warning::Lagging(mean_rtt))
        } else {
            None
        }
    }
}

/// A peer's timing, in milliseconds, as the transport measured it.
#[derive(Debug, Clone, Copy, PartialEq, Eq, Structural)]
pub struct PeerStats {
    pub peer: PeerID,
    pub mean_rtt: i64,
    pub since_last_received: i64,
}

} // verus!
