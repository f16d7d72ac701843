//! What a server does as time passes.

use vstd::prelude::*;

use crate::clock;
use crate::clock::Time;
use crate::network_message::PeerID;
use crate::relay::messages::items;
use crate::relay::messages::lagging_clients::LaggingClientsView;
use crate::relay::messages::last_seen::LastSeenView;
use crate::relay::messages::performance_entry::PerformanceEntryView;
use crate::relay::messages::player_pause::PlayerPauseView;
use crate::relay::messages::Guid;
use crate::relay::messages::LaggingClients;
use crate::relay::messages::LastSeen;
use crate::relay::messages::PerformanceEntry;
use crate::relay::messages::PlayerPause;
use crate::relay::messages::WireMessage;
use crate::relay::messages::WireMessageView;
use crate::relay::monitor;
use crate::relay::monitor::Monitor;
use crate::relay::monitor::PeerStats;
use crate::relay::monitor::Warning;
use crate::relay::pause_budget::BudgetEvent;
use crate::relay::pause_budget::BudgetEventView;
use crate::relay::server_fsm::context::Audience;
use crate::relay::server_fsm::context::Chain;
use crate::relay::server_fsm::context::Context;
use crate::relay::server_fsm::context::Ctx;
use crate::relay::server_fsm::event::Effect;
use crate::relay::server_fsm::event::EffectView;
use crate::relay::server_fsm::event::Phase;
use crate::relay::session::SessionView;
use crate::relay::slots;
use crate::table;
use crate::utils;

verus! {

/// The sessions with the peers' latest timing.
pub open spec fn sampled(sessions: Seq<(PeerID, SessionView)>, stats: Seq<PeerStats>) -> Seq<
    (PeerID, SessionView),
>
    decreases stats.len(),
{
    if stats.len() == 0 {
        sessions
    } else {
        let before = sampled(sessions, stats.drop_last());
        let sample = stats.last();
        match table::lookup(before, sample.peer) {
            Some(s) => table::with_row(
                before,
                sample.peer,
                SessionView {
                    mean_rtt: sample.mean_rtt,
                    since_last_received: sample.since_last_received,
                    ..s
                },
            ),
            None => before,
        }
    }
}

/// Milliseconds as the wire carries them.
pub open spec fn wire_ms(span: i64) -> u32 {
    if span > 0 {
        span as u32
    } else {
        0
    }
}

fn to_wire_ms(span: i64) -> (r: u32)
    ensures
        r == wire_ms(span),
{
    if span > 0 {
        #[verifier::truncate]
        (span as u32)
    } else {
        0
    }
}

/// What is told of a session's timing, if anything.
pub open spec fn report_on(s: SessionView) -> Option<WireMessageView> {
    match (s.admitted, s.uuid) {
        (Some(_), Some(guid)) => match monitor::warning(s.mean_rtt, s.since_last_received) {
            Some(Warning::Silent(since)) => Some(
                WireMessageView::LastSeen(
                    LastSeenView { guid, last_received_time: wire_ms(since) },
                ),
            ),
            Some(Warning::Lagging(rtt)) => Some(
                WireMessageView::LaggingClients(
                    LaggingClientsView {
                        clients: seq![
                            PerformanceEntryView { guid, mean_rtt: wire_ms(rtt) },
                        ],
                    },
                ),
            ),
            None => None,
        },
        _ => None,
    }
}

/// The line that says how much of a quota is left.
pub open spec fn left_line(
    before: Seq<char>,
    name: Seq<char>,
    after: Seq<char>,
    remaining: int,
) -> Seq<char> {
    before + name + after + utils::signed_decimal(clock::whole_secs(remaining))
        + "s of pause budget left."@
}

pub fn left_text(before: &str, name: &str, after: &str, remaining: i128) -> (r: String)
    ensures
        r@ == left_line(before@, name@, after@, remaining as int),
{
    let mut out = utils::copy_text(before);
    out.append(name);
    out.append(after);
    let secs = utils::secs_text(remaining);
    out.append(secs.as_str());
    out.append("s of pause budget left.");
    out
}

/// A name and what is said of it.
fn name_text(name: &str, after: &str) -> (r: String)
    ensures
        r@ == name@ + after@,
{
    let mut out = utils::copy_text(name);
    out.append(after);
    out
}

impl Ctx {
    /// Whether nobody needs the game any more: nobody has ever been admitted
    /// within the timeout of its creation, or nobody admitted has been present
    /// for the timeout. The AI host alone does not keep it alive.
    pub open spec fn idled(self, now: Time) -> (bool, Ctx) {
        match self.config.idle_shutdown {
            None => (false, self),
            Some(timeout) => {
                let created = match self.created_at {
                    Some(t) => t,
                    None => now,
                };
                if self.anyone_admitted() {
                    (false, Ctx { created_at: Some(created), empty_since: None, ..self })
                } else if self.next_client_id > 1 {
                    let (over, since) = clock::waited(self.empty_since, now, clock::ms(timeout));
                    (
                        over,
                        Ctx { created_at: Some(created), empty_since: Some(since), ..self },
                    )
                } else {
                    let (over, since) = clock::waited(self.created_at, now, clock::ms(timeout));
                    (over, Ctx { created_at: Some(since), ..self })
                }
            },
        }
    }

    pub open spec fn pause_line(self, guid: Seq<char>, pause: bool) -> Ctx {
        self.broadcast(
            WireMessageView::PlayerPause(PlayerPauseView { guid, pause }),
            Audience::InGame,
        )
    }

    /// Everyone the match begins to wait for is named.
    pub open spec fn waits_named(self, uuids: Seq<Seq<char>>) -> Ctx
        decreases uuids.len(),
    {
        if uuids.len() == 0 {
            self
        } else {
            let before = self.waits_named(uuids.drop_last());
            before.said(
                None,
                left_line(
                    "Waiting for "@,
                    before.absent_name(uuids.last()),
                    ". "@,
                    before.pause_budget.remaining(uuids.last()) as int,
                ),
            )
        }
    }

    pub open spec fn prefetching(self, prefetch: bool) -> Ctx {
        Ctx { checkpoints: Chain { prefetch, ..self.checkpoints }, ..self }
    }

    /// What the clients are told of the pause quotas.
    #[verifier::opaque]
    pub open spec fn budget_told(self, event: BudgetEventView) -> Ctx {
        match event {
            BudgetEventView::Expired { uuid } => {
                let lifted = self.pause_line(uuid, false);
                match self.name_of(uuid) {
                    Some(name) => lifted.said(None, name + " is out of pause budget."@),
                    None => lifted,
                }
            },
            BudgetEventView::Status { uuid, remaining } => match self.name_of(uuid) {
                Some(name) => self.said(
                    None,
                    left_line(""@, name, " is paused. "@, remaining as int),
                ),
                None => self,
            },
            BudgetEventView::CoordinatedStarted => self.said(
                None,
                "Everyone is paused, so nobody's pause budget is draining."@,
            ),
            BudgetEventView::CoordinatedEnded => self.said(
                None,
                "Pause budgets are draining again."@,
            ),
            BudgetEventView::AutoPauseStarted { uuids } => self.pause_line(
                self.server_uuid,
                true,
            ).waits_named(uuids).prefetching(true),
            BudgetEventView::AutoPauseEnded => self.pause_line(
                self.server_uuid,
                false,
            ).prefetching(false).said(None, "Resuming."@),
            BudgetEventView::AbsentExpired { uuid } => self.said(
                None,
                self.absent_name(uuid)
                    + " did not return in time and is out of pause budget."@,
            ),
            BudgetEventView::AbsentStatus { uuid, remaining } => self.said(
                None,
                left_line("Waiting for "@, self.absent_name(uuid), ". "@, remaining as int),
            ),
        }
    }

    pub open spec fn budgets_told(self, events: Seq<BudgetEventView>) -> Ctx
        decreases events.len(),
    {
        if events.len() == 0 {
            self
        } else {
            self.budgets_told(events.drop_last()).budget_told(events.last())
        }
    }

    /// The quotas charged for the time since the last tick. Once the match is
    /// decided nobody is worth waiting for.
    #[verifier::opaque]
    pub open spec fn budget_checked(self, phase: Phase, now: Time) -> Ctx {
        let players = slots::players_here(self.slots).len() as usize;
        let absent = if self.config.afk_pause && phase == Phase::InGame {
            self.absent()
        } else {
            Seq::empty()
        };
        let (quotas, events) = self.pause_budget.checked(now, players, absent);
        Ctx { pause_budget: quotas, ..self }.budgets_told(events)
    }

    /// Who hears of a session's timing.
    pub open spec fn report_audience(phase: Phase) -> Audience {
        if phase == Phase::Setup {
            Audience::SetupOrInGame
        } else {
            Audience::InGame
        }
    }

    /// The timing of these sessions told to everyone but themselves.
    #[verifier::opaque]
    pub open spec fn timing_told(self, phase: Phase, rows: Seq<(PeerID, SessionView)>) -> Ctx
        decreases rows.len(),
    {
        if rows.len() == 0 {
            self
        } else {
            let before = self.timing_told(phase, rows.drop_last());
            match report_on(rows.last().1) {
                Some(msg) => before.broadcast_except(
                    rows.last().0,
                    msg,
                    Self::report_audience(phase),
                ),
                None => before,
            }
        }
    }

    /// Time passes. The quotas have their own anchor, so they neither depend
    /// on nor disturb the cadence of the warnings.
    #[verifier::opaque]
    pub open spec fn ticked(self, phase: Phase, now: Time, stats: Seq<PeerStats>) -> Ctx {
        let seen = Ctx { sessions: sampled(self.sessions, stats), ..self };
        let (over, idle) = seen.idled(now);
        let closing = if over {
            idle.doing(EffectView::GameOver)
        } else {
            idle
        };
        let charged = if phase == Phase::InGame || phase == Phase::PostGame {
            closing.budget_checked(phase, now)
        } else {
            closing
        };
        let (due, monitor) = charged.monitor.after(now);
        let watched = Ctx { monitor, ..charged };
        if due {
            watched.timing_told(phase, watched.sessions)
        } else {
            watched
        }
    }
}

impl Context {
    fn sample(&mut self, stats: &Vec<PeerStats>)
        requires
            old(self).wf(),
        ensures
            final(self)@ == (Ctx {
                sessions: sampled(old(self)@.sessions, stats@),
                ..old(self)@
            }),
            final(self).wf(),
    {
        let ghost c = self@;
        let ghost rows = self@.sessions;
        let mut i: usize = 0;
        assert(stats@.take(0) =~= Seq::empty());
        while i < stats.len()
            invariant
                c == old(self)@,
                rows == c.sessions,
                i <= stats@.len(),
                self.wf(),
                self@ == (Ctx { sessions: sampled(rows, stats@.take(i as int)), ..c }),
            decreases stats@.len() - i,
        {
            let ghost before = self@.sessions;
            proof {
                assert(stats@.take(i + 1).drop_last() =~= stats@.take(i as int));
                assert(stats@.take(i + 1).last() == stats@[i as int]);
            }
            let sample = stats[i];
            if let Some(at) = self.sessions.position(&sample.peer) {
                assert(before[at as int] == table::row_view(self.sessions.rows@[at as int]));
                let row = &mut self.sessions.rows[at];
                row.1.mean_rtt = sample.mean_rtt;
                row.1.since_last_received = sample.since_last_received;
                proof {
                    let s = table::lookup(before, sample.peer)->0;
                    let now = SessionView {
                        mean_rtt: sample.mean_rtt,
                        since_last_received: sample.since_last_received,
                        ..s
                    };
                    assert(self.sessions@ =~= before.update(at as int, (sample.peer, now)));
                }
            }
            i += 1;
        }
        assert(stats@.take(i as int) =~= stats@);
    }

    pub fn idle_shutdown_due(&mut self, now: Time) -> (r: bool)
        requires
            old(self).wf(),
        ensures
            (r, final(self)@) == old(self)@.idled(now),
            final(self).wf(),
    {
        let timeout: i64 = match self.config.idle_shutdown {
            Some(t) => t,
            None => return false,
        };
        let created = match self.created_at {
            Some(t) => t,
            None => now,
        };
        if self.anyone_admitted() {
            self.created_at = Some(created);
            self.empty_since = None;
            return false;
        }
        if self.next_client_id > 1 {
            let (over, since) = clock::wait_over(self.empty_since, now, timeout);
            self.created_at = Some(created);
            self.empty_since = Some(since);
            over
        } else {
            let (over, since) = clock::wait_over(self.created_at, now, timeout);
            self.created_at = Some(since);
            over
        }
    }

    fn tell_pause(&mut self, guid: Guid, pause: bool)
        ensures
            final(self)@ == old(self)@.pause_line(guid@, pause),
    {
        self.broadcast(
            &WireMessage::PlayerPause(PlayerPause { guid, pause }),
            Audience::InGame,
        );
    }

    fn name_waits(&mut self, uuids: &Vec<Guid>)
        requires
            old(self).wf(),
        ensures
            final(self)@ == old(self)@.waits_named(items::views(uuids@)),
            final(self).wf(),
    {
        let ghost c = self@;
        let ghost all = items::views(uuids@);
        let mut i: usize = 0;
        assert(all.take(0) =~= Seq::empty());
        while i < uuids.len()
            invariant
                c == old(self)@,
                all == items::views(uuids@),
                i <= uuids@.len(),
                self.wf(),
                self@ == c.waits_named(all.take(i as int)),
            decreases uuids@.len() - i,
        {
            proof {
                assert(all.take(i + 1).drop_last() =~= all.take(i as int));
                assert(all.take(i + 1).last() == uuids@[i as int]@);
            }
            let name = self.absent_name(&uuids[i]);
            let left: i128 = self.pause_budget.remaining(&uuids[i]);
            let text = left_text("Waiting for ", name.as_str(), ". ", left);
            self.server_chat(None, text.as_str());
            i += 1;
        }
        assert(all.take(i as int) =~= all);
    }

    pub fn on_budget_event(&mut self, event: BudgetEvent)
        requires
            old(self).wf(),
        ensures
            final(self)@ == old(self)@.budget_told(event@),
            final(self).wf(),
    {
        proof {
            reveal(Ctx::budget_told);
        }
        match event {
            BudgetEvent::Expired { uuid } => {
                // Told to everyone: the one client that must hear this is the
                // pauser, whose overlay is still up.
                let name = self.name_of(&uuid);
                self.tell_pause(uuid, false);
                if let Some(name) = name {
                    let text = name_text(name.as_str(), " is out of pause budget.");
                    self.server_chat(None, text.as_str());
                }
            },
            BudgetEvent::Status { uuid, remaining } => {
                if let Some(name) = self.name_of(&uuid) {
                    let text = left_text("", name.as_str(), " is paused. ", remaining);
                    self.server_chat(None, text.as_str());
                }
            },
            BudgetEvent::CoordinatedStarted => self.server_chat(
                None,
                "Everyone is paused, so nobody's pause budget is draining.",
            ),
            BudgetEvent::CoordinatedEnded => self.server_chat(
                None,
                "Pause budgets are draining again.",
            ),
            BudgetEvent::AutoPauseStarted { uuids } => {
                let guid = self.server_uuid.clone();
                self.tell_pause(guid, true);
                self.name_waits(&uuids);
                self.checkpoints.prefetch = true;
            },
            BudgetEvent::AutoPauseEnded => {
                let guid = self.server_uuid.clone();
                self.tell_pause(guid, false);
                self.checkpoints.prefetch = false;
                self.server_chat(None, "Resuming.");
            },
            BudgetEvent::AbsentExpired { uuid } => {
                let name = self.absent_name(&uuid);
                let text = name_text(
                    name.as_str(),
                    " did not return in time and is out of pause budget.",
                );
                self.server_chat(None, text.as_str());
            },
            BudgetEvent::AbsentStatus { uuid, remaining } => {
                let name = self.absent_name(&uuid);
                let text = left_text("Waiting for ", name.as_str(), ". ", remaining);
                self.server_chat(None, text.as_str());
            },
        }
    }

    fn on_budget_events(&mut self, events: Vec<BudgetEvent>)
        requires
            old(self).wf(),
        ensures
            final(self)@ == old(self)@.budgets_told(items::views(events@)),
            final(self).wf(),
    {
        let ghost c = self@;
        let ghost all = items::views(events@);
        let mut events = events;
        let mut i: usize = 0;
        assert(all.take(0) =~= Seq::empty());
        while i < events.len()
            invariant
                c == old(self)@,
                events@.len() == all.len(),
                forall|j: int| i <= j < events@.len() ==> (#[trigger] events@[j])@ == all[j],
                i <= events@.len(),
                self.wf(),
                self@ == c.budgets_told(all.take(i as int)),
            decreases events@.len() - i,
        {
            proof {
                assert(all.take(i + 1).drop_last() =~= all.take(i as int));
                assert(all.take(i + 1).last() == all[i as int]);
                assert(events@[i as int]@ == all[i as int]);
            }
            let mut event = BudgetEvent::AutoPauseEnded;
            std::mem::swap(&mut event, &mut events[i]);
            self.on_budget_event(event);
            i += 1;
        }
        assert(all.take(i as int) =~= all);
    }

    fn check_budget(&mut self, phase: Phase, now: Time)
        requires
            old(self).wf(),
        ensures
            final(self)@ == old(self)@.budget_checked(phase, now),
            final(self).wf(),
    {
        proof {
            reveal(Ctx::budget_checked);
        }
        let players: usize = self.slots.connected_players();
        let absent: Vec<Guid> = if self.config.afk_pause && phase == Phase::InGame {
            self.afk_absent()
        } else {
            Vec::new()
        };
        proof {
            if !(self.config.afk_pause && phase == Phase::InGame) {
                assert(items::views(absent@) =~= Seq::empty());
            }
        }
        let events = self.pause_budget.check(now, players, &absent);
        self.on_budget_events(events);
    }

    fn report_on(&self, at: usize) -> (r: Option<WireMessage>)
        requires
            at < self@.sessions.len(),
        ensures
            utils::seen(r) == report_on(self@.sessions[at as int].1),
    {
        let s = &self.sessions.rows[at].1;
        assert(self@.sessions[at as int] == table::row_view(self.sessions.rows@[at as int]));
        if s.admitted.is_none() {
            return None;
        }
        let guid = match &s.uuid {
            Some(uuid) => uuid.clone(),
            None => return None,
        };
        match Monitor::classify(s.mean_rtt, s.since_last_received) {
            Some(Warning::Silent(since)) => Some(
                WireMessage::LastSeen(
                    LastSeen { guid, last_received_time: to_wire_ms(since) },
                ),
            ),
            Some(Warning::Lagging(rtt)) => {
                let entry = PerformanceEntry { guid, mean_rtt: to_wire_ms(rtt) };
                let ghost e = entry@;
                let mut clients: Vec<PerformanceEntry> = Vec::new();
                clients.push(entry);
                assert(items::views(clients@) =~= seq![e]);
                Some(WireMessage::LaggingClients(LaggingClients { clients }))
            },
            None => None,
        }
    }

    fn tell_timing(&mut self, phase: Phase)
        requires
            old(self).wf(),
        ensures
            final(self)@ == old(self)@.timing_told(phase, old(self)@.sessions),
            final(self).wf(),
    {
        let ghost c = self@;
        let ghost all = self@.sessions;
        let who = if phase == Phase::Setup {
            Audience::SetupOrInGame
        } else {
            Audience::InGame
        };
        let mut i: usize = 0;
        proof {
            reveal(Ctx::timing_told);
            assert(all.take(0) =~= Seq::empty());
        }
        while i < self.sessions.rows.len()
            invariant
                c == old(self)@,
                all == c.sessions,
                who == Ctx::report_audience(phase),
                self.wf(),
                self@ == (Ctx { effects: self@.effects, ..c }),
                i <= self.sessions.rows@.len() == all.len(),
                self@ == c.timing_told(phase, all.take(i as int)),
            decreases self.sessions.rows@.len() - i,
        {
            proof {
                reveal(Ctx::timing_told);
                assert(all[i as int] == table::row_view(self.sessions.rows@[i as int]));
                assert(all.take(i + 1).drop_last() =~= all.take(i as int));
                assert(all.take(i + 1).last() == all[i as int]);
            }
            let peer = self.sessions.rows[i].0;
            if let Some(msg) = self.report_on(i) {
                // The reported client is never told about itself.
                self.broadcast_except(peer, &msg, who);
            }
            i += 1;
        }
        assert(all.take(i as int) =~= all);
    }

    pub fn on_tick(&mut self, phase: Phase, now: Time, stats: &Vec<PeerStats>)
        requires
            old(self).wf(),
        ensures
            final(self)@ == old(self)@.ticked(phase, now, stats@),
            final(self).wf(),
    {
        proof {
            reveal(Ctx::ticked);
        }
        self.sample(stats);
        if self.idle_shutdown_due(now) {
            self.push_effect(Effect::GameOver);
        }
        if phase == Phase::InGame || phase == Phase::PostGame {
            self.check_budget(phase, now);
        }
        if self.monitor.due(now) {
            self.tell_timing(phase);
        }
    }
}

} // verus!
