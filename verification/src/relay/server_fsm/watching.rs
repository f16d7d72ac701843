//! What the passing of time makes clients see.

use vstd::prelude::*;

use crate::clock;
use crate::clock::Time;
use crate::network_message::PeerID;
use crate::relay::messages::LaggingClientsView;
use crate::relay::messages::LastSeenView;
use crate::relay::messages::PerformanceEntryView;
use crate::relay::messages::PlayerPauseView;
use crate::relay::messages::WireMessageView;
use crate::relay::monitor::PeerStats;
use crate::relay::pause_budget::BudgetEventView;
use crate::relay::server_fsm::context;
use crate::relay::server_fsm::context::Audience;
use crate::relay::server_fsm::context::Ctx;
use crate::relay::server_fsm::delivery;
use crate::relay::server_fsm::event::EffectView;
use crate::relay::server_fsm::event::Phase;
use crate::relay::server_fsm::laws;
use crate::relay::server_fsm::preparing;
use crate::relay::server_fsm::timing;
use crate::relay::session::Role;
use crate::relay::session::SessionView;
use crate::relay::slots::SlotView;
use crate::table;

verus! {

/// Whether these messages are lines the relay speaks itself.
pub open spec fn all_spoken(msgs: Seq<WireMessageView>, relay: Seq<char>) -> bool {
    forall|i: int|
        0 <= i < msgs.len() ==> ((#[trigger] msgs[i]) matches WireMessageView::Chat(m)
            && m.sender_guid == relay && m.receivers.len() == 0)
}

/// Whether all that was added is something to be sent.
pub open spec fn only_sends(before: Seq<EffectView>, after: Seq<EffectView>) -> bool {
    &&& laws::grows(before, after)
    &&& forall|i: int| before.len() <= i < after.len() ==> (#[trigger] after[i]) is Send
}

proof fn lemma_only_sends_then(a: Seq<EffectView>, b: Seq<EffectView>, c: Seq<EffectView>)
    requires
        only_sends(a, b),
        only_sends(b, c),
    ensures
        only_sends(a, c),
{
    assert forall|i: int| a.len() <= i < c.len() implies (#[trigger] c[i]) is Send by {
        if i < b.len() {
            assert(c[i] == b[i]);
        }
    }
    assert(laws::grows(a, c));
}

impl Ctx {
    proof fn lemma_sends_only(self, peers: Seq<PeerID>, msg: WireMessageView)
        ensures
            only_sends(self.effects, self.sent_to(peers, msg).effects),
    {
        let more = context::sends(peers, msg);
        let all = self.effects + more;
        assert forall|i: int| self.effects.len() <= i < all.len() implies (#[trigger] all[i])
            is Send by {
            assert(all[i] == more[i - self.effects.len()]);
        }
        assert(laws::grows(self.effects, all));
    }

    proof fn lemma_says_only(self, to: Option<PeerID>, text: Seq<char>)
        ensures
            only_sends(self.effects, self.said(to, text).effects),
            self.said(to, text) == (Ctx { effects: self.said(to, text).effects, ..self }),
    {
        reveal(Ctx::said);
        match to {
            Some(p) => {
                assert(self.effects.push(
                    EffectView::Send { peer: p, msg: self.chat_line(text) },
                ).take(self.effects.len() as int) =~= self.effects);
            },
            None => {
                let peers = context::hearing(self.sessions, Audience::Admitted, None);
                self.lemma_sends_only(peers, self.chat_line(text));
            },
        }
    }

    proof fn lemma_waits_named(self, uuids: Seq<Seq<char>>, p: PeerID)
        requires
            table::distinct(self.sessions),
        ensures
            ({
                let later = self.waits_named(uuids);
                &&& later == (Ctx { effects: later.effects, ..self })
                &&& only_sends(self.effects, later.effects)
                &&& preparing::is_admitted(self.sessions, p) ==> self.hears(later, p).len()
                    == uuids.len()
                &&& all_spoken(self.hears(later, p), self.server_uuid)
            }),
        decreases uuids.len(),
    {
        if uuids.len() > 0 {
            let rest = uuids.drop_last();
            self.lemma_waits_named(rest, p);
            let before = self.waits_named(rest);
            let text = timing::left_line(
                "Waiting for "@,
                before.absent_name(uuids.last()),
                ". "@,
                before.pause_budget.remaining(uuids.last()) as int,
            );
            before.lemma_says_only(None, text);
            before.lemma_said_heard(None, text, p);
            let later = before.said(None, text);
            lemma_only_sends_then(self.effects, before.effects, later.effects);
            self.lemma_hears_then(before, later, p);
        } else {
            assert(self.effects.skip(self.effects.len() as int) =~= Seq::empty());
        }
    }

    proof fn lemma_pause_line(self, guid: Seq<char>, pause: bool, p: PeerID)
        requires
            table::distinct(self.sessions),
        ensures
            ({
                let later = self.pause_line(guid, pause);
                &&& later == (Ctx { effects: later.effects, ..self })
                &&& only_sends(self.effects, later.effects)
                &&& self.hears(later, p) == (if delivery::in_match(self.sessions, p) {
                    seq![WireMessageView::PlayerPause(PlayerPauseView { guid, pause })]
                } else {
                    Seq::empty()
                })
            }),
    {
        let msg = WireMessageView::PlayerPause(PlayerPauseView { guid, pause });
        self.lemma_heard(Audience::InGame, None, msg, p);
        self.lemma_sends_only(context::hearing(self.sessions, Audience::InGame, None), msg);
    }

    /// What everyone in the match hears of the pause quotas: that a pause has
    /// run out is told by lifting it, that the match is held for someone by a
    /// pause of the relay's own with a line on each of those it waits for, and
    /// that it goes on by lifting that. All else is only lines the relay speaks.
    pub proof fn quotas_are_announced(self, event: BudgetEventView, p: PeerID)
        requires
            table::distinct(self.sessions),
            delivery::in_match(self.sessions, p),
        ensures
            ({
                let later = self.budget_told(event);
                let heard = self.hears(later, p);
                &&& only_sends(self.effects, later.effects)
                &&& later.sessions == self.sessions
                &&& later.pause_budget == self.pause_budget
                &&& match event {
                    BudgetEventView::Expired { uuid } => {
                        &&& heard.len() > 0
                        &&& heard[0] == WireMessageView::PlayerPause(
                            PlayerPauseView { guid: uuid, pause: false },
                        )
                        &&& all_spoken(heard.skip(1), self.server_uuid)
                    },
                    BudgetEventView::AutoPauseStarted { uuids } => {
                        &&& heard.len() == 1 + uuids.len()
                        &&& heard[0] == WireMessageView::PlayerPause(
                            PlayerPauseView { guid: self.server_uuid, pause: true },
                        )
                        &&& all_spoken(heard.skip(1), self.server_uuid)
                        &&& later.checkpoints.prefetch
                    },
                    BudgetEventView::AutoPauseEnded => {
                        &&& heard.len() == 2
                        &&& heard[0] == WireMessageView::PlayerPause(
                            PlayerPauseView { guid: self.server_uuid, pause: false },
                        )
                        &&& all_spoken(heard.skip(1), self.server_uuid)
                        &&& !later.checkpoints.prefetch
                    },
                    BudgetEventView::CoordinatedStarted => heard.len() == 1 && all_spoken(
                        heard,
                        self.server_uuid,
                    ),
                    BudgetEventView::CoordinatedEnded => heard.len() == 1 && all_spoken(
                        heard,
                        self.server_uuid,
                    ),
                    BudgetEventView::AbsentExpired { .. } => heard.len() == 1 && all_spoken(
                        heard,
                        self.server_uuid,
                    ),
                    BudgetEventView::AbsentStatus { .. } => heard.len() == 1 && all_spoken(
                        heard,
                        self.server_uuid,
                    ),
                    BudgetEventView::Status { .. } => all_spoken(heard, self.server_uuid),
                }
            }),
    {
        reveal(Ctx::budget_told);
        let none = self.effects.skip(self.effects.len() as int);
        assert(none =~= Seq::empty());
        assert(delivery::told(none, p) =~= Seq::empty());
        match event {
            BudgetEventView::Expired { uuid } => {
                self.lemma_pause_line(uuid, false, p);
                let lifted = self.pause_line(uuid, false);
                if let Some(name) = self.name_of(uuid) {
                    let text = name + " is out of pause budget."@;
                    self.lemma_then_said(lifted, text, p);
                }
            },
            BudgetEventView::Status { uuid, remaining } => {
                if let Some(name) = self.name_of(uuid) {
                    let text = timing::left_line(""@, name, " is paused. "@, remaining as int);
                    self.lemma_says_only(None, text);
                    self.lemma_said_heard(None, text, p);
                }
            },
            BudgetEventView::CoordinatedStarted => {
                let text = "Everyone is paused, so nobody's pause budget is draining."@;
                self.lemma_says_only(None, text);
                self.lemma_said_heard(None, text, p);
            },
            BudgetEventView::CoordinatedEnded => {
                let text = "Pause budgets are draining again."@;
                self.lemma_says_only(None, text);
                self.lemma_said_heard(None, text, p);
            },
            BudgetEventView::AutoPauseStarted { uuids } => {
                self.lemma_pause_line(self.server_uuid, true, p);
                let held = self.pause_line(self.server_uuid, true);
                held.lemma_waits_named(uuids, p);
                let named = held.waits_named(uuids);
                lemma_only_sends_then(self.effects, held.effects, named.effects);
                self.lemma_hears_then(held, named, p);
                let later = named.prefetching(true);
                assert(self.hears(later, p) == self.hears(named, p));
                assert(self.hears(later, p).skip(1) =~= held.hears(named, p));
            },
            BudgetEventView::AutoPauseEnded => {
                self.lemma_pause_line(self.server_uuid, false, p);
                let on = self.pause_line(self.server_uuid, false).prefetching(false);
                self.lemma_then_said(on, "Resuming."@, p);
            },
            BudgetEventView::AbsentExpired { uuid } => {
                let text = self.absent_name(uuid)
                    + " did not return in time and is out of pause budget."@;
                self.lemma_says_only(None, text);
                self.lemma_said_heard(None, text, p);
            },
            BudgetEventView::AbsentStatus { uuid, remaining } => {
                let text = timing::left_line(
                    "Waiting for "@,
                    self.absent_name(uuid),
                    ". "@,
                    remaining as int,
                );
                self.lemma_says_only(None, text);
                self.lemma_said_heard(None, text, p);
            },
        }
    }

    proof fn lemma_then_said(self, mid: Ctx, text: Seq<char>, p: PeerID)
        requires
            table::distinct(self.sessions),
            delivery::in_match(self.sessions, p),
            mid.sessions == self.sessions,
            mid.server_uuid == self.server_uuid,
            only_sends(self.effects, mid.effects),
            self.hears(mid, p).len() == 1,
        ensures
            ({
                let later = mid.said(None, text);
                let heard = self.hears(later, p);
                &&& later == (Ctx { effects: later.effects, ..mid })
                &&& only_sends(self.effects, later.effects)
                &&& heard.len() == 2
                &&& heard[0] == self.hears(mid, p)[0]
                &&& all_spoken(heard.skip(1), self.server_uuid)
            }),
    {
        let later = mid.said(None, text);
        mid.lemma_says_only(None, text);
        mid.lemma_said_heard(None, text, p);
        lemma_only_sends_then(self.effects, mid.effects, later.effects);
        self.lemma_hears_then(mid, later, p);
        assert(self.hears(later, p).skip(1) =~= mid.hears(later, p));
    }

    proof fn lemma_budgets_told(self, events: Seq<BudgetEventView>)
        ensures
            only_sends(self.effects, self.budgets_told(events).effects),
            self.budgets_told(events).sessions == self.sessions,
            self.budgets_told(events).monitor == self.monitor,
        decreases events.len(),
    {
        if events.len() > 0 {
            let before = self.budgets_told(events.drop_last());
            self.lemma_budgets_told(events.drop_last());
            before.lemma_budget_only(events.last());
            lemma_only_sends_then(
                self.effects,
                before.effects,
                before.budget_told(events.last()).effects,
            );
        }
    }

    proof fn lemma_budget_only(self, event: BudgetEventView)
        ensures
            only_sends(self.effects, self.budget_told(event).effects),
            self.budget_told(event).sessions == self.sessions,
            self.budget_told(event).monitor == self.monitor,
    {
        reveal(Ctx::budget_told);
        match event {
            BudgetEventView::Expired { uuid } => {
                let msg = WireMessageView::PlayerPause(
                    PlayerPauseView { guid: uuid, pause: false },
                );
                self.lemma_sends_only(
                    context::hearing(self.sessions, Audience::InGame, None),
                    msg,
                );
                let lifted = self.pause_line(uuid, false);
                if let Some(name) = self.name_of(uuid) {
                    let text = name + " is out of pause budget."@;
                    lifted.lemma_says_only(None, text);
                    lemma_only_sends_then(
                        self.effects,
                        lifted.effects,
                        lifted.said(None, text).effects,
                    );
                }
            },
            BudgetEventView::Status { uuid, remaining } => {
                if let Some(name) = self.name_of(uuid) {
                    self.lemma_says_only(
                        None,
                        timing::left_line(""@, name, " is paused. "@, remaining as int),
                    );
                }
            },
            BudgetEventView::CoordinatedStarted => {
                self.lemma_says_only(
                    None,
                    "Everyone is paused, so nobody's pause budget is draining."@,
                );
            },
            BudgetEventView::CoordinatedEnded => {
                self.lemma_says_only(None, "Pause budgets are draining again."@);
            },
            BudgetEventView::AutoPauseStarted { uuids } => {
                let msg = WireMessageView::PlayerPause(
                    PlayerPauseView { guid: self.server_uuid, pause: true },
                );
                self.lemma_sends_only(
                    context::hearing(self.sessions, Audience::InGame, None),
                    msg,
                );
                let held = self.pause_line(self.server_uuid, true);
                held.lemma_waits_only(uuids);
                lemma_only_sends_then(
                    self.effects,
                    held.effects,
                    held.waits_named(uuids).effects,
                );
            },
            BudgetEventView::AutoPauseEnded => {
                let msg = WireMessageView::PlayerPause(
                    PlayerPauseView { guid: self.server_uuid, pause: false },
                );
                self.lemma_sends_only(
                    context::hearing(self.sessions, Audience::InGame, None),
                    msg,
                );
                let on = self.pause_line(self.server_uuid, false).prefetching(false);
                on.lemma_says_only(None, "Resuming."@);
                lemma_only_sends_then(
                    self.effects,
                    on.effects,
                    on.said(None, "Resuming."@).effects,
                );
            },
            BudgetEventView::AbsentExpired { uuid } => {
                self.lemma_says_only(
                    None,
                    self.absent_name(uuid)
                        + " did not return in time and is out of pause budget."@,
                );
            },
            BudgetEventView::AbsentStatus { uuid, remaining } => {
                self.lemma_says_only(
                    None,
                    timing::left_line(
                        "Waiting for "@,
                        self.absent_name(uuid),
                        ". "@,
                        remaining as int,
                    ),
                );
            },
        }
    }

    proof fn lemma_waits_only(self, uuids: Seq<Seq<char>>)
        ensures
            only_sends(self.effects, self.waits_named(uuids).effects),
            self.waits_named(uuids) == (Ctx {
                effects: self.waits_named(uuids).effects,
                ..self
            }),
        decreases uuids.len(),
    {
        if uuids.len() > 0 {
            let rest = uuids.drop_last();
            self.lemma_waits_only(rest);
            let before = self.waits_named(rest);
            let text = timing::left_line(
                "Waiting for "@,
                before.absent_name(uuids.last()),
                ". "@,
                before.pause_budget.remaining(uuids.last()) as int,
            );
            before.lemma_says_only(None, text);
            lemma_only_sends_then(
                self.effects,
                before.effects,
                before.said(None, text).effects,
            );
        }
    }
}

/// What others are told of a session: how long it has been silent, and only if
/// it is not, how far it lags. The limits are in milliseconds.
pub open spec fn warns_of(msg: WireMessageView, s: SessionView) -> bool {
    s.admitted is Some && (s.uuid matches Some(guid) && if s.since_last_received > 2000 {
        msg == WireMessageView::LastSeen(
            LastSeenView { guid, last_received_time: s.since_last_received as u32 },
        )
    } else {
        s.mean_rtt > 400 && msg == WireMessageView::LaggingClients(
            LaggingClientsView {
                clients: seq![PerformanceEntryView { guid, mean_rtt: s.mean_rtt as u32 }],
            },
        )
    })
}

/// Whether a session is worth a warning.
pub open spec fn is_warned_of(s: SessionView) -> bool {
    s.admitted is Some && s.uuid is Some && (s.since_last_received > 2000 || s.mean_rtt > 400)
}

/// Whether a peer hears of how others are connected: everyone in the match, and
/// before there is one everyone in setup too.
pub open spec fn hears_warnings(
    sessions: Seq<(PeerID, SessionView)>,
    phase: Phase,
    p: PeerID,
) -> bool {
    table::lookup(sessions, p) matches Some(s) && s.admitted matches Some(a) && (a.role
        == Role::InGame || (a.role == Role::Setup && phase == Phase::Setup))
}

impl Ctx {
    /// Everyone who hears of how others are connected is warned of each other
    /// session that is silent or lags, and of nobody else, never of themselves.
    pub proof fn warnings_reach_the_others(
        self,
        phase: Phase,
        rows: Seq<(PeerID, SessionView)>,
        p: PeerID,
    )
        requires
            table::distinct(self.sessions),
        ensures
            ({
                let later = self.timing_told(phase, rows);
                let heard = self.hears(later, p);
                &&& later == (Ctx { effects: later.effects, ..self })
                &&& only_sends(self.effects, later.effects)
                &&& forall|i: int|
                    0 <= i < rows.len() && (#[trigger] rows[i]).0 != p && is_warned_of(rows[i].1)
                        && hears_warnings(self.sessions, phase, p) ==> exists|k: int|
                        0 <= k < heard.len() && warns_of(#[trigger] heard[k], rows[i].1)
                &&& forall|k: int|
                    0 <= k < heard.len() ==> exists|i: int|
                        0 <= i < rows.len() && (#[trigger] rows[i]).0 != p && warns_of(
                            #[trigger] heard[k],
                            rows[i].1,
                        )
            }),
        decreases rows.len(),
    {
        reveal_with_fuel(Ctx::timing_told, 2);
        if rows.len() > 0 {
            let rest = rows.drop_last();
            let last = rows.last();
            self.warnings_reach_the_others(phase, rest, p);
            let before = self.timing_told(phase, rest);
            let later = self.timing_told(phase, rows);
            let heard = self.hears(before, p);
            let now = self.hears(later, p);
            let who = Self::report_audience(phase);
            let sent = timing::report_on(last.1) is Some;
            assert(sent == is_warned_of(last.1));
            if let Some(msg) = timing::report_on(last.1) {
                assert(warns_of(msg, last.1));
                before.lemma_heard(who, Some(last.0), msg, p);
                before.lemma_sends_only(
                    context::hearing(self.sessions, who, Some(last.0)),
                    msg,
                );
                lemma_only_sends_then(self.effects, before.effects, later.effects);
                self.lemma_hears_then(before, later, p);
            }
            assert(now.len() >= heard.len() && forall|k: int|
                0 <= k < heard.len() ==> now[k] == heard[k]);
            assert forall|i: int|
                0 <= i < rows.len() && (#[trigger] rows[i]).0 != p && is_warned_of(rows[i].1)
                    && hears_warnings(self.sessions, phase, p) implies exists|k: int|
                0 <= k < now.len() && warns_of(#[trigger] now[k], rows[i].1) by {
                if i < rest.len() {
                    assert(rest[i] == rows[i]);
                    let k = choose|k: int|
                        0 <= k < heard.len() && warns_of(#[trigger] heard[k], rows[i].1);
                    assert(now[k] == heard[k]);
                } else {
                    assert(warns_of(now[heard.len() as int], rows[i].1));
                }
            }
            assert forall|k: int| 0 <= k < now.len() implies exists|i: int|
                0 <= i < rows.len() && (#[trigger] rows[i]).0 != p && warns_of(
                    #[trigger] now[k],
                    rows[i].1,
                ) by {
                if k < heard.len() {
                    assert(now[k] == heard[k]);
                    let i = choose|i: int|
                        0 <= i < rest.len() && (#[trigger] rest[i]).0 != p && warns_of(
                            heard[k],
                            rest[i].1,
                        );
                    assert(rows[i] == rest[i]);
                    assert(warns_of(now[k], rows[i].1));
                } else {
                    assert(rows[rows.len() - 1] == last);
                    assert(warns_of(now[k], rows[rows.len() - 1].1));
                }
            }
        } else {
            assert(self.effects.skip(self.effects.len() as int) =~= Seq::empty());
        }
    }

    /// A game closes on its own exactly when that is asked for, nobody but the
    /// AI host is admitted, and nobody has been for the whole timeout; before
    /// anyone ever was, the timeout runs from its first tick. A clock that
    /// stepped back begins the wait anew.
    pub proof fn unused_games_close(self, phase: Phase, now: Time, stats: Seq<PeerStats>)
        ensures
            ({
                let later = self.ticked(phase, now, stats);
                let n = self.effects.len() as int;
                let here = timing::sampled(self.sessions, stats);
                let used = exists|i: int|
                    0 <= i < here.len() && (#[trigger] here[i]).1.admitted is Some && !(self.ai_host
                        matches Some(ai) && ai.peer == Some(here[i].0));
                let since = if self.next_client_id > 1 {
                    self.empty_since
                } else {
                    self.created_at
                };
                let start = match since {
                    Some(t) => t.instant(),
                    None => now.instant(),
                };
                let over = self.config.idle_shutdown matches Some(timeout) && !used && start
                    <= now.instant() && now.instant() - start >= clock::ms(timeout);
                &&& laws::grows(self.effects, later.effects)
                &&& over ==> later.effects.len() > n && later.effects[n] == EffectView::GameOver
                &&& over ==> forall|i: int| n < i < later.effects.len() ==> (
                #[trigger] later.effects[i]) is Send
                &&& !over ==> only_sends(self.effects, later.effects)
            }),
    {
        reveal(Ctx::ticked);
        reveal(Ctx::budget_checked);
        let seen = Ctx { sessions: timing::sampled(self.sessions, stats), ..self };
        let here = seen.sessions;
        assert(seen.anyone_admitted() == exists|i: int|
            0 <= i < here.len() && (#[trigger] here[i]).1.admitted is Some && !(self.ai_host matches
                Some(ai) && ai.peer == Some(here[i].0))) by {
            if seen.anyone_admitted() {
                let i = choose|i: int|
                    0 <= i < here.len() && (#[trigger] here[i]).1.admitted is Some
                        && !seen.is_ai_host(here[i].0);
                assert(here[i].1.admitted is Some);
            }
        }
        let (over, idle) = seen.idled(now);
        let closing = if over {
            idle.doing(EffectView::GameOver)
        } else {
            idle
        };
        let charged = if phase == Phase::InGame || phase == Phase::PostGame {
            closing.budget_checked(phase, now)
        } else {
            closing
        };
        if phase == Phase::InGame || phase == Phase::PostGame {
            let players = crate::relay::slots::players_here(closing.slots).len() as usize;
            let absent = if closing.config.afk_pause && phase == Phase::InGame {
                closing.absent()
            } else {
                Seq::empty()
            };
            let (quotas, events) = closing.pause_budget.checked(now, players, absent);
            Ctx { pause_budget: quotas, ..closing }.lemma_budgets_told(events);
        } else {
            assert(only_sends(closing.effects, charged.effects));
        }
        let (due, monitor) = charged.monitor.after(now);
        let watched = Ctx { monitor, ..charged };
        let later = self.ticked(phase, now, stats);
        watched.lemma_timing_only(phase, watched.sessions);
        if due {
            lemma_only_sends_then(closing.effects, charged.effects, later.effects);
        }
        assert(only_sends(closing.effects, later.effects));
        if over {
            let n = self.effects.len() as int;
            assert(closing.effects == self.effects.push(EffectView::GameOver));
            assert(later.effects[n] == closing.effects[n]);
            assert(later.effects.take(n) =~= closing.effects.take(n));
        }
    }

    proof fn lemma_timing_only(self, phase: Phase, rows: Seq<(PeerID, SessionView)>)
        ensures
            only_sends(self.effects, self.timing_told(phase, rows).effects),
            self.timing_told(phase, rows) == (Ctx {
                effects: self.timing_told(phase, rows).effects,
                ..self
            }),
        decreases rows.len(),
    {
        reveal_with_fuel(Ctx::timing_told, 2);
        if rows.len() > 0 {
            let before = self.timing_told(phase, rows.drop_last());
            self.lemma_timing_only(phase, rows.drop_last());
            if let Some(msg) = timing::report_on(rows.last().1) {
                before.lemma_sends_only(
                    context::hearing(
                        self.sessions,
                        Self::report_audience(phase),
                        Some(rows.last().0),
                    ),
                    msg,
                );
                lemma_only_sends_then(
                    self.effects,
                    before.effects,
                    self.timing_told(phase, rows).effects,
                );
            }
        }
    }

    /// The match is held for a player who left, as long as they have not
    /// resigned or been removed and their quota is not spent; never for one who
    /// is here and was heard from lately, nor for an observer.
    pub proof fn the_missing_are_waited_for(self, i: int)
        requires
            table::distinct(self.slots),
            0 <= i < self.slots.len(),
        ensures
            ({
                let (uuid, e) = self.slots[i];
                let out = e.slot == -1 || self.forfeited.contains(uuid) || self.resigned.contains(
                    e.slot as i32,
                ) || self.pause_budget.remaining(uuid) <= 0;
                let session = context::session_with(self.sessions, uuid);
                &&& out ==> !self.absent().contains(uuid)
                &&& !out && session is None ==> self.absent().contains(uuid)
                &&& (e.connected && (session matches Some(row) && row.1.admitted matches Some(a)
                    && a.role == Role::InGame && row.1.since_last_received <= 10_000))
                    ==> !self.absent().contains(uuid)
            }),
    {
        let (uuid, e) = self.slots[i];
        let pick = |row: (Seq<char>, SlotView)| self.is_absent(row);
        lemma_picked(self.slots, pick, i);
    }
}

proof fn lemma_picked(
    rows: Seq<(Seq<char>, SlotView)>,
    pick: spec_fn((Seq<char>, SlotView)) -> bool,
    i: int,
)
    requires
        table::distinct(rows),
        0 <= i < rows.len(),
    ensures
        rows.filter(pick).map_values(|row: (Seq<char>, SlotView)| row.0).contains(rows[i].0)
            == pick(rows[i]),
{
    let key = |row: (Seq<char>, SlotView)| row.0;
    let left = rows.filter(pick);
    let keys = left.map_values(key);
    broadcast use vstd::seq_lib::group_filter_ensures;

    if pick(rows[i]) {
        assert(left.contains(rows[i]));
        let k = choose|k: int| 0 <= k < left.len() && left[k] == rows[i];
        assert(keys[k] == rows[i].0);
    }
    if keys.contains(rows[i].0) {
        let k = choose|k: int| 0 <= k < keys.len() && keys[k] == rows[i].0;
        assert(left.contains(left[k]));
        rows.lemma_filter_contains_rev(pick, left[k]);
        rows.lemma_filter_pred(pick, k);
        let j = choose|j: int| 0 <= j < rows.len() && rows[j] == left[k];
        assert(rows[j].0 == rows[i].0);
        assert(i == j);
    }
}

} // verus!
