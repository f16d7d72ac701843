//! What a game is measured by: the figures themselves, without the registry
//! they are published in.

use vstd::prelude::*;

use crate::clock::Time;
use crate::network_message::PeerID;
use crate::relay::messages::items;
use crate::relay::server_fsm::context::Ctx;
use crate::relay::server_fsm::event::Phase;
use crate::relay::server_fsm::phases::AnyServer;
use crate::relay::server_fsm::phases::AnyView;
use crate::relay::session::SessionView;
use crate::relay::slots;
use crate::table;
use crate::utils;

verus! {

/// Player names come from clients, so they are capped and rid of control
/// characters before they become part of a series' name.
pub const MAX_LABEL_LEN: usize = 64;

/// Whether a character is a control character.
pub open spec fn control(c: char) -> bool {
    (c as u32) < 0x20 || 0x7f <= (c as u32) <= 0x9f
}

/// A text's first characters.
pub open spec fn capped(s: Seq<char>) -> Seq<char> {
    if s.len() > MAX_LABEL_LEN {
        s.take(MAX_LABEL_LEN as int)
    } else {
        s
    }
}

/// What a name becomes as part of a series' name.
pub open spec fn label(value: Seq<char>) -> Seq<char> {
    capped(value.filter(|c: char| !control(c)))
}

pub fn sanitize_label(value: &str) -> (r: String)
    ensures
        r@ == label(value@),
{
    let chars = utils::chars_of(value);
    let ghost keep = |c: char| !control(c);
    let mut kept: Vec<char> = Vec::new();
    let mut i: usize = 0;
    proof {
        utils::lemma_filter_ends(chars@, keep);
    }
    while i < chars.len()
        invariant
            keep == (|c: char| !control(c)),
            i <= chars@.len(),
            kept@ == capped(chars@.take(i as int).filter(keep)),
        decreases chars@.len() - i,
    {
        proof {
            utils::lemma_filter_step(chars@, i as int, keep);
        }
        let ghost before = chars@.take(i as int).filter(keep);
        let c: char = chars[i];
        let code: u32 = c as u32;
        if !(code < 0x20 || (0x7f <= code && code <= 0x9f)) {
            if kept.len() < MAX_LABEL_LEN {
                kept.push(c);
                assert(kept@ =~= capped(before.push(c)));
            } else {
                assert(capped(before) =~= capped(before.push(c)));
            }
        }
        i += 1;
    }
    assert(chars@.take(i as int) =~= chars@);
    utils::text_of(kept.as_slice())
}

/// The number a phase is published as.
pub open spec fn phase_number(phase: Phase) -> i64 {
    match phase {
        Phase::Setup => 0,
        Phase::Loading => 1,
        Phase::InGame => 2,
        Phase::PostGame => 3,
    }
}

pub fn phase_value(phase: Phase) -> (r: i64)
    ensures
        r == phase_number(phase),
{
    match phase {
        Phase::Setup => 0,
        Phase::Loading => 1,
        Phase::InGame => 2,
        Phase::PostGame => 3,
    }
}

/// A game at one moment.
#[derive(Debug)]
pub struct GameSnapshot {
    pub phase: Phase,
    /// Sessions, authenticated or not.
    pub sessions: usize,
    /// Connected players who hold a slot, observers left out.
    pub players: usize,
    /// Clients who hold the match paused.
    pub paused: usize,
    pub ready_turn: u32,
    /// How many turns the delayed feed is behind.
    pub feed_lag: u32,
    /// Everyone who is admitted, by name.
    pub clients: Vec<(PeerID, String)>,
}

/// What [`GameSnapshot`] is.
pub struct SnapshotView {
    pub phase: Phase,
    pub sessions: nat,
    pub players: nat,
    pub paused: nat,
    pub ready_turn: u32,
    pub feed_lag: int,
    pub clients: Seq<(PeerID, Seq<char>)>,
}

/// Names by peer.
pub open spec fn named(s: Seq<(PeerID, String)>) -> Seq<(PeerID, Seq<char>)> {
    s.map_values(|p: (PeerID, String)| (p.0, p.1@))
}

impl View for GameSnapshot {
    type V = SnapshotView;

    open spec fn view(&self) -> SnapshotView {
        SnapshotView {
            phase: self.phase,
            sessions: self.sessions as nat,
            players: self.players as nat,
            paused: self.paused as nat,
            ready_turn: self.ready_turn,
            feed_lag: self.feed_lag as int,
            clients: named(self.clients@),
        }
    }
}

/// Everyone who is admitted, by name.
pub open spec fn admitted(sessions: Seq<(PeerID, SessionView)>) -> Seq<(PeerID, Seq<char>)>
    decreases sessions.len(),
{
    if sessions.len() == 0 {
        Seq::empty()
    } else {
        let before = admitted(sessions.drop_last());
        match sessions.last().1.name() {
            Some(name) => before.push((sessions.last().0, name)),
            None => before,
        }
    }
}

impl AnyView {
    /// The phase as clients see it.
    pub open spec fn phase(self) -> Phase {
        match self {
            AnyView::Loading { .. } => Phase::Loading,
            AnyView::InGame { .. } => Phase::InGame,
            AnyView::PostGame { .. } => Phase::PostGame,
            _ => Phase::Setup,
        }
    }
}

/// What a game at one moment is measured as.
pub open spec fn measured(phase: Phase, c: Ctx) -> SnapshotView {
    SnapshotView {
        phase,
        sessions: c.sessions.len(),
        players: slots::players_here(c.slots).len(),
        paused: c.pause_budget.pausing.len(),
        ready_turn: c.turns.ready,
        feed_lag: if c.turns.ready > c.feed.head {
            c.turns.ready - c.feed.head
        } else {
            0
        },
        clients: admitted(c.sessions),
    }
}

impl AnyServer {
    pub fn phase(&self) -> (r: Phase)
        ensures
            r == self@.phase(),
    {
        match self {
            AnyServer::Loading(_) => Phase::Loading,
            AnyServer::InGame(_) => Phase::InGame,
            AnyServer::PostGame(_) => Phase::PostGame,
            _ => Phase::Setup,
        }
    }

    fn clients(&self) -> (r: Vec<(PeerID, String)>)
        ensures
            named(r@) == admitted(self@.ctx().sessions),
    {
        let ctx = self.context();
        let ghost all = ctx@.sessions;
        let mut out: Vec<(PeerID, String)> = Vec::new();
        let mut i: usize = 0;
        proof {
            assert(all.take(0) =~= Seq::empty());
            assert(named(out@) =~= Seq::empty());
        }
        while i < ctx.sessions.rows.len()
            invariant
                all == ctx@.sessions,
                ctx@.sessions == ctx.sessions@,
                i <= ctx.sessions.rows@.len(),
                named(out@) == admitted(all.take(i as int)),
            decreases ctx.sessions.rows@.len() - i,
        {
            let ghost before = named(out@);
            proof {
                assert(all.take(i + 1).drop_last() =~= all.take(i as int));
                assert(all[i as int] == table::row_view(ctx.sessions.rows@[i as int]));
            }
            let row = &ctx.sessions.rows[i];
            if let Some(a) = &row.1.admitted {
                let name = utils::copy_text(a.name.as_str());
                let ghost n = name@;
                out.push((row.0, name));
                assert(named(out@) =~= before.push((row.0, n)));
            }
            i += 1;
        }
        assert(all.take(i as int) =~= all);
        out
    }

    /// The game as it is now.
    pub fn snapshot(&self) -> (r: GameSnapshot)
        ensures
            r@ == measured(self@.phase(), self@.ctx()),
    {
        let ctx = self.context();
        let ready: u32 = ctx.turns.ready;
        let head: u32 = ctx.feed.head;
        GameSnapshot {
            phase: self.phase(),
            sessions: ctx.sessions.rows.len(),
            players: ctx.slots.connected_players(),
            paused: ctx.pause_budget.pausing.len(),
            ready_turn: ready,
            feed_lag: if ready > head {
                ready - head
            } else {
                0
            },
            clients: self.clients(),
        }
    }
}

/// What a game has been measured as so far. The transport reports running
/// totals; what was last seen is kept, so each report adds only what is new.
#[derive(Debug)]
pub struct Tally {
    pub last_bytes: Option<(u32, u32)>,
    pub match_started: Option<Time>,
    pub last_turn: u32,
    pub ended: bool,
    /// The names that have series.
    pub names: Vec<String>,
}

/// What [`Tally`] is.
pub struct TallyView {
    pub last_bytes: Option<(u32, u32)>,
    pub match_started: Option<Time>,
    pub last_turn: u32,
    pub ended: bool,
    pub names: Seq<Seq<char>>,
}

impl View for Tally {
    type V = TallyView;

    open spec fn view(&self) -> TallyView {
        TallyView {
            last_bytes: self.last_bytes,
            match_started: self.match_started,
            last_turn: self.last_turn,
            ended: self.ended,
            names: items::views(self.names@),
        }
    }
}

/// What a total that wraps has grown by.
pub open spec fn grown(from: u32, to: u32) -> int {
    if to >= from {
        to - from
    } else {
        to - from + 0x1_0000_0000
    }
}

/// The names clients have as labels.
pub open spec fn labels(clients: Seq<(PeerID, Seq<char>)>) -> Seq<Seq<char>> {
    clients.map_values(|c: (PeerID, Seq<char>)| label(c.1))
}

/// The names that are gone.
pub open spec fn gone(before: Seq<Seq<char>>, now: Seq<Seq<char>>) -> Seq<Seq<char>> {
    before.filter(|n: Seq<char>| !now.contains(n))
}

impl TallyView {
    pub open spec fn new() -> TallyView {
        TallyView {
            last_bytes: None,
            match_started: None,
            last_turn: 0,
            ended: false,
            names: Seq::empty(),
        }
    }

    /// What the transport has carried since the last report. The first report
    /// counts from nothing.
    pub open spec fn carried(self, received: u32, sent: u32) -> (int, int) {
        let (r, s) = match self.last_bytes {
            Some(last) => last,
            None => (0, 0),
        };
        (grown(r, received), grown(s, sent))
    }

    /// After a look at the game. A match begins with its first turn on, and
    /// only the first look counts.
    pub open spec fn observed(self, snapshot: SnapshotView, now: Time) -> TallyView {
        TallyView {
            last_turn: snapshot.ready_turn,
            match_started: if self.match_started is None && (snapshot.phase == Phase::InGame
                || snapshot.phase == Phase::PostGame) {
                Some(now)
            } else {
                self.match_started
            },
            names: labels(snapshot.clients),
            ..self
        }
    }
}

fn labels_of(clients: &Vec<(PeerID, String)>) -> (r: Vec<String>)
    ensures
        items::views(r@) == labels(named(clients@)),
{
    let ghost all = named(clients@);
    let mut out: Vec<String> = Vec::new();
    let mut i: usize = 0;
    while i < clients.len()
        invariant
            all == named(clients@),
            i <= clients@.len(),
            out@.len() == i,
            forall|j: int| 0 <= j < i ==> (#[trigger] out@[j])@ == label(all[j].1),
        decreases clients@.len() - i,
    {
        assert(all[i as int] == (clients@[i as int].0, clients@[i as int].1@));
        out.push(sanitize_label(clients[i].1.as_str()));
        i += 1;
    }
    assert(items::views(out@) =~= labels(all));
    out
}

fn gone_names(before: &Vec<String>, now: &Vec<String>) -> (r: Vec<String>)
    ensures
        items::views(r@) == gone(items::views(before@), items::views(now@)),
{
    let ghost all = items::views(before@);
    let ghost present = items::views(now@);
    let ghost keep = |n: Seq<char>| !present.contains(n);
    let mut out: Vec<String> = Vec::new();
    let mut i: usize = 0;
    proof {
        utils::lemma_filter_ends(all, keep);
        assert(items::views(out@) =~= Seq::empty());
        assert(now@.map_values(|s: String| s@) =~= present);
    }
    while i < before.len()
        invariant
            all == items::views(before@),
            present == items::views(now@),
            present == now@.map_values(|s: String| s@),
            keep == (|n: Seq<char>| !present.contains(n)),
            i <= before@.len(),
            items::views(out@) == all.take(i as int).filter(keep),
        decreases before@.len() - i,
    {
        let ghost so_far = items::views(out@);
        proof {
            utils::lemma_filter_step(all, i as int, keep);
            assert(all[i as int] == before@[i as int]@);
        }
        if !utils::is_among(now, before[i].as_str()) {
            out.push(utils::copy_text(before[i].as_str()));
            assert(items::views(out@) =~= so_far.push(all[i as int]));
        }
        i += 1;
    }
    assert(all.take(i as int) =~= all);
    out
}

impl Tally {
    pub fn new() -> (r: Self)
        ensures
            r@ == TallyView::new(),
    {
        let names: Vec<String> = Vec::new();
        assert(items::views(names@) =~= Seq::empty());
        Tally { last_bytes: None, match_started: None, last_turn: 0, ended: false, names }
    }

    /// Whether the end is to be counted: only the first is, so that a game
    /// cannot be counted as ending twice.
    pub fn end(&mut self) -> (r: bool)
        ensures
            r == !old(self)@.ended,
            final(self)@ == (TallyView { ended: true, ..old(self)@ }),
    {
        let first = !self.ended;
        self.ended = true;
        first
    }

    /// What the transport has carried since the last report: received, sent.
    pub fn bytes(&mut self, received: u32, sent: u32) -> (r: (u64, u64))
        ensures
            (r.0 as int, r.1 as int) == old(self)@.carried(received, sent),
            final(self)@ == (TallyView { last_bytes: Some((received, sent)), ..old(self)@ }),
    {
        let (last_received, last_sent): (u32, u32) = match self.last_bytes {
            Some(last) => last,
            None => (0, 0),
        };
        self.last_bytes = Some((received, sent));
        (
            received.wrapping_sub(last_received) as u64,
            sent.wrapping_sub(last_sent) as u64,
        )
    }

    /// A look at the game: whose series are to be removed.
    pub fn observe(&mut self, snapshot: &GameSnapshot, now: Time) -> (r: Vec<String>)
        ensures
            items::views(r@) == gone(old(self)@.names, labels(snapshot@.clients)),
            final(self)@ == old(self)@.observed(snapshot@, now),
    {
        self.last_turn = snapshot.ready_turn;
        if self.match_started.is_none() && matches!(
            snapshot.phase,
            Phase::InGame | Phase::PostGame
        ) {
            self.match_started = Some(now);
        }
        let present = labels_of(&snapshot.clients);
        let left = gone_names(&self.names, &present);
        self.names = present;
        left
    }

    /// The match's figures, taken once: how long it ran in nanoseconds, unless
    /// the clock stepped backwards, and its last turn. None where no match ran.
    pub fn finish(&mut self, now: Time) -> (r: Option<(Option<i128>, u32)>)
        ensures
            r == match old(self)@.match_started {
                None => None,
                Some(started) => Some(
                    (
                        if now.instant() >= started.instant() {
                            Some((now.instant() - started.instant()) as i128)
                        } else {
                            None
                        },
                        old(self)@.last_turn,
                    ),
                ),
            },
            final(self)@ == (TallyView { match_started: None, ..old(self)@ }),
    {
        match self.match_started {
            None => None,
            Some(started) => {
                self.match_started = None;
                let elapsed: i128 = now.since(started);
                Some(
                    (
                        if elapsed >= 0 {
                            Some(elapsed)
                        } else {
                            None
                        },
                        self.last_turn,
                    ),
                )
            },
        }
    }
}

/// What two reports in a row count is what one would have: a total that wraps
/// between them loses nothing, as long as less than a whole turn of it passed.
pub proof fn reports_add_up(a: u32, b: u32, c: u32)
    requires
        grown(a, b) + grown(b, c) < 0x1_0000_0000,
    ensures
        grown(a, b) + grown(b, c) == grown(a, c),
{
}

} // verus!
