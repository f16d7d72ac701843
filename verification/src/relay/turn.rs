//! When a turn may be simulated, and whether everyone simulated the same.

use vstd::prelude::*;

use crate::network_message::PeerID;
use crate::relay::fault::PeerFault;
use crate::relay::messages::items;
use crate::relay::messages::PlayerCommand;
use crate::relay::messages::PlayerCommandView;
use crate::table;
use crate::table::Key;
use crate::table::Table;
use crate::utils;

verus! {

/// The turn everyone may simulate through when a match begins.
pub const INITIAL_READY_TURN: u32 = 3;

/// A client seals this many turns ahead of the one it is about to simulate.
pub const COMMAND_DELAY: u32 = 4;

/// The last turn that can be released. The seal after the furthest that may
/// then be sent has the largest turn number there is.
pub const LAST_TURN: u32 = 0xffff_fffa;

impl Key for u32 {
    fn same(&self, other: &Self) -> (r: bool) {
        *self == *other
    }
}

/// How far one client of a running match has come.
#[derive(Debug, Clone, Copy, PartialEq, Eq, Structural)]
pub struct TurnClient {
    pub client_id: u16,
    /// The last turn it sealed: its commands up to there are all in.
    pub sealed: u32,
    /// The last turn it reported a state hash for.
    pub simulated: u32,
    pub observer: bool,
    /// On the delayed feed, so it neither holds anyone up nor takes part in
    /// the comparison.
    pub delayed: bool,
    /// The AI host's state carries the AI's own, so its hash is no one's.
    pub ai_host: bool,
    pub out_of_sync: bool,
}

impl View for TurnClient {
    type V = TurnClient;

    open spec fn view(&self) -> TurnClient {
        *self
    }
}

/// A state hash that has not been compared yet.
#[derive(Debug)]
pub struct Report {
    pub turn: u32,
    pub peer: PeerID,
    pub hash: Vec<u8>,
}

/// What [`Report`] is.
pub struct ReportView {
    pub turn: u32,
    pub peer: PeerID,
    pub hash: Seq<u8>,
}

impl View for Report {
    type V = ReportView;

    open spec fn view(&self) -> ReportView {
        ReportView { turn: self.turn, peer: self.peer, hash: self.hash@ }
    }
}

/// Clients that did not agree on the state of a turn.
#[derive(Debug)]
pub struct HashMismatch {
    pub turn: u32,
    pub mismatched: Vec<PeerID>,
    pub reference: Vec<u8>,
    /// Who is told; None for everyone in the match.
    pub recipient: Option<PeerID>,
}

/// What [`HashMismatch`] is.
pub struct HashMismatchView {
    pub turn: u32,
    pub mismatched: Seq<PeerID>,
    pub reference: Seq<u8>,
    pub recipient: Option<PeerID>,
}

impl View for HashMismatch {
    type V = HashMismatchView;

    open spec fn view(&self) -> HashMismatchView {
        HashMismatchView {
            turn: self.turn,
            mismatched: self.mismatched@,
            reference: self.reference@,
            recipient: self.recipient,
        }
    }
}

/// The clients of a running match and the turn they may simulate through.
#[derive(Debug)]
pub struct TurnManager {
    pub clients: Table<PeerID, TurnClient>,
    pub ready: u32,
    pub reports: Vec<Report>,
    pub references: Table<u32, Vec<u8>>,
}

/// What [`TurnManager`] is.
pub struct Turns {
    pub clients: Seq<(PeerID, TurnClient)>,
    pub ready: u32,
    pub reports: Seq<ReportView>,
    pub references: Seq<(u32, Seq<u8>)>,
}

impl View for TurnManager {
    type V = Turns;

    open spec fn view(&self) -> Turns {
        Turns {
            clients: self.clients@,
            ready: self.ready,
            reports: items::views(self.reports@),
            references: self.references@,
        }
    }
}

impl TurnClient {
    pub open spec fn wf(self) -> bool {
        &&& self.sealed <= LAST_TURN + COMMAND_DELAY
        &&& self.simulated <= LAST_TURN
    }

    /// Whether the match waits for this client to seal a turn. An observer
    /// holds it up only once it lags further behind than the limit.
    pub open spec fn awaited(self, turn: int, lag_limit: Option<u32>) -> bool {
        if self.delayed {
            false
        } else if self.observer {
            match lag_limit {
                Some(limit) => turn - self.sealed > limit,
                None => false,
            }
        } else {
            true
        }
    }

    /// Whether its hashes are compared before a reference is settled.
    pub open spec fn compared(self) -> bool {
        !self.delayed && !self.ai_host
    }
}

pub open spec fn clients_wf(clients: Seq<(PeerID, TurnClient)>) -> bool {
    forall|i: int| 0 <= i < clients.len() ==> (#[trigger] clients[i]).1.wf()
}

/// Whether everyone the match waits for has sealed the turn, and someone has.
pub open spec fn may_release(
    clients: Seq<(PeerID, TurnClient)>,
    turn: int,
    lag_limit: Option<u32>,
) -> bool {
    &&& forall|i: int|
        0 <= i < clients.len() ==> {
            let c = (#[trigger] clients[i]).1;
            c.awaited(turn, lag_limit) ==> c.sealed >= turn
        }
    &&& exists|i: int|
        0 <= i < clients.len() && !(#[trigger] clients[i]).1.delayed && clients[i].1.sealed
            >= turn
}

/// The last turn that may be released.
pub open spec fn released_through(
    clients: Seq<(PeerID, TurnClient)>,
    ready: u32,
    lag_limit: Option<u32>,
) -> u32
    decreases LAST_TURN - ready,
{
    if ready < LAST_TURN && may_release(clients, ready + 1, lag_limit) {
        released_through(clients, (ready + 1) as u32, lag_limit)
    } else {
        ready
    }
}

/// The turn through which everyone whose hashes are compared has reported.
pub open spec fn reported_through(clients: Seq<(PeerID, TurnClient)>, ready: u32) -> u32
    decreases clients.len(),
{
    if clients.len() == 0 {
        ready
    } else {
        let rest = reported_through(clients.drop_last(), ready);
        let c = clients.last().1;
        if c.compared() && c.simulated < rest {
            c.simulated
        } else {
            rest
        }
    }
}

/// The first report of a turn that everyone has reached.
pub open spec fn first_complete(reports: Seq<ReportView>, through: u32) -> Option<ReportView>
    decreases reports.len(),
{
    if reports.len() == 0 {
        None
    } else if reports[0].turn <= through {
        Some(reports[0])
    } else {
        first_complete(reports.drop_first(), through)
    }
}

/// Those who reported another hash for the turn.
pub open spec fn disagreeing(reports: Seq<ReportView>, turn: u32, hash: Seq<u8>) -> Seq<PeerID> {
    reports.filter(|r: ReportView| r.turn == turn && r.hash != hash).map_values(
        |r: ReportView| r.peer,
    )
}

/// The reports of other turns.
pub open spec fn of_other_turns(reports: Seq<ReportView>, turn: u32) -> Seq<ReportView> {
    reports.filter(|r: ReportView| r.turn != turn)
}

/// Clients marked as no longer in step with the rest.
pub open spec fn marked(clients: Seq<(PeerID, TurnClient)>, who: Seq<PeerID>) -> Seq<
    (PeerID, TurnClient),
> {
    clients.map_values(
        |row: (PeerID, TurnClient)|
            if who.contains(row.0) {
                (row.0, TurnClient { out_of_sync: true, ..row.1 })
            } else {
                row
            },
    )
}

impl Turns {
    pub open spec fn new() -> Turns {
        Turns {
            clients: Seq::empty(),
            ready: INITIAL_READY_TURN,
            reports: Seq::empty(),
            references: Seq::empty(),
        }
    }

    pub open spec fn wf(self) -> bool {
        &&& INITIAL_READY_TURN <= self.ready <= LAST_TURN
        &&& clients_wf(self.clients)
    }

    pub open spec fn is_delayed(self, peer: PeerID) -> bool {
        table::lookup(self.clients, peer) matches Some(c) && c.delayed
    }

    pub open spec fn is_out_of_sync(self, peer: PeerID) -> bool {
        table::lookup(self.clients, peer) matches Some(c) && c.out_of_sync
    }

    /// The observers on the delayed feed.
    pub open spec fn delayed_peers(self) -> Seq<PeerID> {
        self.clients.filter(|row: (PeerID, TurnClient)| row.1.delayed).map_values(
            |row: (PeerID, TurnClient)| row.0,
        )
    }

    pub open spec fn registered(
        self,
        peer: PeerID,
        client_id: u16,
        sealed: u32,
        simulated: u32,
        observer: bool,
        delayed: bool,
    ) -> Turns {
        Turns {
            clients: table::with_row(
                self.clients,
                peer,
                TurnClient {
                    client_id,
                    sealed,
                    simulated,
                    observer,
                    delayed,
                    ai_host: false,
                    out_of_sync: false,
                },
            ),
            ..self
        }
    }

    pub open spec fn with_ai_host(self, peer: PeerID) -> Turns {
        match table::lookup(self.clients, peer) {
            Some(c) => Turns {
                clients: table::with_row(
                    self.clients,
                    peer,
                    TurnClient { ai_host: true, ..c },
                ),
                ..self
            },
            None => self,
        }
    }

    /// A departed client holds nobody up, and its hashes no longer count.
    pub open spec fn forgotten(self, peer: PeerID) -> Turns {
        Turns {
            clients: table::without_row(self.clients, peer),
            reports: self.reports.filter(|r: ReportView| r.peer != peer),
            ..self
        }
    }

    /// What is wrong with a seal. Seals come one by one, and none is past what
    /// a client that has simulated everything it may could send.
    pub open spec fn seal_fault(self, peer: PeerID, turn: u32) -> Option<PeerFault> {
        match table::lookup(self.clients, peer) {
            None => Some(PeerFault::NoSession),
            Some(c) => if turn != c.sealed + 1 {
                Some(
                    PeerFault::TurnSealOutOfSequence { got: turn, want: (c.sealed + 1) as u32 },
                )
            } else if turn > self.ready + COMMAND_DELAY {
                Some(PeerFault::TurnSealAhead { got: turn, ready: self.ready })
            } else {
                None
            },
        }
    }

    pub open spec fn sealed(self, peer: PeerID, turn: u32) -> Turns {
        if self.seal_fault(peer, turn) is Some {
            self
        } else {
            Turns {
                clients: table::with_row(
                    self.clients,
                    peer,
                    TurnClient { sealed: turn, ..(table::lookup(self.clients, peer)->0) },
                ),
                ..self
            }
        }
    }

    pub open spec fn released(self, lag_limit: Option<u32>) -> Turns {
        Turns { ready: released_through(self.clients, self.ready, lag_limit), ..self }
    }

    /// What is wrong with a state hash. They come one by one, and none for a
    /// turn that was not released.
    pub open spec fn hash_fault(self, peer: PeerID, turn: u32) -> Option<PeerFault> {
        match table::lookup(self.clients, peer) {
            None => Some(PeerFault::NoSession),
            Some(c) => if turn != c.simulated + 1 {
                Some(
                    PeerFault::StateHashOutOfSequence {
                        got: turn,
                        want: (c.simulated + 1) as u32,
                    },
                )
            } else if turn > self.ready {
                Some(PeerFault::StateHashAhead { got: turn, ready: self.ready })
            } else {
                None
            },
        }
    }

    /// The client's progress noted.
    pub open spec fn simulated(self, peer: PeerID, turn: u32) -> Turns {
        Turns {
            clients: table::with_row(
                self.clients,
                peer,
                TurnClient { simulated: turn, ..(table::lookup(self.clients, peer)->0) },
            ),
            ..self
        }
    }

    pub open spec fn reported(self, report: ReportView) -> Turns {
        Turns { reports: self.reports.push(report), ..self }
    }

    /// One turn compared: the first hash reported for it is what the others
    /// are held against.
    pub open spec fn compared(self, first: ReportView) -> Turns {
        Turns {
            clients: marked(
                self.clients,
                disagreeing(self.reports, first.turn, first.hash),
            ),
            reports: of_other_turns(self.reports, first.turn),
            references: table::with_row(self.references, first.turn, first.hash),
            ..self
        }
    }

    /// What comparing one turn shows.
    pub open spec fn mismatch(self, first: ReportView) -> Seq<HashMismatchView> {
        let who = disagreeing(self.reports, first.turn, first.hash);
        if who.len() == 0 {
            Seq::empty()
        } else {
            seq![
                HashMismatchView {
                    turn: first.turn,
                    mismatched: who,
                    reference: first.hash,
                    recipient: None,
                },
            ]
        }
    }

    /// Every turn that everyone has reported on compared, and what that shows.
    pub open spec fn settled(self, through: u32, rounds: nat) -> (Turns, Seq<HashMismatchView>)
        decreases rounds,
    {
        match first_complete(self.reports, through) {
            Some(first) if rounds > 0 => {
                let (after, later) = self.compared(first).settled(
                    through,
                    (rounds - 1) as nat,
                );
                (after, self.mismatch(first) + later)
            },
            _ => (self, Seq::empty()),
        }
    }

    /// Everything that can be compared is.
    pub open spec fn rechecked(self) -> (Turns, Seq<HashMismatchView>) {
        self.settled(reported_through(self.clients, self.ready), self.reports.len())
    }

    /// A state hash that is in order. A turn already compared has a reference,
    /// and one who reports on it late is held against that alone.
    pub open spec fn hashed(self, peer: PeerID, turn: u32, hash: Seq<u8>) -> (
        Turns,
        Seq<HashMismatchView>,
    ) {
        let c = table::lookup(self.clients, peer)->0;
        let noted = self.simulated(peer, turn);
        if c.ai_host {
            (noted, Seq::empty())
        } else {
            match table::lookup(self.references, turn) {
                Some(reference) => if reference == hash {
                    (noted, Seq::empty())
                } else {
                    (
                        Turns { clients: marked(noted.clients, seq![peer]), ..noted },
                        seq![
                            HashMismatchView {
                                turn,
                                mismatched: seq![peer],
                                reference,
                                recipient: if c.delayed {
                                    Some(peer)
                                } else {
                                    None
                                },
                            },
                        ],
                    )
                },
                None => noted.reported(ReportView { turn, peer, hash }).rechecked(),
            }
        }
    }
}

proof fn lemma_client_row(s: Seq<(PeerID, TurnClient)>, peer: PeerID, c: TurnClient)
    requires
        clients_wf(s),
        c.wf(),
    ensures
        clients_wf(table::with_row(s, peer, c)),
        clients_wf(table::without_row(s, peer)),
        table::lookup(s, peer) matches Some(x) ==> x.wf(),
{
    table::lemma_index_of(s, peer);
    if let Some(k) = table::index_of(s, peer) {
        let t = s.remove(k);
        assert forall|i: int| 0 <= i < t.len() implies (#[trigger] t[i]).1.wf() by {
            if i < k {
                assert(t[i] == s[i]);
            } else {
                assert(t[i] == s[i + 1]);
            }
        }
    }
}

/// A client that cannot be told from one that has not begun.
pub open spec fn idle_client() -> TurnClient {
    TurnClient {
        client_id: 0,
        sealed: 0,
        simulated: 0,
        observer: false,
        delayed: false,
        ai_host: false,
        out_of_sync: false,
    }
}

proof fn lemma_marked_wf(clients: Seq<(PeerID, TurnClient)>, who: Seq<PeerID>)
    requires
        clients_wf(clients),
    ensures
        clients_wf(marked(clients, who)),
{
    let t = marked(clients, who);
    assert forall|i: int| 0 <= i < t.len() implies (#[trigger] t[i]).1.wf() by {
        assert(clients[i].1.wf());
    }
}

pub proof fn lemma_released_bounds(
    clients: Seq<(PeerID, TurnClient)>,
    ready: u32,
    lag_limit: Option<u32>,
)
    requires
        ready <= LAST_TURN,
    ensures
        ready <= released_through(clients, ready, lag_limit) <= LAST_TURN,
    decreases LAST_TURN - ready,
{
    if ready < LAST_TURN && may_release(clients, ready + 1, lag_limit) {
        lemma_released_bounds(clients, (ready + 1) as u32, lag_limit);
    }
}

/// No turn is released that a player has not sealed: everyone who plays has
/// sealed every released turn.
pub proof fn released_turns_are_sealed(
    clients: Seq<(PeerID, TurnClient)>,
    ready: u32,
    lag_limit: Option<u32>,
    i: int,
)
    requires
        ready <= LAST_TURN,
        0 <= i < clients.len(),
        !clients[i].1.observer,
        !clients[i].1.delayed,
        released_through(clients, ready, lag_limit) > ready,
    ensures
        clients[i].1.sealed >= released_through(clients, ready, lag_limit),
    decreases LAST_TURN - ready,
{
    if ready < LAST_TURN && may_release(clients, ready + 1, lag_limit) {
        let next = (ready + 1) as u32;
        assert(clients[i].1.awaited(next as int, lag_limit));
        if released_through(clients, next, lag_limit) > next {
            released_turns_are_sealed(clients, next, lag_limit, i);
        } else {
            lemma_released_bounds(clients, next, lag_limit);
        }
    }
}

/// No turn is held back that could be released, so releasing again releases
/// nothing more.
pub proof fn nothing_is_held_back(
    clients: Seq<(PeerID, TurnClient)>,
    ready: u32,
    lag_limit: Option<u32>,
)
    ensures
        ({
            let r = released_through(clients, ready, lag_limit);
            &&& r >= LAST_TURN || !may_release(clients, r + 1, lag_limit)
            &&& released_through(clients, r, lag_limit) == r
        }),
    decreases LAST_TURN - ready,
{
    if ready < LAST_TURN && may_release(clients, ready + 1, lag_limit) {
        nothing_is_held_back(clients, (ready + 1) as u32, lag_limit);
    }
}

/// The match waits for nobody but its players and for observers who lag too
/// far behind: where the next turn is not released, one of those has not sealed
/// it, or nobody has. And no observer is ever left behind by more than the
/// limit.
pub proof fn nobody_else_is_waited_for(
    clients: Seq<(PeerID, TurnClient)>,
    ready: u32,
    lag_limit: Option<u32>,
)
    requires
        ready <= LAST_TURN,
    ensures
        ({
            let r = released_through(clients, ready, lag_limit);
            &&& ready <= r <= LAST_TURN
            &&& r < LAST_TURN ==> {
                ||| exists|i: int|
                    0 <= i < clients.len() && !(#[trigger] clients[i]).1.delayed
                        && clients[i].1.sealed <= r && (!clients[i].1.observer || (lag_limit
                        matches Some(limit) && r + 1 - clients[i].1.sealed > limit))
                ||| forall|i: int|
                    0 <= i < clients.len() && !(#[trigger] clients[i]).1.delayed
                        ==> clients[i].1.sealed <= r
            }
            &&& r > ready ==> forall|i: int|
                0 <= i < clients.len() && !(#[trigger] clients[i]).1.delayed
                    && clients[i].1.observer && lag_limit is Some && clients[i].1.sealed < r ==> r
                    - clients[i].1.sealed <= lag_limit->0
        }),
    decreases LAST_TURN - ready,
{
    if ready < LAST_TURN && may_release(clients, ready + 1, lag_limit) {
        nobody_else_is_waited_for(clients, (ready + 1) as u32, lag_limit);
    } else if ready < LAST_TURN {
        let turn = ready + 1;
        if exists|i: int|
            0 <= i < clients.len() && !((#[trigger] clients[i]).1.awaited(turn, lag_limit)
                ==> clients[i].1.sealed >= turn) {
            let i = choose|i: int|
                0 <= i < clients.len() && !((#[trigger] clients[i]).1.awaited(turn, lag_limit)
                    ==> clients[i].1.sealed >= turn);
            assert(!clients[i].1.delayed && clients[i].1.sealed <= ready);
        }
    }
}

impl Turns {
    /// Seals are taken one by one: an accepted seal is the next turn, and no
    /// more than the lead a client can have.
    pub proof fn seals_come_one_by_one(self, peer: PeerID, turn: u32)
        requires
            self.seal_fault(peer, turn) is None,
        ensures
            table::lookup(self.clients, peer) matches Some(before) && table::lookup(
                self.sealed(peer, turn).clients,
                peer,
            ) matches Some(after) && after.sealed == turn && turn == before.sealed + 1 && turn
                <= self.ready + COMMAND_DELAY,
    {
        let c = table::lookup(self.clients, peer)->0;
        table::lemma_with_row_lookup(
            self.clients,
            peer,
            TurnClient { sealed: turn, ..c },
            peer,
        );
    }
}

/// The hash that was reported first for a turn.
pub open spec fn first_hash(reports: Seq<ReportView>, turn: u32) -> Option<Seq<u8>>
    decreases reports.len(),
{
    if reports.len() == 0 {
        None
    } else {
        match first_hash(reports.drop_last(), turn) {
            Some(hash) => Some(hash),
            None => if reports.last().turn == turn {
                Some(reports.last().hash)
            } else {
                None
            },
        }
    }
}

/// Whether someone reported another hash for a turn.
pub open spec fn differs(
    reports: Seq<ReportView>,
    turn: u32,
    reference: Seq<u8>,
    peer: PeerID,
) -> bool {
    exists|r: ReportView| #[trigger]
        reports.contains(r) && r.turn == turn && r.peer == peer && r.hash != reference
}

/// Whether a mismatch is what these reports show of its turn: everyone is held
/// against the first who reported, and exactly those who differ are in it.
pub open spec fn is_shown(m: HashMismatchView, reports: Seq<ReportView>) -> bool {
    &&& m.recipient is None
    &&& m.mismatched.len() > 0
    &&& first_hash(reports, m.turn) == Some(m.reference)
    &&& forall|peer: PeerID| #[trigger]
        m.mismatched.contains(peer) == differs(reports, m.turn, m.reference, peer)
}

proof fn lemma_others(reports: Seq<ReportView>, turn: u32)
    ensures
        ({
            let rest = of_other_turns(reports, turn);
            &&& rest.len() <= reports.len()
            &&& first_hash(reports, turn) is Some ==> rest.len() < reports.len()
            &&& first_hash(rest, turn) is None
            &&& forall|t: u32|
                t != turn ==> #[trigger] first_hash(rest, t) == first_hash(reports, t)
            &&& forall|r: ReportView| #[trigger]
                rest.contains(r) == (reports.contains(r) && r.turn != turn)
        }),
    decreases reports.len(),
{
    reveal(Seq::filter);
    if reports.len() > 0 {
        let before = reports.drop_last();
        let last = reports.last();
        lemma_others(before, turn);
        let was = of_other_turns(before, turn);
        let rest = of_other_turns(reports, turn);
        assert(reports =~= before.push(last));
        if last.turn != turn {
            assert(rest == was.push(last));
            assert(rest.drop_last() =~= was);
            assert(rest.last() == last);
        } else {
            assert(rest == was);
        }
        assert forall|t: u32| t != turn implies #[trigger] first_hash(rest, t) == first_hash(
            reports,
            t,
        ) by {
            assert(first_hash(was, t) == first_hash(before, t));
        }
        assert(first_hash(rest, turn) is None);
        assert(first_hash(reports, turn) is Some ==> rest.len() < reports.len());
        assert forall|r: ReportView| #[trigger] rest.contains(r) == (reports.contains(r) && r.turn
            != turn) by {
            utils::lemma_pushed(before, last, r);
            utils::lemma_pushed(was, last, r);
            assert(was.contains(r) == (before.contains(r) && r.turn != turn));
        }
    }
}

proof fn lemma_disagreeing(reports: Seq<ReportView>, turn: u32, hash: Seq<u8>, peer: PeerID)
    ensures
        disagreeing(reports, turn, hash).contains(peer) == differs(reports, turn, hash, peer),
    decreases reports.len(),
{
    reveal(Seq::filter);
    let pick = |r: ReportView| r.turn == turn && r.hash != hash;
    let who = |r: ReportView| r.peer;
    if reports.len() > 0 {
        let before = reports.drop_last();
        let last = reports.last();
        lemma_disagreeing(before, turn, hash, peer);
        assert(reports =~= before.push(last));
        let was = disagreeing(before, turn, hash);
        let now = disagreeing(reports, turn, hash);
        if last.turn == turn && last.hash != hash {
            assert(now =~= was.push(last.peer));
        } else {
            assert(now =~= was);
        }
        utils::lemma_pushed(was, last.peer, peer);
        utils::lemma_pushed(before, last, last);
        if differs(before, turn, hash, peer) {
            let x = choose|x: ReportView| #[trigger]
                before.contains(x) && x.turn == turn && x.peer == peer && x.hash != hash;
            utils::lemma_pushed(before, last, x);
            assert(reports.contains(x));
        }
        if differs(reports, turn, hash, peer) {
            let x = choose|x: ReportView| #[trigger]
                reports.contains(x) && x.turn == turn && x.peer == peer && x.hash != hash;
            utils::lemma_pushed(before, last, x);
        }
        if last.turn == turn && last.hash != hash && last.peer == peer {
            assert(reports.contains(last));
        }
    } else {
        assert(disagreeing(reports, turn, hash) =~= Seq::empty());
    }
}

proof fn lemma_first_complete(reports: Seq<ReportView>, through: u32)
    ensures
        match first_complete(reports, through) {
            Some(first) => first.turn <= through && reports.contains(first) && first_hash(
                reports,
                first.turn,
            ) == Some(first.hash),
            None => forall|r: ReportView| #[trigger] reports.contains(r) ==> r.turn > through,
        },
    decreases reports.len(),
{
    if reports.len() > 0 {
        let rest = reports.drop_first();
        lemma_first_complete(rest, through);
        assert(reports[0] == reports.first());
        if reports[0].turn <= through {
            lemma_first_hash_head(reports);
            assert(reports.contains(reports[0]));
        } else {
            match first_complete(rest, through) {
                Some(first) => {
                    let k = choose|k: int| 0 <= k < rest.len() && rest[k] == first;
                    assert(reports[k + 1] == first);
                    lemma_first_hash_tail(reports, first.turn);
                },
                None => {
                    assert forall|r: ReportView| #[trigger] reports.contains(r) implies r.turn
                        > through by {
                        let k = choose|k: int| 0 <= k < reports.len() && reports[k] == r;
                        if k > 0 {
                            assert(rest[k - 1] == r);
                            assert(rest.contains(r));
                        }
                    }
                },
            }
        }
    }
}

proof fn lemma_first_hash_head(reports: Seq<ReportView>)
    requires
        reports.len() > 0,
    ensures
        first_hash(reports, reports[0].turn) == Some(reports[0].hash),
    decreases reports.len(),
{
    reveal_with_fuel(first_hash, 2);
    if reports.len() > 1 {
        lemma_first_hash_head(reports.drop_last());
        assert(reports.drop_last()[0] == reports[0]);
    } else {
        assert(reports.drop_last() =~= Seq::empty());
        assert(reports.last() == reports[0]);
    }
}

proof fn lemma_first_hash_tail(reports: Seq<ReportView>, turn: u32)
    requires
        reports.len() > 0,
        reports[0].turn != turn,
    ensures
        first_hash(reports, turn) == first_hash(reports.drop_first(), turn),
    decreases reports.len(),
{
    if reports.len() > 1 {
        lemma_first_hash_tail(reports.drop_last(), turn);
        assert(reports.drop_last().drop_first() =~= reports.drop_first().drop_last());
        assert(reports.drop_first().last() == reports.last());
    } else {
        assert(reports.drop_last() =~= Seq::empty());
        assert(reports.drop_first() =~= Seq::empty());
        assert(reports.last() == reports[0]);
    }
}

proof fn lemma_reported_through(clients: Seq<(PeerID, TurnClient)>, ready: u32)
    ensures
        reported_through(clients, ready) <= ready,
        forall|i: int|
            0 <= i < clients.len() && (#[trigger] clients[i]).1.compared() ==> reported_through(
                clients,
                ready,
            ) <= clients[i].1.simulated,
        reported_through(clients, ready) == ready || exists|i: int|
            0 <= i < clients.len() && (#[trigger] clients[i]).1.compared() && clients[i].1.simulated
                == reported_through(clients, ready),
    decreases clients.len(),
{
    if clients.len() > 0 {
        let rest = clients.drop_last();
        lemma_reported_through(rest, ready);
        assert forall|i: int|
            0 <= i < clients.len() && (#[trigger] clients[i]).1.compared() implies reported_through(
            clients,
            ready,
        ) <= clients[i].1.simulated by {
            if i < rest.len() {
                assert(rest[i] == clients[i]);
            }
        }
        let through = reported_through(clients, ready);
        if through == reported_through(rest, ready) && through != ready {
            let i = choose|i: int|
                0 <= i < rest.len() && (#[trigger] rest[i]).1.compared() && rest[i].1.simulated
                    == through;
            assert(clients[i] == rest[i]);
        } else if through != ready {
            assert(clients[clients.len() - 1].1.simulated == through);
        }
    }
}

impl Turns {
    proof fn lemma_settled_found(self, through: u32, rounds: nat)
        requires
            rounds >= self.reports.len(),
        ensures
            ({
                let found = self.settled(through, rounds).1;
                &&& forall|k: int|
                    0 <= k < found.len() ==> is_shown(#[trigger] found[k], self.reports)
                        && found[k].turn <= through
                &&& forall|r: ReportView|
                    #![trigger self.reports.contains(r)]
                    self.reports.contains(r) && r.turn <= through && first_hash(
                        self.reports,
                        r.turn,
                    ) != Some(r.hash) ==> exists|k: int|
                        0 <= k < found.len() && (#[trigger] found[k]).turn == r.turn
                            && found[k].mismatched.contains(r.peer)
            }),
        decreases rounds,
    {
        lemma_first_complete(self.reports, through);
        if let Some(first) = first_complete(self.reports, through) {
            let after = self.compared(first);
            let rest = after.reports;
            let turn = first.turn;
            lemma_others(self.reports, turn);
            after.lemma_settled_found(through, (rounds - 1) as nat);
            let here = self.mismatch(first);
            let later = after.settled(through, (rounds - 1) as nat).1;
            let found = self.settled(through, rounds).1;
            assert(found == here + later);
            let who = disagreeing(self.reports, turn, first.hash);
            assert forall|peer: PeerID| #[trigger] who.contains(peer) == differs(
                self.reports,
                turn,
                first.hash,
                peer,
            ) by {
                lemma_disagreeing(self.reports, turn, first.hash, peer);
            }
            assert forall|k: int| 0 <= k < found.len() implies is_shown(
                #[trigger] found[k],
                self.reports,
            ) && found[k].turn <= through by {
                if k >= here.len() {
                    let m = later[k - here.len()];
                    assert(found[k] == m);
                    assert(is_shown(m, rest));
                    assert(m.turn != turn);
                    assert forall|peer: PeerID| #[trigger] m.mismatched.contains(peer) == differs(
                        self.reports,
                        m.turn,
                        m.reference,
                        peer,
                    ) by {
                        lemma_differs_others(self.reports, turn, m.turn, m.reference, peer);
                    }
                }
            }
            assert forall|r: ReportView|
                #![trigger self.reports.contains(r)]
                self.reports.contains(r) && r.turn <= through && first_hash(self.reports, r.turn)
                    != Some(r.hash) implies exists|k: int|
                0 <= k < found.len() && (#[trigger] found[k]).turn == r.turn
                    && found[k].mismatched.contains(r.peer) by {
                if r.turn == turn {
                    assert(differs(self.reports, turn, first.hash, r.peer));
                    assert(who.contains(r.peer));
                    assert(who.len() > 0);
                    assert(found[0] == here[0]);
                } else {
                    assert(rest.contains(r));
                    let k = choose|k: int|
                        0 <= k < later.len() && (#[trigger] later[k]).turn == r.turn
                            && later[k].mismatched.contains(r.peer);
                    assert(found[here.len() + k] == later[k]);
                }
            }
        }
    }

    /// Hashes are compared once everyone whose hash counts has reported, against
    /// the first that was reported: exactly the clients whose hash differs are
    /// found out, each of them, and nobody else. One who reports on a turn that
    /// was compared already is held against what was agreed then.
    pub proof fn differing_hashes_are_found(self, peer: PeerID, turn: u32, hash: Seq<u8>)
        requires
            table::distinct(self.clients),
            self.hash_fault(peer, turn) is None,
            table::lookup(self.clients, peer) matches Some(c) && !c.ai_host,
        ensures
            ({
                let (after, found) = self.hashed(peer, turn, hash);
                let all = self.reports.push(ReportView { turn, peer, hash });
                match table::lookup(self.references, turn) {
                    Some(reference) => {
                        &&& reference == hash ==> found.len() == 0
                        &&& reference != hash ==> {
                            &&& found.len() == 1
                            &&& found[0].turn == turn
                            &&& found[0].reference == reference
                            &&& found[0].mismatched == seq![peer]
                            &&& found[0].recipient == (if (table::lookup(
                                self.clients,
                                peer,
                            )->0).delayed {
                                Some(peer)
                            } else {
                                None
                            })
                        }
                    },
                    None => {
                        &&& forall|k: int|
                            0 <= k < found.len() ==> is_shown(#[trigger] found[k], all)
                                && found[k].turn <= self.ready
                        &&& forall|k: int, i: int|
                            #![trigger found[k], self.clients[i]]
                            0 <= k < found.len() && 0 <= i < self.clients.len()
                                && self.clients[i].0 != peer && !self.clients[i].1.delayed
                                && !self.clients[i].1.ai_host ==> found[k].turn
                                <= self.clients[i].1.simulated
                        &&& forall|r: ReportView|
                            #![trigger all.contains(r)]
                            all.contains(r) && r.turn <= turn && (forall|i: int|
                                0 <= i < self.clients.len() && (#[trigger] self.clients[i]).0
                                    != peer && !self.clients[i].1.delayed
                                    && !self.clients[i].1.ai_host ==> r.turn
                                    <= self.clients[i].1.simulated) && first_hash(all, r.turn)
                                != Some(r.hash) ==> exists|k: int|
                                0 <= k < found.len() && (#[trigger] found[k]).turn == r.turn
                                    && found[k].mismatched.contains(r.peer)
                    },
                }
            }),
    {
        let c = table::lookup(self.clients, peer)->0;
        let row = TurnClient { simulated: turn, ..c };
        let noted = self.simulated(peer, turn);
        let told = noted.reported(ReportView { turn, peer, hash });
        let through = reported_through(told.clients, told.ready);
        told.lemma_settled_found(through, told.reports.len());
        lemma_reported_through(told.clients, told.ready);
        table::lemma_index_of(self.clients, peer);
        let at = table::index_of(self.clients, peer)->0;
        assert(told.clients =~= self.clients.update(at, (peer, row)));
        if table::lookup(self.references, turn) is None {
            let found = self.hashed(peer, turn, hash).1;
            let all = told.reports;
            assert forall|k: int, i: int|
                #![trigger found[k], self.clients[i]]
                0 <= k < found.len() && 0 <= i < self.clients.len() && self.clients[i].0 != peer
                    && !self.clients[i].1.delayed && !self.clients[i].1.ai_host implies found[k].turn
                <= self.clients[i].1.simulated by {
                assert(told.clients[i] == self.clients[i]);
                assert(is_shown(found[k], all));
            }
            assert forall|r: ReportView|
                #![trigger all.contains(r)]
                all.contains(r) && r.turn <= turn && (forall|i: int|
                    0 <= i < self.clients.len() && (#[trigger] self.clients[i]).0 != peer
                        && !self.clients[i].1.delayed && !self.clients[i].1.ai_host ==> r.turn
                        <= self.clients[i].1.simulated) && first_hash(all, r.turn) != Some(
                    r.hash,
                ) implies r.turn <= through by {
                if through != told.ready {
                    let i = choose|i: int|
                        0 <= i < told.clients.len() && (#[trigger] told.clients[i]).1.compared()
                            && told.clients[i].1.simulated == through;
                    if i != at {
                        assert(told.clients[i] == self.clients[i]);
                    }
                }
            }
        }
    }
}

/// Whether everyone whose hash counts has simulated a turn.
pub open spec fn everyone_reported(clients: Seq<(PeerID, TurnClient)>, turn: u32) -> bool {
    forall|i: int|
        0 <= i < clients.len() && !(#[trigger] clients[i]).1.delayed && !clients[i].1.ai_host
            ==> turn <= clients[i].1.simulated
}

/// Whether one of these mismatches is of this client.
pub open spec fn caught(found: Seq<HashMismatchView>, peer: PeerID) -> bool {
    exists|k: int| 0 <= k < found.len() && (#[trigger] found[k]).mismatched.contains(peer)
}

proof fn lemma_caught(a: Seq<HashMismatchView>, b: Seq<HashMismatchView>, peer: PeerID)
    ensures
        caught(a + b, peer) == (caught(a, peer) || caught(b, peer)),
{
    let all = a + b;
    if caught(a, peer) {
        let k = choose|k: int| 0 <= k < a.len() && (#[trigger] a[k]).mismatched.contains(peer);
        assert(all[k] == a[k]);
    }
    if caught(b, peer) {
        let k = choose|k: int| 0 <= k < b.len() && (#[trigger] b[k]).mismatched.contains(peer);
        assert(all[a.len() + k] == b[k]);
    }
    if caught(all, peer) {
        let k = choose|k: int| 0 <= k < all.len() && (#[trigger] all[k]).mismatched.contains(peer);
        if k < a.len() {
            assert(all[k] == a[k]);
        } else {
            assert(all[k] == b[k - a.len()]);
        }
    }
}

impl Turns {
    proof fn lemma_settled_marks(self, through: u32, rounds: nat, i: int)
        requires
            0 <= i < self.clients.len(),
        ensures
            ({
                let (after, found) = self.settled(through, rounds);
                &&& after.clients.len() == self.clients.len()
                &&& after.clients[i] == (
                    self.clients[i].0,
                    TurnClient {
                        out_of_sync: self.clients[i].1.out_of_sync || caught(
                            found,
                            self.clients[i].0,
                        ),
                        ..self.clients[i].1
                    },
                )
            }),
        decreases rounds,
    {
        match first_complete(self.reports, through) {
            Some(first) if rounds > 0 => {
                let mid = self.compared(first);
                mid.lemma_settled_marks(through, (rounds - 1) as nat, i);
                let here = self.mismatch(first);
                let later = mid.settled(through, (rounds - 1) as nat).1;
                let peer = self.clients[i].0;
                lemma_caught(here, later, peer);
                let who = disagreeing(self.reports, first.turn, first.hash);
                if who.contains(peer) {
                    assert(here[0].mismatched == who);
                }
            },
            _ => {},
        }
    }

    proof fn lemma_settled_agrees(self, through: u32, rounds: nat, turn: u32)
        requires
            rounds >= self.reports.len(),
        ensures
            table::lookup(self.settled(through, rounds).0.references, turn) == (if turn <= through
                && first_hash(self.reports, turn) is Some {
                first_hash(self.reports, turn)
            } else {
                table::lookup(self.references, turn)
            }),
        decreases rounds,
    {
        lemma_first_complete(self.reports, through);
        if let Some(first) = first_complete(self.reports, through) {
            lemma_others(self.reports, first.turn);
            let mid = self.compared(first);
            mid.lemma_settled_agrees(through, (rounds - 1) as nat, turn);
            table::lemma_with_row_lookup(self.references, first.turn, first.hash, turn);
        } else if first_hash(self.reports, turn) is Some {
            lemma_first_hash_of(self.reports, turn);
        }
    }

    /// Once hashes are compared, what was reported first for each of their
    /// turns is what was agreed on, the clients that differed are remembered as
    /// out of sync, and nobody else's standing changes.
    pub proof fn comparing_is_remembered(self, turn: u32, i: int)
        requires
            0 <= i < self.clients.len(),
        ensures
            ({
                let (after, found) = self.rechecked();
                let through = reported_through(self.clients, self.ready);
                &&& after.clients[i] == (
                    self.clients[i].0,
                    TurnClient {
                        out_of_sync: self.clients[i].1.out_of_sync || caught(
                            found,
                            self.clients[i].0,
                        ),
                        ..self.clients[i].1
                    },
                )
                &&& table::lookup(after.references, turn) == (if turn <= through && first_hash(
                    self.reports,
                    turn,
                ) is Some {
                    first_hash(self.reports, turn)
                } else {
                    table::lookup(self.references, turn)
                })
                &&& after.ready == self.ready
            }),
    {
        let through = reported_through(self.clients, self.ready);
        self.lemma_settled_marks(through, self.reports.len(), i);
        self.lemma_settled_agrees(through, self.reports.len(), turn);
        self.lemma_settled_ready(through, self.reports.len());
    }

    pub proof fn lemma_settled_ready(self, through: u32, rounds: nat)
        ensures
            self.settled(through, rounds).0.ready == self.ready,
        decreases rounds,
    {
        if rounds > 0 {
            if let Some(first) = first_complete(self.reports, through) {
                self.compared(first).lemma_settled_ready(through, (rounds - 1) as nat);
            }
        }
    }

    /// Comparison waits for nobody who has left: whatever hashes differ are
    /// found as soon as everyone left whose hash counts has reported.
    pub proof fn departures_settle_hashes(self)
        ensures
            ({
                let found = self.rechecked().1;
                &&& forall|k: int|
                    0 <= k < found.len() ==> is_shown(#[trigger] found[k], self.reports)
                &&& forall|r: ReportView|
                    #![trigger self.reports.contains(r)]
                    self.reports.contains(r) && r.turn <= self.ready && everyone_reported(
                        self.clients,
                        r.turn,
                    ) && first_hash(self.reports, r.turn) != Some(r.hash) ==> exists|k: int|
                        0 <= k < found.len() && (#[trigger] found[k]).turn == r.turn
                            && found[k].mismatched.contains(r.peer)
            }),
    {
        let through = reported_through(self.clients, self.ready);
        self.lemma_settled_found(through, self.reports.len());
        lemma_reported_through(self.clients, self.ready);
        assert forall|r: ReportView|
            #![trigger self.reports.contains(r)]
            self.reports.contains(r) && r.turn <= self.ready && everyone_reported(
                self.clients,
                r.turn,
            ) implies r.turn <= through by {
            if through != self.ready {
                let i = choose|i: int|
                    0 <= i < self.clients.len() && (#[trigger] self.clients[i]).1.compared()
                        && self.clients[i].1.simulated == through;
                assert(r.turn <= self.clients[i].1.simulated);
            }
        }
        let found = self.rechecked().1;
        assert(found == self.settled(through, self.reports.len()).1);
        assert forall|k: int| 0 <= k < found.len() implies is_shown(
            #[trigger] found[k],
            self.reports,
        ) by {}
    }
}

proof fn lemma_first_hash_of(reports: Seq<ReportView>, turn: u32)
    requires
        first_hash(reports, turn) is Some,
    ensures
        exists|r: ReportView| #[trigger] reports.contains(r) && r.turn == turn,
    decreases reports.len(),
{
    if reports.len() > 0 {
        let before = reports.drop_last();
        if first_hash(before, turn) is Some {
            lemma_first_hash_of(before, turn);
            let r = choose|r: ReportView| #[trigger] before.contains(r) && r.turn == turn;
            let k = choose|k: int| 0 <= k < before.len() && before[k] == r;
            assert(reports[k] == r);
            assert(reports.contains(r));
        } else {
            assert(reports[reports.len() - 1] == reports.last());
            assert(reports.contains(reports.last()));
        }
    }
}

proof fn lemma_differs_others(
    reports: Seq<ReportView>,
    turn: u32,
    t: u32,
    hash: Seq<u8>,
    peer: PeerID,
)
    requires
        t != turn,
    ensures
        differs(of_other_turns(reports, turn), t, hash, peer) == differs(reports, t, hash, peer),
{
    lemma_others(reports, turn);
    let rest = of_other_turns(reports, turn);
    if differs(reports, t, hash, peer) {
        let x = choose|x: ReportView| #[trigger]
            reports.contains(x) && x.turn == t && x.peer == peer && x.hash != hash;
        assert(rest.contains(x));
    }
    if differs(rest, t, hash, peer) {
        let x = choose|x: ReportView| #[trigger]
            rest.contains(x) && x.turn == t && x.peer == peer && x.hash != hash;
        assert(reports.contains(x));
    }
}

impl TurnManager {
    pub open spec fn wf(self) -> bool {
        self@.wf()
    }

    pub fn new() -> (r: Self)
        ensures
            r@ == Turns::new(),
            r.wf(),
    {
        let r = TurnManager {
            clients: Table::new(),
            ready: INITIAL_READY_TURN,
            reports: Vec::new(),
            references: Table::new(),
        };
        assert(items::views(r.reports@) =~= Seq::empty());
        r
    }

    pub fn ready_turn(&self) -> (r: u32)
        ensures
            r == self@.ready,
    {
        self.ready
    }

    pub fn is_delayed(&self, peer: PeerID) -> (r: bool)
        ensures
            r == self@.is_delayed(peer),
    {
        match self.clients.get(&peer) {
            Some(c) => c.delayed,
            None => false,
        }
    }

    pub fn is_out_of_sync(&self, peer: PeerID) -> (r: bool)
        ensures
            r == self@.is_out_of_sync(peer),
    {
        match self.clients.get(&peer) {
            Some(c) => c.out_of_sync,
            None => false,
        }
    }

    pub fn delayed_peers(&self) -> (r: Vec<PeerID>)
        ensures
            r@ == self@.delayed_peers(),
    {
        let ghost all = self.clients@;
        let ghost late = |row: (PeerID, TurnClient)| row.1.delayed;
        let ghost who = |row: (PeerID, TurnClient)| row.0;
        let mut out: Vec<PeerID> = Vec::new();
        let mut i: usize = 0;
        proof {
            utils::lemma_filter_ends(all, late);
            assert(out@ =~= all.take(0).filter(late).map_values(who));
        }
        while i < self.clients.rows.len()
            invariant
                all == self.clients@,
                late == (|row: (PeerID, TurnClient)| row.1.delayed),
                who == (|row: (PeerID, TurnClient)| row.0),
                i <= self.clients.rows@.len(),
                out@ == all.take(i as int).filter(late).map_values(who),
            decreases self.clients.rows@.len() - i,
        {
            let ghost before = all.take(i as int).filter(late);
            proof {
                utils::lemma_filter_step(all, i as int, late);
                assert(all[i as int] == table::row_view(self.clients.rows@[i as int]));
                assert(before.push(all[i as int]).map_values(who) =~= before.map_values(who).push(
                    who(all[i as int]),
                ));
            }
            if self.clients.rows[i].1.delayed {
                out.push(self.clients.rows[i].0);
            }
            i += 1;
        }
        out
    }

    pub fn register(
        &mut self,
        peer: PeerID,
        client_id: u16,
        sealed: u32,
        simulated: u32,
        observer: bool,
        delayed: bool,
    )
        requires
            old(self).wf(),
            sealed <= LAST_TURN + COMMAND_DELAY,
            simulated <= LAST_TURN,
        ensures
            final(self)@ == old(self)@.registered(
                peer,
                client_id,
                sealed,
                simulated,
                observer,
                delayed,
            ),
            final(self).wf(),
    {
        let c = TurnClient {
            client_id,
            sealed,
            simulated,
            observer,
            delayed,
            ai_host: false,
            out_of_sync: false,
        };
        proof {
            lemma_client_row(self.clients@, peer, c);
        }
        self.clients.put(peer, c);
    }

    pub fn mark_ai_host(&mut self, peer: PeerID)
        requires
            old(self).wf(),
        ensures
            final(self)@ == old(self)@.with_ai_host(peer),
            final(self).wf(),
    {
        proof {
            lemma_client_row(self.clients@, peer, idle_client());
        }
        let c = match self.clients.get(&peer) {
            Some(c) => TurnClient { ai_host: true, ..*c },
            None => return ,
        };
        proof {
            lemma_client_row(self.clients@, peer, c);
        }
        self.clients.put(peer, c);
    }

    pub fn forget(&mut self, peer: PeerID)
        requires
            old(self).wf(),
        ensures
            final(self)@ == old(self)@.forgotten(peer),
            final(self).wf(),
    {
        proof {
            lemma_client_row(self.clients@, peer, idle_client());
        }
        let _ = self.clients.take(&peer);
        let ghost all = items::views(self.reports@);
        let ghost others = |r: ReportView| r.peer != peer;
        let mut kept: Vec<Report> = Vec::new();
        let mut i: usize = 0;
        proof {
            utils::lemma_filter_ends(all, others);
            assert(items::views(kept@) =~= Seq::empty());
        }
        while i < self.reports.len()
            invariant
                all == items::views(self.reports@),
                others == (|r: ReportView| r.peer != peer),
                i <= self.reports@.len(),
                items::views(kept@) == all.take(i as int).filter(others),
            decreases self.reports@.len() - i,
        {
            let ghost so_far = items::views(kept@);
            proof {
                utils::lemma_filter_step(all, i as int, others);
            }
            let r = &self.reports[i];
            if r.peer.0 != peer.0 {
                let same = Report {
                    turn: r.turn,
                    peer: r.peer,
                    hash: vstd::slice::slice_to_vec(r.hash.as_slice()),
                };
                let ghost v = same@;
                kept.push(same);
                assert(items::views(kept@) =~= so_far.push(v));
            }
            i += 1;
        }
        self.reports = kept;
    }

    pub fn on_turn_sealed(&mut self, peer: PeerID, turn: u32) -> (r: Result<(), PeerFault>)
        requires
            old(self).wf(),
        ensures
            match r {
                Ok(_) => old(self)@.seal_fault(peer, turn) is None,
                Err(e) => old(self)@.seal_fault(peer, turn) == Some(e),
            },
            final(self)@ == old(self)@.sealed(peer, turn),
            final(self).wf(),
    {
        proof {
            lemma_client_row(self.clients@, peer, idle_client());
        }
        let c = match self.clients.get(&peer) {
            Some(c) => *c,
            None => return Err(PeerFault::NoSession),
        };
        let want: u32 = c.sealed + 1;
        if turn != want {
            return Err(PeerFault::TurnSealOutOfSequence { got: turn, want });
        }
        if turn > self.ready + COMMAND_DELAY {
            return Err(PeerFault::TurnSealAhead { got: turn, ready: self.ready });
        }
        let c = TurnClient { sealed: turn, ..c };
        proof {
            lemma_client_row(self.clients@, peer, c);
        }
        self.clients.put(peer, c);
        Ok(())
    }

    fn can_release(&self, turn: u32, lag_limit: Option<u32>) -> (r: bool)
        ensures
            r == may_release(self@.clients, turn as int, lag_limit),
    {
        let mut someone = false;
        let mut i: usize = 0;
        while i < self.clients.rows.len()
            invariant
                i <= self.clients.rows@.len(),
                forall|j: int|
                    0 <= j < i ==> {
                        let c = (#[trigger] self@.clients[j]).1;
                        c.awaited(turn as int, lag_limit) ==> c.sealed >= turn
                    },
                someone == exists|j: int|
                    0 <= j < i && !(#[trigger] self@.clients[j]).1.delayed
                        && self@.clients[j].1.sealed >= turn,
            decreases self.clients.rows@.len() - i,
        {
            let c = &self.clients.rows[i].1;
            assert(self@.clients[i as int] == table::row_view(self.clients.rows@[i as int]));
            let sealed = c.sealed >= turn;
            let awaited = if c.delayed {
                false
            } else if c.observer {
                match lag_limit {
                    Some(limit) => !sealed && turn - c.sealed > limit,
                    None => false,
                }
            } else {
                true
            };
            if awaited && !sealed {
                return false;
            }
            if !c.delayed && sealed {
                someone = true;
            }
            i += 1;
        }
        someone
    }

    /// Releases every turn that nobody the match waits for still owes. Returns
    /// the last turn released before and the last released now.
    pub fn release(&mut self, lag_limit: Option<u32>) -> (r: (u32, u32))
        requires
            old(self).wf(),
        ensures
            final(self)@ == old(self)@.released(lag_limit),
            r == (old(self)@.ready, final(self)@.ready),
            r.0 <= r.1,
            final(self).wf(),
    {
        let from: u32 = self.ready;
        let ghost clients = self@.clients;
        proof {
            lemma_released_bounds(clients, from, lag_limit);
        }
        while self.ready < LAST_TURN && self.can_release(self.ready + 1, lag_limit)
            invariant
                old(self).wf(),
                self.clients == old(self).clients,
                self.reports == old(self).reports,
                self.references == old(self).references,
                clients == self@.clients,
                from == old(self).ready,
                from <= self.ready <= LAST_TURN,
                released_through(clients, from, lag_limit) == released_through(
                    clients,
                    self.ready,
                    lag_limit,
                ),
            decreases LAST_TURN - self.ready,
        {
            self.ready = self.ready + 1;
        }
        (from, self.ready)
    }

    fn reported(&self) -> (r: u32)
        ensures
            r == reported_through(self@.clients, self@.ready),
    {
        let ghost all = self.clients@;
        let mut through: u32 = self.ready;
        let mut i: usize = 0;
        assert(all.take(0) =~= Seq::empty());
        while i < self.clients.rows.len()
            invariant
                all == self.clients@,
                i <= self.clients.rows@.len(),
                through == reported_through(all.take(i as int), self.ready),
            decreases self.clients.rows@.len() - i,
        {
            let c = &self.clients.rows[i].1;
            proof {
                assert(all[i as int] == table::row_view(self.clients.rows@[i as int]));
                assert(all.take(i + 1).drop_last() =~= all.take(i as int));
                assert(all.take(i + 1).last() == all[i as int]);
            }
            if !c.delayed && !c.ai_host && c.simulated < through {
                through = c.simulated;
            }
            i += 1;
        }
        assert(all.take(i as int) =~= all);
        through
    }

    fn first_complete(&self, through: u32) -> (r: Option<usize>)
        ensures
            match r {
                Some(i) => i < self.reports@.len() && first_complete(self@.reports, through)
                    == Some(self@.reports[i as int]),
                None => first_complete(self@.reports, through) is None,
            },
    {
        let ghost all = self@.reports;
        let mut i: usize = 0;
        assert(all.skip(0) =~= all);
        while i < self.reports.len()
            invariant
                all == self@.reports,
                i <= self.reports@.len(),
                first_complete(all, through) == first_complete(all.skip(i as int), through),
            decreases self.reports@.len() - i,
        {
            proof {
                assert(all.skip(i as int)[0] == all[i as int]);
                assert(all.skip(i as int).drop_first() =~= all.skip(i + 1));
                assert(all[i as int] == self.reports@[i as int]@);
            }
            if self.reports[i].turn <= through {
                return Some(i);
            }
            i += 1;
        }
        None
    }

    fn disagreeing(&self, turn: u32, hash: &Vec<u8>) -> (r: Vec<PeerID>)
        ensures
            r@ == disagreeing(self@.reports, turn, hash@),
    {
        let ghost all = self@.reports;
        let ghost odd = |r: ReportView| r.turn == turn && r.hash != hash@;
        let ghost who = |r: ReportView| r.peer;
        let mut out: Vec<PeerID> = Vec::new();
        let mut i: usize = 0;
        proof {
            utils::lemma_filter_ends(all, odd);
            assert(out@ =~= all.take(0).filter(odd).map_values(who));
        }
        while i < self.reports.len()
            invariant
                all == self@.reports,
                odd == (|r: ReportView| r.turn == turn && r.hash != hash@),
                who == (|r: ReportView| r.peer),
                i <= self.reports@.len(),
                out@ == all.take(i as int).filter(odd).map_values(who),
            decreases self.reports@.len() - i,
        {
            let ghost before = all.take(i as int).filter(odd);
            proof {
                utils::lemma_filter_step(all, i as int, odd);
                assert(all[i as int] == self.reports@[i as int]@);
                assert(before.push(all[i as int]).map_values(who) =~= before.map_values(who).push(
                    who(all[i as int]),
                ));
            }
            let r = &self.reports[i];
            if r.turn == turn && !utils::same_bytes(r.hash.as_slice(), hash.as_slice()) {
                out.push(r.peer);
            }
            i += 1;
        }
        out
    }

    fn drop_reports(&mut self, turn: u32)
        ensures
            final(self)@ == (Turns {
                reports: of_other_turns(old(self)@.reports, turn),
                ..old(self)@
            }),
    {
        let ghost all = items::views(self.reports@);
        let ghost others = |r: ReportView| r.turn != turn;
        let mut kept: Vec<Report> = Vec::new();
        let mut i: usize = 0;
        proof {
            utils::lemma_filter_ends(all, others);
            assert(items::views(kept@) =~= Seq::empty());
        }
        while i < self.reports.len()
            invariant
                all == items::views(self.reports@),
                others == (|r: ReportView| r.turn != turn),
                i <= self.reports@.len(),
                items::views(kept@) == all.take(i as int).filter(others),
            decreases self.reports@.len() - i,
        {
            let ghost so_far = items::views(kept@);
            proof {
                utils::lemma_filter_step(all, i as int, others);
            }
            let r = &self.reports[i];
            if r.turn != turn {
                let same = Report {
                    turn: r.turn,
                    peer: r.peer,
                    hash: vstd::slice::slice_to_vec(r.hash.as_slice()),
                };
                let ghost v = same@;
                kept.push(same);
                assert(items::views(kept@) =~= so_far.push(v));
            }
            i += 1;
        }
        self.reports = kept;
    }

    fn mark(&mut self, who: &Vec<PeerID>)
        requires
            old(self).wf(),
        ensures
            final(self)@ == (Turns { clients: marked(old(self)@.clients, who@), ..old(self)@ }),
            final(self).wf(),
    {
        let ghost all = self.clients@;
        let ghost wanted = marked(all, who@);
        proof {
            lemma_marked_wf(all, who@);
        }
        let mut i: usize = 0;
        while i < self.clients.rows.len()
            invariant
                all == old(self).clients@,
                self.ready == old(self).ready,
                self.reports == old(self).reports,
                self.references == old(self).references,
                wanted == marked(all, who@),
                i <= self.clients.rows@.len() == all.len(),
                forall|j: int| 0 <= j < i ==> #[trigger] self.clients@[j] == wanted[j],
                forall|j: int| i <= j < all.len() ==> #[trigger] self.clients@[j] == all[j],
            decreases self.clients.rows@.len() - i,
        {
            let ghost before = self.clients@;
            assert(self.clients@[i as int] == table::row_view(self.clients.rows@[i as int]));
            let peer = self.clients.rows[i].0;
            let mut found = false;
            let mut k: usize = 0;
            while k < who.len()
                invariant
                    k <= who@.len(),
                    found == exists|j: int| 0 <= j < k && #[trigger] who@[j] == peer,
                decreases who@.len() - k,
            {
                if who[k].0 == peer.0 {
                    assert(who@[k as int] == peer);
                    found = true;
                }
                k += 1;
            }
            assert(found == who@.contains(peer));
            if found {
                let c = TurnClient { out_of_sync: true, ..self.clients.rows[i].1 };
                self.clients.rows.set(i, (peer, c));
            }
            assert(self.clients@[i as int] == table::row_view(self.clients.rows@[i as int]));
            assert(self.clients@ =~= before.update(i as int, wanted[i as int]));
            i += 1;
        }
        assert(self.clients@ =~= wanted);
    }

    /// Compares every turn that everyone has reported on.
    pub fn recheck_pending(&mut self) -> (r: Vec<HashMismatch>)
        requires
            old(self).wf(),
        ensures
            final(self)@ == old(self)@.rechecked().0,
            items::views(r@) == old(self)@.rechecked().1,
            final(self)@.ready == old(self)@.ready,
            final(self).wf(),
    {
        let through: u32 = self.reported();
        let mut rounds: usize = self.reports.len();
        let mut out: Vec<HashMismatch> = Vec::new();
        let ghost wanted = self@.rechecked();
        assert(items::views(out@) =~= Seq::empty());
        assert(items::views(out@) + self@.settled(through, rounds as nat).1 =~= wanted.1);
        while rounds > 0
            invariant
                wanted == old(self)@.rechecked(),
                self.wf(),
                self@.ready == old(self)@.ready,
                wanted.0 == self@.settled(through, rounds as nat).0,
                wanted.1 == items::views(out@) + self@.settled(through, rounds as nat).1,
            decreases rounds,
        {
            let ghost before = self@;
            let ghost so_far = items::views(out@);
            let at: usize = match self.first_complete(through) {
                Some(i) => i,
                None => {
                    proof {
                        assert(so_far + Seq::<HashMismatchView>::empty() =~= so_far);
                    }
                    return out;
                },
            };
            let turn: u32 = self.reports[at].turn;
            let hash = vstd::slice::slice_to_vec(self.reports[at].hash.as_slice());
            let ghost first = self@.reports[at as int];
            assert(first == self.reports@[at as int]@);
            let who = self.disagreeing(turn, &hash);
            self.mark(&who);
            self.drop_reports(turn);
            self.references.put(turn, vstd::slice::slice_to_vec(hash.as_slice()));
            assert(self@ == before.compared(first));
            if who.len() > 0 {
                let m = HashMismatch {
                    turn,
                    mismatched: who,
                    reference: hash,
                    recipient: None,
                };
                let ghost v = m@;
                out.push(m);
                assert(items::views(out@) =~= so_far.push(v));
                assert(before.mismatch(first) =~= seq![v]);
            }
            rounds = rounds - 1;
            proof {
                let later = before.compared(first).settled(through, rounds as nat).1;
                assert(items::views(out@) =~= so_far + before.mismatch(first));
                assert(so_far + (before.mismatch(first) + later) =~= (so_far + before.mismatch(
                    first,
                )) + later);
            }
        }
        assert(items::views(out@) + Seq::<HashMismatchView>::empty() =~= items::views(out@));
        out
    }

    /// The server runs no simulation, so it can only compare what the clients
    /// report, never decide which of them is right.
    pub fn on_state_hash(&mut self, peer: PeerID, turn: u32, hash: Vec<u8>) -> (r: Result<
        Vec<HashMismatch>,
        PeerFault,
    >)
        requires
            old(self).wf(),
        ensures
            match r {
                Err(e) => old(self)@.hash_fault(peer, turn) == Some(e) && final(self)@ == old(
                    self,
                )@,
                Ok(found) => {
                    &&& old(self)@.hash_fault(peer, turn) is None
                    &&& final(self)@ == old(self)@.hashed(peer, turn, hash@).0
                    &&& items::views(found@) == old(self)@.hashed(peer, turn, hash@).1
                },
            },
            final(self)@.ready == old(self)@.ready,
            final(self).wf(),
    {
        proof {
            lemma_client_row(self.clients@, peer, idle_client());
        }
        let c = match self.clients.get(&peer) {
            Some(c) => *c,
            None => return Err(PeerFault::NoSession),
        };
        let want: u32 = c.simulated + 1;
        if turn != want {
            return Err(PeerFault::StateHashOutOfSequence { got: turn, want });
        }
        if turn > self.ready {
            return Err(PeerFault::StateHashAhead { got: turn, ready: self.ready });
        }
        let noted = TurnClient { simulated: turn, ..c };
        proof {
            lemma_client_row(self.clients@, peer, noted);
        }
        self.clients.put(peer, noted);
        let mut out: Vec<HashMismatch> = Vec::new();
        assert(items::views(out@) =~= Seq::empty());
        if c.ai_host {
            return Ok(out);
        }
        let reference = match self.references.get(&turn) {
            Some(h) => Some(vstd::slice::slice_to_vec(h.as_slice())),
            None => None,
        };
        if let Some(reference) = reference {
            if utils::same_bytes(reference.as_slice(), hash.as_slice()) {
                return Ok(out);
            }
            let mut who: Vec<PeerID> = Vec::new();
            who.push(peer);
            assert(who@ =~= seq![peer]);
            self.mark(&who);
            let m = HashMismatch {
                turn,
                mismatched: who,
                reference,
                recipient: if c.delayed {
                    Some(peer)
                } else {
                    None
                },
            };
            let ghost v = m@;
            out.push(m);
            assert(items::views(out@) =~= seq![v]);
            return Ok(out);
        }
        let ghost before = self@;
        let report = Report { turn, peer, hash };
        let ghost v = report@;
        self.reports.push(report);
        assert(items::views(self.reports@) =~= before.reports.push(v));
        Ok(self.recheck_pending())
    }

    /// The hash a turn was compared by.
    pub fn reference(&self, turn: u32) -> (r: Option<&Vec<u8>>)
        ensures
            match r {
                Some(h) => table::lookup(self@.references, turn) == Some(h@),
                None => table::lookup(self@.references, turn) is None,
            },
    {
        self.references.get(&turn)
    }
}

impl Default for TurnManager {
    fn default() -> (r: Self)
        ensures
            r@ == Turns::new(),
            r.wf(),
    {
        TurnManager::new()
    }
}

/// Everything a match was played with: every command, and how long each
/// released turn was.
#[derive(Debug)]
pub struct MatchLog {
    pub turn_lengths: Table<u32, u16>,
    pub commands: Vec<PlayerCommand>,
}

/// What [`MatchLog`] is.
pub struct Log {
    pub turn_lengths: Seq<(u32, u16)>,
    pub commands: Seq<PlayerCommandView>,
}

impl View for MatchLog {
    type V = Log;

    open spec fn view(&self) -> Log {
        Log { turn_lengths: self.turn_lengths@, commands: items::views(self.commands@) }
    }
}

/// The last turn any of these commands is for.
pub open spec fn last_turn(commands: Seq<PlayerCommandView>) -> Option<u32>
    decreases commands.len(),
{
    if commands.len() == 0 {
        None
    } else {
        let turn = commands.last().turn;
        match last_turn(commands.drop_last()) {
            Some(t) if t > turn => Some(t),
            _ => Some(turn),
        }
    }
}

impl Log {
    pub open spec fn new() -> Log {
        Log { turn_lengths: Seq::empty(), commands: Seq::empty() }
    }

    pub open spec fn with_length(self, turn: u32, length: u16) -> Log {
        Log { turn_lengths: table::with_row(self.turn_lengths, turn, length), ..self }
    }

    pub open spec fn with_command(self, command: PlayerCommandView) -> Log {
        Log { commands: self.commands.push(command), ..self }
    }

    /// The commands of a turn, in the order in which they came.
    pub open spec fn commands_for(self, turn: u32) -> Seq<PlayerCommandView> {
        self.commands.filter(|c: PlayerCommandView| c.turn == turn)
    }

    /// How long a turn was, where nothing was recorded as long as given.
    pub open spec fn length_or(self, turn: u32, default: u16) -> u16 {
        match table::lookup(self.turn_lengths, turn) {
            Some(length) => length,
            None => default,
        }
    }
}

impl MatchLog {
    pub fn new() -> (r: Self)
        ensures
            r@ == Log::new(),
    {
        let r = MatchLog { turn_lengths: Table::new(), commands: Vec::new() };
        assert(items::views(r.commands@) =~= Seq::empty());
        r
    }

    pub fn record_turn_length(&mut self, turn: u32, length: u16)
        ensures
            final(self)@ == old(self)@.with_length(turn, length),
    {
        self.turn_lengths.put(turn, length);
    }

    pub fn turn_length(&self, turn: u32) -> (r: Option<u16>)
        ensures
            r == table::lookup(self@.turn_lengths, turn),
    {
        match self.turn_lengths.get(&turn) {
            Some(length) => Some(*length),
            None => None,
        }
    }

    /// How long a turn was, where nothing was recorded as long as given.
    pub fn length_or(&self, turn: u32, default: u16) -> (r: u16)
        ensures
            r == self@.length_or(turn, default),
    {
        match self.turn_lengths.get(&turn) {
            Some(length) => *length,
            None => default,
        }
    }

    pub fn record_command(&mut self, command: PlayerCommand)
        ensures
            final(self)@ == old(self)@.with_command(command@),
    {
        let ghost before = items::views(self.commands@);
        let ghost v = command@;
        self.commands.push(command);
        assert(items::views(self.commands@) =~= before.push(v));
    }

    pub fn commands_for(&self, turn: u32) -> (r: Vec<PlayerCommand>)
        ensures
            items::views(r@) == self@.commands_for(turn),
    {
        let ghost all = self@.commands;
        let ghost mine = |c: PlayerCommandView| c.turn == turn;
        let mut out: Vec<PlayerCommand> = Vec::new();
        let mut i: usize = 0;
        proof {
            utils::lemma_filter_ends(all, mine);
            assert(items::views(out@) =~= Seq::empty());
        }
        while i < self.commands.len()
            invariant
                all == self@.commands,
                mine == (|c: PlayerCommandView| c.turn == turn),
                i <= self.commands@.len(),
                items::views(out@) == all.take(i as int).filter(mine),
            decreases self.commands@.len() - i,
        {
            let ghost so_far = items::views(out@);
            proof {
                utils::lemma_filter_step(all, i as int, mine);
                assert(all[i as int] == self.commands@[i as int]@);
            }
            if self.commands[i].turn == turn {
                let c = self.commands[i].clone();
                let ghost v = c@;
                out.push(c);
                assert(items::views(out@) =~= so_far.push(v));
            }
            i += 1;
        }
        out
    }

    pub fn last_command_turn(&self) -> (r: Option<u32>)
        ensures
            r == last_turn(self@.commands),
    {
        let ghost all = self@.commands;
        let mut last: Option<u32> = None;
        let mut i: usize = 0;
        assert(all.take(0) =~= Seq::empty());
        while i < self.commands.len()
            invariant
                all == self@.commands,
                i <= self.commands@.len(),
                last == last_turn(all.take(i as int)),
            decreases self.commands@.len() - i,
        {
            let turn: u32 = self.commands[i].turn;
            proof {
                assert(all[i as int] == self.commands@[i as int]@);
                assert(all.take(i + 1).drop_last() =~= all.take(i as int));
                assert(all.take(i + 1).last() == all[i as int]);
            }
            last = match last {
                Some(t) if t > turn => Some(t),
                _ => Some(turn),
            };
            i += 1;
        }
        assert(all.take(i as int) =~= all);
        last
    }
}

impl Default for MatchLog {
    fn default() -> (r: Self)
        ensures
            r@ == Log::new(),
    {
        MatchLog::new()
    }
}

} // verus!
