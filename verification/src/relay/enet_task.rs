//! What the side that owns the socket decides: what it passes on, what it
//! drops, and whom it gives up on.

use vstd::prelude::*;

use crate::clock;
use crate::clock::Time;
use crate::network_message::InboundCredit;
use crate::network_message::InboundNetworkMessage;
use crate::network_message::InboundView;
use crate::network_message::Ipv4Addr;
use crate::network_message::OutboundNetworkMessage;
use crate::network_message::OutboundView;
use crate::network_message::PeerID;
use crate::relay::messages::items;
use crate::relay::monitor::PeerStats;
use crate::relay::server_fsm::reason::DisconnectReason;
use crate::table;
use crate::table::Table;

verus! {

/// Deliberately above the stock server's 41-peer cap so more observers fit.
pub const PEER_LIMIT: usize = 200;

/// Every message rides one reliable channel, so ordering is guaranteed.
pub const CHANNEL_LIMIT: usize = 1;

/// Stock clients declare this MTU; a host that negotiates a different one is
/// rejected.
pub const HOST_MTU: u16 = 1372;

pub const MAX_EVENTS_PER_TICK: usize = 256;

/// Milliseconds between samples of the peers' timing: the cadence of the
/// connection warnings, so sampling any faster would only produce readings
/// nothing looks at.
pub const STATS_INTERVAL: i64 = 1000;

/// What may be on its way to the match from one peer. The transport's own
/// budget is given back the moment a packet is dispatched, so without this a
/// peer that keeps the match busy could grow the queue without limit.
pub const MAX_INBOUND_BYTES_PER_PEER: usize = 262_144;

/// Nothing bounds what stays queued for a peer that acknowledges just often
/// enough to avoid its timeout while the match keeps broadcasting turns.
pub const MAX_OUTGOING_QUEUE_BYTES: usize = 1_048_576;

/// Samples in a row a peer's outgoing queue must stay over the cap before it
/// is dropped. Long enough that an honest burst, a delayed observer replaying
/// everything from its snapshot, drains well within it.
pub const SLOW_PEER_GRACE_SAMPLES: u32 = 30;

/// What the transport may hold. Its own defaults let any sender that completes
/// the connect, before any handshake, make the host buffer tens of MiB a peer.
#[derive(Debug, Clone, Copy, PartialEq, Eq, Structural)]
pub struct EnetLimits {
    pub max_packet_bytes: usize,
    pub max_waiting_bytes: usize,
}

/// What the transport reports of a peer.
#[derive(Debug)]
pub enum HostEvent {
    Connect { peer: PeerID },
    Disconnect { peer: PeerID, reason: u32 },
    Receive { peer: PeerID, data: Vec<u8> },
}

/// What [`HostEvent`] is.
pub enum HostEventView {
    Connect { peer: PeerID },
    Disconnect { peer: PeerID, reason: u32 },
    Receive { peer: PeerID, data: Seq<u8> },
}

impl View for HostEvent {
    type V = HostEventView;

    open spec fn view(&self) -> HostEventView {
        match *self {
            HostEvent::Connect { peer } => HostEventView::Connect { peer },
            HostEvent::Disconnect { peer, reason } => HostEventView::Disconnect { peer, reason },
            HostEvent::Receive { peer, data } => HostEventView::Receive { peer, data: data@ },
        }
    }
}

/// What is done about it.
#[derive(Debug)]
pub enum Taken {
    Forward(InboundNetworkMessage),
    /// The peer's budget is used up, so the packet is dropped.
    Dropped,
    /// Disconnected at once.
    Refused { peer: PeerID, reason: u32 },
}

/// What [`Taken`] is.
pub enum TakenView {
    Forward(InboundView),
    Dropped,
    Refused { peer: PeerID, reason: u32 },
}

impl View for Taken {
    type V = TakenView;

    open spec fn view(&self) -> TakenView {
        match *self {
            Taken::Forward(message) => TakenView::Forward(message@),
            Taken::Dropped => TakenView::Dropped,
            Taken::Refused { peer, reason } => TakenView::Refused { peer, reason },
        }
    }
}

/// One thing to do with the transport.
#[derive(Debug)]
pub enum HostStep {
    /// Reliably, on the one channel.
    Send { peer: PeerID, data: Vec<u8> },
    /// Waits for what is queued to go out first.
    DisconnectLater { peer: PeerID, reason: u32 },
    /// Throws away what is queued.
    DisconnectNow { peer: PeerID, reason: u32 },
    Flush,
}

/// What [`HostStep`] is.
pub enum HostStepView {
    Send { peer: PeerID, data: Seq<u8> },
    DisconnectLater { peer: PeerID, reason: u32 },
    DisconnectNow { peer: PeerID, reason: u32 },
    Flush,
}

impl View for HostStep {
    type V = HostStepView;

    open spec fn view(&self) -> HostStepView {
        match *self {
            HostStep::Send { peer, data } => HostStepView::Send { peer, data: data@ },
            HostStep::DisconnectLater { peer, reason } => HostStepView::DisconnectLater {
                peer,
                reason,
            },
            HostStep::DisconnectNow { peer, reason } => HostStepView::DisconnectNow {
                peer,
                reason,
            },
            HostStep::Flush => HostStepView::Flush,
        }
    }
}

/// What is done to the transport for the match. An immediate disconnect throws
/// the peer's queue away, so what was queued just before it, such as a last
/// chat line, has to be on the wire first; an ordinary one waits for it.
pub open spec fn steps_for(message: OutboundView) -> Seq<HostStepView> {
    match message {
        OutboundView::Message { peer, data } => seq![HostStepView::Send { peer, data }],
        OutboundView::Disconnect { peer, reason } => seq![
            HostStepView::DisconnectLater { peer, reason },
        ],
        OutboundView::DisconnectNow { peer, reason } => seq![
            HostStepView::Flush,
            HostStepView::DisconnectNow { peer, reason },
        ],
    }
}

pub fn host_steps(message: OutboundNetworkMessage) -> (r: Vec<HostStep>)
    ensures
        items::views(r@) == steps_for(message@),
{
    let mut steps: Vec<HostStep> = Vec::new();
    match message {
        OutboundNetworkMessage::Message { peer, data } => {
            steps.push(HostStep::Send { peer, data });
        },
        OutboundNetworkMessage::Disconnect { peer, reason } => {
            steps.push(HostStep::DisconnectLater { peer, reason });
        },
        OutboundNetworkMessage::DisconnectNow { peer, reason } => {
            steps.push(HostStep::Flush);
            steps.push(HostStep::DisconnectNow { peer, reason });
        },
    }
    assert(items::views(steps@) =~= steps_for(message@));
    steps
}

/// Whether a packet fits into what is left of the peer's budget.
pub open spec fn fits(outstanding: usize, len: nat) -> bool {
    outstanding + len <= MAX_INBOUND_BYTES_PER_PEER
}

/// What is done about an event of a peer at this address, with this much of
/// its budget out. The socket is IPv4 only, so a peer with any other address
/// should never be there; dropping it keeps the game alive.
pub open spec fn taken(
    event: HostEventView,
    addr: Option<Ipv4Addr>,
    outstanding: usize,
) -> TakenView {
    match (addr, event) {
        (None, HostEventView::Connect { peer }) => TakenView::Refused {
            peer,
            reason: DisconnectReason::Refused.number(),
        },
        (None, HostEventView::Disconnect { peer, .. }) => TakenView::Refused {
            peer,
            reason: DisconnectReason::Refused.number(),
        },
        (None, HostEventView::Receive { peer, .. }) => TakenView::Refused {
            peer,
            reason: DisconnectReason::Refused.number(),
        },
        (Some(addr), HostEventView::Connect { peer }) => TakenView::Forward(
            InboundView::Connect { peer, addr },
        ),
        (Some(addr), HostEventView::Disconnect { peer, reason }) => TakenView::Forward(
            InboundView::Disconnect { peer, addr, reason },
        ),
        (Some(addr), HostEventView::Receive { peer, data }) => if fits(outstanding, data.len()) {
            TakenView::Forward(
                InboundView::Message { peer, data, bytes: data.len() as usize },
            )
        } else {
            TakenView::Dropped
        },
    }
}

/// A peer's budget is never overdrawn: what a forwarded packet is charged
/// leaves no more than the budget outstanding.
pub proof fn budgets_hold(
    event: HostEventView,
    addr: Option<Ipv4Addr>,
    outstanding: usize,
    peer: PeerID,
    data: Seq<u8>,
    bytes: usize,
)
    requires
        data.len() <= usize::MAX,
        taken(event, addr, outstanding) == TakenView::Forward(
            InboundView::Message { peer, data, bytes },
        ),
    ensures
        bytes == data.len(),
        outstanding + bytes <= MAX_INBOUND_BYTES_PER_PEER,
{
}

/// What a peer's row holds.
pub open spec fn count_of(rows: Seq<(PeerID, u32)>, peer: PeerID) -> u32 {
    match table::lookup(rows, peer) {
        Some(n) => n,
        None => 0,
    }
}

/// A peer's samples in a row over the cap, after one more sample.
pub open spec fn counted(n: u32, queued: usize) -> u32 {
    if queued <= MAX_OUTGOING_QUEUE_BYTES {
        0
    } else if n == u32::MAX {
        n
    } else {
        (n + 1) as u32
    }
}

/// Whether a peer's sample is the one that ends its grace.
pub open spec fn is_slow(n: u32, queued: usize) -> bool {
    queued > MAX_OUTGOING_QUEUE_BYTES && counted(n, queued) >= SLOW_PEER_GRACE_SAMPLES
}

/// The rows after these samples.
pub open spec fn counted_all(
    rows: Seq<(PeerID, u32)>,
    samples: Seq<(PeerID, usize)>,
) -> Seq<(PeerID, u32)>
    decreases samples.len(),
{
    if samples.len() == 0 {
        rows
    } else {
        let before = counted_all(rows, samples.drop_last());
        let (peer, queued) = samples.last();
        table::with_row(before, peer, counted(count_of(before, peer), queued))
    }
}

/// Whose grace these samples end.
pub open spec fn slow_in(
    rows: Seq<(PeerID, u32)>,
    samples: Seq<(PeerID, usize)>,
) -> Seq<PeerID>
    decreases samples.len(),
{
    if samples.len() == 0 {
        Seq::empty()
    } else {
        let before = slow_in(rows, samples.drop_last());
        let (peer, queued) = samples.last();
        if is_slow(count_of(counted_all(rows, samples.drop_last()), peer), queued) {
            before.push(peer)
        } else {
            before
        }
    }
}

/// The rows without these peers'.
pub open spec fn without_all(rows: Seq<(PeerID, u32)>, peers: Seq<PeerID>) -> Seq<(PeerID, u32)>
    decreases peers.len(),
{
    if peers.len() == 0 {
        rows
    } else {
        table::without_row(without_all(rows, peers.drop_last()), peers.last())
    }
}

/// The rows after a pass over the connected peers. Whoever is dropped starts
/// afresh, should it come back.
pub open spec fn after_pass(
    rows: Seq<(PeerID, u32)>,
    samples: Seq<(PeerID, usize)>,
) -> Seq<(PeerID, u32)> {
    without_all(counted_all(rows, samples), slow_in(rows, samples))
}

/// The rows after passes over one peer alone.
pub open spec fn after_passes(
    rows: Seq<(PeerID, u32)>,
    peer: PeerID,
    history: Seq<usize>,
) -> Seq<(PeerID, u32)>
    decreases history.len(),
{
    if history.len() == 0 {
        rows
    } else {
        after_pass(
            after_passes(rows, peer, history.drop_last()),
            seq![(peer, history.last())],
        )
    }
}

/// Nobody is dropped for a burst: a peer's grace ends only with a sample that
/// is over the cap, after as many before it, in a row, as the grace is long.
pub proof fn bursts_are_forgiven(
    rows: Seq<(PeerID, u32)>,
    peer: PeerID,
    history: Seq<usize>,
    queued: usize,
)
    requires
        table::distinct(rows),
        table::lookup(rows, peer) is None,
        slow_in(after_passes(rows, peer, history), seq![(peer, queued)]).contains(peer),
    ensures
        queued > MAX_OUTGOING_QUEUE_BYTES,
        history.len() >= SLOW_PEER_GRACE_SAMPLES - 1,
        forall|i: int|
            history.len() - (SLOW_PEER_GRACE_SAMPLES - 1) <= i < history.len() ==> #[trigger]
                history[i] > MAX_OUTGOING_QUEUE_BYTES,
{
    let now = after_passes(rows, peer, history);
    lemma_run(rows, peer, history);
    lemma_one(now, peer, queued);
}

proof fn lemma_one(rows: Seq<(PeerID, u32)>, peer: PeerID, queued: usize)
    ensures
        counted_all(rows, seq![(peer, queued)]) == table::with_row(
            rows,
            peer,
            counted(count_of(rows, peer), queued),
        ),
        slow_in(rows, seq![(peer, queued)]) == (if is_slow(count_of(rows, peer), queued) {
            seq![peer]
        } else {
            Seq::empty()
        }),
{
    reveal_with_fuel(counted_all, 2);
    reveal_with_fuel(slow_in, 2);
    let one = seq![(peer, queued)];
    assert(one.drop_last() =~= Seq::empty());
    assert(one.last() == (peer, queued));
    assert(Seq::<PeerID>::empty().push(peer) =~= seq![peer]);
}

proof fn lemma_run(rows: Seq<(PeerID, u32)>, peer: PeerID, history: Seq<usize>)
    requires
        table::distinct(rows),
        table::lookup(rows, peer) is None,
    ensures
        table::distinct(after_passes(rows, peer, history)),
        ({
            let n = count_of(after_passes(rows, peer, history), peer);
            n <= history.len() && forall|i: int|
                history.len() - n <= i < history.len() ==> #[trigger] history[i]
                    > MAX_OUTGOING_QUEUE_BYTES
        }),
    decreases history.len(),
{
    if history.len() > 0 {
        let earlier = history.drop_last();
        let before = after_passes(rows, peer, earlier);
        lemma_run(rows, peer, earlier);
        let queued = history.last();
        lemma_one(before, peer, queued);
        let n = count_of(before, peer);
        let after = table::with_row(before, peer, counted(n, queued));
        table::lemma_with_row_lookup(before, peer, counted(n, queued), peer);
        table::lemma_with_row_distinct(before, peer, counted(n, queued));
        table::lemma_without_row_distinct(after, peer);
        reveal_with_fuel(without_all, 2);
        assert(seq![peer].drop_last() =~= Seq::<PeerID>::empty());
        let now = after_passes(rows, peer, history);
        let m = count_of(now, peer);
        assert forall|i: int| history.len() - m <= i < history.len() implies #[trigger] history[i]
            > MAX_OUTGOING_QUEUE_BYTES by {
            if i < history.len() - 1 {
                assert(history[i] == earlier[i]);
            }
        }
    }
}

/// What the socket's side keeps of its peers: how many samples in a row each
/// one's outgoing queue has been over the cap.
#[derive(Debug)]
pub struct SlowPeers {
    pub over_cap: Table<PeerID, u32>,
}

impl SlowPeers {
    pub fn new() -> (r: Self)
        ensures
            r.over_cap@ == Seq::<(PeerID, u32)>::empty(),
    {
        SlowPeers { over_cap: Table::new() }
    }

    /// A peer is gone.
    pub fn forget(&mut self, peer: PeerID)
        ensures
            final(self).over_cap@ == table::without_row(old(self).over_cap@, peer),
    {
        let _ = self.over_cap.take(&peer);
    }

    fn count(&mut self, peer: PeerID, queued: usize) -> (r: bool)
        ensures
            r == is_slow(count_of(old(self).over_cap@, peer), queued),
            final(self).over_cap@ == table::with_row(
                old(self).over_cap@,
                peer,
                counted(count_of(old(self).over_cap@, peer), queued),
            ),
    {
        let n: u32 = match self.over_cap.get(&peer) {
            Some(n) => *n,
            None => 0,
        };
        if queued <= MAX_OUTGOING_QUEUE_BYTES {
            self.over_cap.put(peer, 0);
            return false;
        }
        let m: u32 = if n == u32::MAX {
            n
        } else {
            n + 1
        };
        self.over_cap.put(peer, m);
        m >= SLOW_PEER_GRACE_SAMPLES
    }

    fn forget_all(&mut self, peers: &Vec<PeerID>)
        ensures
            final(self).over_cap@ == without_all(old(self).over_cap@, peers@),
    {
        let ghost rows = self.over_cap@;
        let mut i: usize = 0;
        assert(peers@.take(0) =~= Seq::empty());
        while i < peers.len()
            invariant
                i <= peers@.len(),
                self.over_cap@ == without_all(rows, peers@.take(i as int)),
            decreases peers@.len() - i,
        {
            proof {
                assert(peers@.take(i + 1).drop_last() =~= peers@.take(i as int));
            }
            self.forget(peers[i]);
            i += 1;
        }
        assert(peers@.take(i as int) =~= peers@);
    }

    /// A pass over the connected peers with what is queued for each: whoever
    /// has not been draining it for too long.
    pub fn pass(&mut self, samples: &Vec<(PeerID, usize)>) -> (r: Vec<PeerID>)
        ensures
            r@ == slow_in(old(self).over_cap@, samples@),
            final(self).over_cap@ == after_pass(old(self).over_cap@, samples@),
    {
        let ghost rows = self.over_cap@;
        let mut slow: Vec<PeerID> = Vec::new();
        let mut i: usize = 0;
        assert(samples@.take(0) =~= Seq::empty());
        while i < samples.len()
            invariant
                i <= samples@.len(),
                self.over_cap@ == counted_all(rows, samples@.take(i as int)),
                slow@ == slow_in(rows, samples@.take(i as int)),
            decreases samples@.len() - i,
        {
            proof {
                assert(samples@.take(i + 1).drop_last() =~= samples@.take(i as int));
                assert(samples@.take(i + 1).last() == samples@[i as int]);
            }
            let (peer, queued) = samples[i];
            if self.count(peer, queued) {
                slow.push(peer);
            }
            i += 1;
        }
        assert(samples@.take(i as int) =~= samples@);
        self.forget_all(&slow);
        slow
    }
}

/// What is done about an event of a peer at this address, with this much of
/// its budget out.
pub fn take_in(event: HostEvent, addr: Option<Ipv4Addr>, outstanding: usize) -> (r: Taken)
    ensures
        r@ == taken(event@, addr, outstanding),
{
    let peer = match &event {
        HostEvent::Connect { peer } => *peer,
        HostEvent::Disconnect { peer, reason: _ } => *peer,
        HostEvent::Receive { peer, data: _ } => *peer,
    };
    let addr = match addr {
        Some(addr) => addr,
        None => return Taken::Refused { peer, reason: DisconnectReason::Refused.code() },
    };
    match event {
        HostEvent::Connect { peer } => Taken::Forward(
            InboundNetworkMessage::Connect { peer, addr },
        ),
        HostEvent::Disconnect { peer, reason } => Taken::Forward(
            InboundNetworkMessage::Disconnect { peer, addr, reason },
        ),
        HostEvent::Receive { peer, data } => {
            let len: usize = data.len();
            if outstanding > MAX_INBOUND_BYTES_PER_PEER || len > MAX_INBOUND_BYTES_PER_PEER
                - outstanding {
                return Taken::Dropped;
            }
            let mut charged: usize = outstanding;
            let credit = InboundCredit::new(&mut charged, len);
            Taken::Forward(InboundNetworkMessage::Message { peer, data, credit })
        },
    }
}

/// How much a running total has grown. Totals start over now and then; a
/// smaller one is all new.
pub open spec fn grown(last: u32, total: u32) -> u32 {
    if total >= last {
        (total - last) as u32
    } else {
        total
    }
}

fn growth(last: u32, total: u32) -> (r: u32)
    ensures
        r == grown(last, total),
{
    if total >= last {
        total - last
    } else {
        total
    }
}

/// What is worked out of a peer from its running totals: the transport says
/// neither when a peer was last heard nor what is queued for it.
#[derive(Debug, Clone, Copy, PartialEq, Eq, Structural)]
pub struct Meter {
    pub received: u32,
    pub sent: u32,
    /// On the transport's own millisecond clock.
    pub last_heard: u32,
    pub queued: usize,
}

impl View for Meter {
    type V = Meter;

    open spec fn view(&self) -> Meter {
        *self
    }
}

impl Meter {
    pub open spec fn fresh(now: u32) -> Meter {
        Meter { received: 0, sent: 0, last_heard: now, queued: 0 }
    }

    /// With new totals: a peer was heard if more came in, and what went out is
    /// no longer queued.
    pub open spec fn read(self, now: u32, received: u32, sent: u32) -> Meter {
        let gone = grown(self.sent, sent);
        Meter {
            received,
            sent,
            last_heard: if grown(self.received, received) > 0 {
                now
            } else {
                self.last_heard
            },
            queued: if gone <= self.queued {
                (self.queued - gone) as usize
            } else {
                0
            },
        }
    }

    /// With more queued; the count stops at the largest number.
    pub open spec fn loaded(self, bytes: usize) -> Meter {
        Meter {
            queued: if self.queued + bytes <= usize::MAX {
                (self.queued + bytes) as usize
            } else {
                usize::MAX
            },
            ..self
        }
    }
}

/// A peer's meter; one that was never seen is heard now.
pub open spec fn meter_of(rows: Seq<(PeerID, Meter)>, peer: PeerID, now: u32) -> Meter {
    match table::lookup(rows, peer) {
        Some(m) => m,
        None => Meter::fresh(now),
    }
}

/// The peers' meters, and what went over the socket since it was opened. Those
/// totals wrap.
#[derive(Debug)]
pub struct Meters {
    pub peers: Table<PeerID, Meter>,
    pub received: u32,
    pub sent: u32,
}

/// What [`Meters`] is.
pub struct MetersView {
    pub peers: Seq<(PeerID, Meter)>,
    pub received: u32,
    pub sent: u32,
}

impl View for Meters {
    type V = MetersView;

    open spec fn view(&self) -> MetersView {
        MetersView { peers: self.peers@, received: self.received, sent: self.sent }
    }
}

/// A wrapping total that has grown.
pub open spec fn wrapped(total: u32, more: u32) -> u32 {
    if total + more <= u32::MAX {
        (total + more) as u32
    } else {
        (total + more - 0x1_0000_0000) as u32
    }
}

impl MetersView {
    pub open spec fn read(self, peer: PeerID, now: u32, received: u32, sent: u32) -> MetersView {
        let m = meter_of(self.peers, peer, now);
        MetersView {
            peers: table::with_row(self.peers, peer, m.read(now, received, sent)),
            received: wrapped(self.received, grown(m.received, received)),
            sent: wrapped(self.sent, grown(m.sent, sent)),
        }
    }
}

impl Meters {
    pub fn new() -> (r: Self)
        ensures
            r@ == (MetersView { peers: Seq::empty(), received: 0, sent: 0 }),
    {
        Meters { peers: Table::new(), received: 0, sent: 0 }
    }

    fn get(&self, peer: PeerID, now: u32) -> (r: Meter)
        ensures
            r == meter_of(self@.peers, peer, now),
    {
        match self.peers.get(&peer) {
            Some(m) => *m,
            None => Meter { received: 0, sent: 0, last_heard: now, queued: 0 },
        }
    }

    /// A peer's totals, read off the transport.
    pub fn read(&mut self, peer: PeerID, now: u32, received: u32, sent: u32)
        ensures
            final(self)@ == old(self)@.read(peer, now, received, sent),
    {
        let m = self.get(peer, now);
        let more: u32 = growth(m.received, received);
        let gone: u32 = growth(m.sent, sent);
        let last_heard: u32 = if more > 0 {
            now
        } else {
            m.last_heard
        };
        let queued: usize = if gone as usize <= m.queued {
            m.queued - gone as usize
        } else {
            0
        };
        self.peers.put(peer, Meter { received, sent, last_heard, queued });
        self.received = self.received.wrapping_add(more);
        self.sent = self.sent.wrapping_add(gone);
    }

    /// Bytes were queued for a peer.
    pub fn load(&mut self, peer: PeerID, now: u32, bytes: usize)
        ensures
            final(self)@ == (MetersView {
                peers: table::with_row(
                    old(self)@.peers,
                    peer,
                    meter_of(old(self)@.peers, peer, now).loaded(bytes),
                ),
                ..old(self)@
            }),
    {
        let m = self.get(peer, now);
        self.peers.put(peer, Meter { queued: m.queued.saturating_add(bytes), ..m });
    }

    /// A peer is gone.
    pub fn forget(&mut self, peer: PeerID)
        ensures
            final(self)@ == (MetersView {
                peers: table::without_row(old(self)@.peers, peer),
                ..old(self)@
            }),
    {
        let _ = self.peers.take(&peer);
    }

    pub fn last_heard(&self, peer: PeerID, now: u32) -> (r: u32)
        ensures
            r == meter_of(self@.peers, peer, now).last_heard,
    {
        self.get(peer, now).last_heard
    }

    pub fn queued(&self, peer: PeerID) -> (r: usize)
        ensures
            r == meter_of(self@.peers, peer, 0).queued,
    {
        self.get(peer, 0).queued
    }
}

/// Whether the peers' timing is sampled now.
pub fn stats_due(last: Time, now: Time) -> (r: bool)
    ensures
        r == clock::interval_due(Some(last), now, clock::ms(STATS_INTERVAL)),
{
    clock::due_again(Some(last), now, STATS_INTERVAL)
}

/// The time since a moment on a millisecond clock that wraps.
pub open spec fn since_on_wrapping(now: u32, then: u32) -> int {
    if now >= then {
        now - then
    } else {
        now - then + 0x1_0000_0000
    }
}

/// A peer's timing. Both sides of the silence are the transport's own
/// millisecond clock.
pub fn peer_stats(peer: PeerID, mean_rtt: i64, now: u32, last_received: u32) -> (r: PeerStats)
    ensures
        r.peer == peer,
        r.mean_rtt == mean_rtt,
        r.since_last_received == since_on_wrapping(now, last_received),
{
    PeerStats {
        peer,
        mean_rtt,
        since_last_received: now.wrapping_sub(last_received) as i64,
    }
}

} // verus!
