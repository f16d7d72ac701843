//! What the thread that owns the socket and the thread that owns the match
//! tell each other.

use vstd::prelude::*;

use crate::relay::monitor::PeerStats;

verus! {

/// A connected peer, by the number the transport gave it.
#[derive(Debug, Clone, Copy, PartialEq, Eq, Hash, Structural)]
pub struct PeerID(pub usize);

/// An IPv4 address, most significant octet first.
#[derive(Debug, Clone, Copy, PartialEq, Eq, Hash, Structural)]
pub struct Ipv4Addr(pub u32);

impl Ipv4Addr {
    /// Whether the address is 127.0.0.0/8.
    pub open spec fn loopback(self) -> bool {
        self.0 / 0x100_0000 == 127
    }

    pub fn is_loopback(self) -> (r: bool)
        ensures
            r == self.loopback(),
    {
        self.0 / 0x100_0000 == 127
    }

    /// Whether the address is 0.0.0.0.
    pub fn is_unspecified(self) -> (r: bool)
        ensures
            r == (self.0 == 0),
    {
        self.0 == 0
    }
}

/// A share of a peer's inbound budget. It is charged where every peer's
/// messages are counted and given back once the copy it stands for is gone,
/// which covers the whole time the copy is alive: waiting and being decoded.
/// That is what lets the budget bound the queue.
#[derive(Debug, PartialEq, Eq)]
pub struct InboundCredit {
    pub bytes: usize,
}

/// A count with so much added; past the largest number it begins anew.
pub open spec fn charged(outstanding: usize, bytes: usize) -> int {
    if outstanding + bytes <= usize::MAX {
        outstanding + bytes
    } else {
        outstanding + bytes - usize::MAX - 1
    }
}

/// A count with so much taken off; below zero it begins at the other end.
pub open spec fn given_back(outstanding: usize, bytes: usize) -> int {
    if bytes <= outstanding {
        outstanding - bytes
    } else {
        outstanding - bytes + usize::MAX + 1
    }
}

/// What is charged and given back leaves the count as it was, whatever else
/// was charged meanwhile.
pub proof fn credit_is_given_back(outstanding: usize, bytes: usize, other: usize)
    ensures
        given_back(charged(outstanding, bytes) as usize, bytes) == outstanding,
        given_back(charged(charged(outstanding, bytes) as usize, other) as usize, bytes)
            == charged(outstanding, other),
{
}

impl InboundCredit {
    /// Charges what is outstanding.
    pub fn new(outstanding: &mut usize, bytes: usize) -> (r: Self)
        ensures
            r.bytes == bytes,
            *final(outstanding) == charged(*old(outstanding), bytes),
    {
        *outstanding = outstanding.wrapping_add(bytes);
        InboundCredit { bytes }
    }

    /// Gives back what was charged.
    pub fn release(self, outstanding: &mut usize)
        ensures
            *final(outstanding) == given_back(*old(outstanding), self.bytes),
    {
        *outstanding = outstanding.wrapping_sub(self.bytes);
    }
}

/// From the socket to the match. Raw bytes cross over on purpose: only the
/// match knows the messages, so the socket's side stays a plain pump.
#[derive(Debug)]
pub enum InboundNetworkMessage {
    Connect { peer: PeerID, addr: Ipv4Addr },
    Disconnect { peer: PeerID, addr: Ipv4Addr, reason: u32 },
    Message { peer: PeerID, data: Vec<u8>, credit: InboundCredit },
    /// The peers' timing, sampled where it can be read. The packet loss and
    /// the byte totals only feed metrics, which is why they travel beside the
    /// timing rather than inside it. The loss is on the transport's own scale;
    /// the totals run since the socket opened and wrap.
    Stats {
        stats: Vec<PeerStats>,
        packet_loss: Vec<(PeerID, u32)>,
        bytes_received: u32,
        bytes_sent: u32,
    },
}

/// What [`InboundNetworkMessage`] is.
pub enum InboundView {
    Connect { peer: PeerID, addr: Ipv4Addr },
    Disconnect { peer: PeerID, addr: Ipv4Addr, reason: u32 },
    Message { peer: PeerID, data: Seq<u8>, bytes: usize },
    Stats {
        stats: Seq<PeerStats>,
        packet_loss: Seq<(PeerID, u32)>,
        bytes_received: u32,
        bytes_sent: u32,
    },
}

impl View for InboundNetworkMessage {
    type V = InboundView;

    open spec fn view(&self) -> InboundView {
        match *self {
            InboundNetworkMessage::Connect { peer, addr } => InboundView::Connect { peer, addr },
            InboundNetworkMessage::Disconnect { peer, addr, reason } => InboundView::Disconnect {
                peer,
                addr,
                reason,
            },
            InboundNetworkMessage::Message { peer, data, credit } => InboundView::Message {
                peer,
                data: data@,
                bytes: credit.bytes,
            },
            InboundNetworkMessage::Stats { stats, packet_loss, bytes_received, bytes_sent } => {
                InboundView::Stats {
                    stats: stats@,
                    packet_loss: packet_loss@,
                    bytes_received,
                    bytes_sent,
                }
            },
        }
    }
}

/// From the match to the socket.
#[derive(Debug)]
pub enum OutboundNetworkMessage {
    Message { peer: PeerID, data: Vec<u8> },
    Disconnect { peer: PeerID, reason: u32 },
    /// Shutdown cannot wait for queued reliable traffic to drain.
    DisconnectNow { peer: PeerID, reason: u32 },
}

/// What [`OutboundNetworkMessage`] is.
pub enum OutboundView {
    Message { peer: PeerID, data: Seq<u8> },
    Disconnect { peer: PeerID, reason: u32 },
    DisconnectNow { peer: PeerID, reason: u32 },
}

impl View for OutboundNetworkMessage {
    type V = OutboundView;

    open spec fn view(&self) -> OutboundView {
        match *self {
            OutboundNetworkMessage::Message { peer, data } => OutboundView::Message {
                peer,
                data: data@,
            },
            OutboundNetworkMessage::Disconnect { peer, reason } => OutboundView::Disconnect {
                peer,
                reason,
            },
            OutboundNetworkMessage::DisconnectNow { peer, reason } => {
                OutboundView::DisconnectNow { peer, reason }
            },
        }
    }
}

} // verus!
