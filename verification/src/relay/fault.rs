use vstd::prelude::*;

use crate::relay::server_fsm::DisconnectReason;

verus! {

/// Why a packet could not be decoded.
///
/// Field names are `&'static str` rather than `String`: every variant is
/// reachable from a hostile packet, so decoding a bad message must not
/// allocate.
#[derive(Debug, Clone, Copy, PartialEq, Eq)]
pub enum ParseError {
    Truncated { field: &'static str },
    BadUtf8 { field: &'static str },
    SizeMismatch { declared: usize, actual: usize },
    WrongSize { field: &'static str, declared: usize, should_be: usize },
    UnknownType(u8),
}

/// What was wrong with what a peer sent. It is never the server's error: it is
/// the peer's input being unacceptable, and every variant has exactly one
/// consequence on the wire.
#[derive(Debug, Clone, Copy, PartialEq, Eq)]
pub enum PeerFault {
    NoSession,
    NotController,
    WrongPhase,
    Malformed(ParseError),
    TurnSealOutOfSequence { got: u32, want: u32 },
    StateHashOutOfSequence { got: u32, want: u32 },
    TurnSealAhead { got: u32, ready: u32 },
    StateHashAhead { got: u32, ready: u32 },
    TransferOverrun,
    Flooding,
    LoadedBeforeSnapshot,
    LoadedTurnOutOfRange { got: u32, lo: u32, hi: u32 },
}

impl PeerFault {
    /// What it costs the peer.
    pub open spec fn consequence(self) -> Option<DisconnectReason> {
        match self {
            PeerFault::TurnSealOutOfSequence { .. } => Some(
                DisconnectReason::OutOfSequenceTurnSeal,
            ),
            PeerFault::TurnSealAhead { .. } => Some(DisconnectReason::OutOfSequenceTurnSeal),
            PeerFault::StateHashOutOfSequence { .. } => Some(
                DisconnectReason::OutOfSequenceStateHash,
            ),
            PeerFault::StateHashAhead { .. } => Some(DisconnectReason::OutOfSequenceStateHash),
            PeerFault::Flooding => Some(DisconnectReason::Kicked),
            PeerFault::LoadedBeforeSnapshot => Some(DisconnectReason::Kicked),
            PeerFault::LoadedTurnOutOfRange { .. } => Some(DisconnectReason::Kicked),
            _ => None,
        }
    }

    /// None means the message is dropped and the connection stays open, which
    /// is what the protocol asks for anything unaccepted in the current phase.
    pub fn reason(&self) -> (r: Option<DisconnectReason>)
        ensures
            r == self.consequence(),
    {
        match self {
            PeerFault::TurnSealOutOfSequence { .. } | PeerFault::TurnSealAhead { .. } => Some(
                DisconnectReason::OutOfSequenceTurnSeal,
            ),
            PeerFault::StateHashOutOfSequence { .. } | PeerFault::StateHashAhead { .. } => Some(
                DisconnectReason::OutOfSequenceStateHash,
            ),
            // The protocol has no code for flooding; this one is what the
            // client shows for being removed over its own behaviour.
            PeerFault::Flooding => Some(DisconnectReason::Kicked),
            // Likewise no code exists for a joiner lying about its snapshot,
            // which only a tampered client can do.
            PeerFault::LoadedBeforeSnapshot | PeerFault::LoadedTurnOutOfRange { .. } => Some(
                DisconnectReason::Kicked,
            ),
            PeerFault::NoSession | PeerFault::NotController | PeerFault::WrongPhase
            | PeerFault::Malformed(_) | PeerFault::TransferOverrun => None,
        }
    }
}

} // verus!
