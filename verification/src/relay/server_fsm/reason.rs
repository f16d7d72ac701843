use vstd::prelude::*;

verus! {

/// Why a client is disconnected. Only a number reaches the client, as the data
/// word of the transport's disconnect.
#[derive(Debug, Clone, Copy, PartialEq, Eq, Structural)]
pub enum DisconnectReason {
    ServerShuttingDown,
    GameVersionMismatch,
    ServerLoading,
    MatchInProgress,
    Kicked,
    Banned,
    NameInUse,
    ServerFull,
    LobbyAuthFailed,
    NoUuid,
    OutOfSequenceTurnSeal,
    OutOfSequenceStateHash,
    Refused,
    SimulationOrModMismatch,
}

impl DisconnectReason {
    /// The number on the wire.
    pub open spec fn number(self) -> u32 {
        match self {
            DisconnectReason::ServerShuttingDown => 2,
            DisconnectReason::GameVersionMismatch => 3,
            DisconnectReason::ServerLoading => 4,
            DisconnectReason::MatchInProgress => 5,
            DisconnectReason::Kicked => 6,
            DisconnectReason::Banned => 7,
            DisconnectReason::NameInUse => 8,
            DisconnectReason::ServerFull => 9,
            DisconnectReason::LobbyAuthFailed => 10,
            DisconnectReason::NoUuid => 11,
            DisconnectReason::OutOfSequenceTurnSeal => 12,
            DisconnectReason::OutOfSequenceStateHash => 13,
            DisconnectReason::Refused => 14,
            DisconnectReason::SimulationOrModMismatch => 17,
        }
    }

    pub fn code(self) -> (r: u32)
        ensures
            r == self.number(),
    {
        match self {
            DisconnectReason::ServerShuttingDown => 2,
            DisconnectReason::GameVersionMismatch => 3,
            DisconnectReason::ServerLoading => 4,
            DisconnectReason::MatchInProgress => 5,
            DisconnectReason::Kicked => 6,
            DisconnectReason::Banned => 7,
            DisconnectReason::NameInUse => 8,
            DisconnectReason::ServerFull => 9,
            DisconnectReason::LobbyAuthFailed => 10,
            DisconnectReason::NoUuid => 11,
            DisconnectReason::OutOfSequenceTurnSeal => 12,
            DisconnectReason::OutOfSequenceStateHash => 13,
            DisconnectReason::Refused => 14,
            DisconnectReason::SimulationOrModMismatch => 17,
        }
    }

    /// A client can tell every two reasons apart.
    pub proof fn numbers_differ(self, other: DisconnectReason)
        ensures
            self.number() == other.number() ==> self == other,
    {
    }
}

} // verus!
