use vstd::prelude::*;

verus! {

/// How an admission went.
#[derive(Debug, Copy, Clone, PartialEq, Eq, Structural)]
pub enum AuthenticateResultCode {
    Okay,
    OkSavedGame,
    OkRejoining,
    PasswordInvalid,
}

impl AuthenticateResultCode {
    /// The number on the wire.
    pub open spec fn number(self) -> u32 {
        match self {
            AuthenticateResultCode::Okay => 0,
            AuthenticateResultCode::OkSavedGame => 1,
            AuthenticateResultCode::OkRejoining => 2,
            AuthenticateResultCode::PasswordInvalid => 3,
        }
    }

    /// What a number on the wire means; every number past the last says that
    /// the password was refused.
    pub open spec fn of(n: u32) -> AuthenticateResultCode {
        if n == 0 {
            AuthenticateResultCode::Okay
        } else if n == 1 {
            AuthenticateResultCode::OkSavedGame
        } else if n == 2 {
            AuthenticateResultCode::OkRejoining
        } else {
            AuthenticateResultCode::PasswordInvalid
        }
    }

    pub fn to_number(self) -> (r: u32)
        ensures
            r == self.number(),
    {
        match self {
            AuthenticateResultCode::Okay => 0,
            AuthenticateResultCode::OkSavedGame => 1,
            AuthenticateResultCode::OkRejoining => 2,
            AuthenticateResultCode::PasswordInvalid => 3,
        }
    }

    pub fn from_number(n: u32) -> (r: AuthenticateResultCode)
        ensures
            r == AuthenticateResultCode::of(n),
    {
        match n {
            0 => AuthenticateResultCode::Okay,
            1 => AuthenticateResultCode::OkSavedGame,
            2 => AuthenticateResultCode::OkRejoining,
            _ => AuthenticateResultCode::PasswordInvalid,
        }
    }
}

} // verus!
