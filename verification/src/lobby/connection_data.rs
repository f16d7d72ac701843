//! Who is told where a game is.

use vstd::prelude::*;

use crate::relay::password;
use crate::table;
use crate::table::Table;
use crate::utils;

verus! {

pub const NS_CONNECTIONDATA: &'static str = "jabber:iq:connectiondata";

/// Wrong passwords before a name is refused any further reply.
pub const MAX_FAILURES: u32 = 3;

/// What an account knows about the game it currently hosts. The stored
/// password hash is handed in whole; an account never sees the password.
#[derive(Debug)]
pub struct Assignment {
    pub port: u16,
    pub password_hash: String,
}

/// What [`Assignment`] is.
pub struct AssignmentView {
    pub port: u16,
    pub password_hash: Seq<char>,
}

impl View for Assignment {
    type V = AssignmentView;

    open spec fn view(&self) -> AssignmentView {
        AssignmentView { port: self.port, password_hash: self.password_hash@ }
    }
}

impl AssignmentView {
    /// The stored hash is one that can be hashed again.
    pub open spec fn wf(self) -> bool {
        vstd::utf8::encode_utf8(self.password_hash).len() <= 0xffff_ffff
    }
}

/// What a client that asks is told.
#[derive(Debug, Clone, Copy, PartialEq, Eq, Structural)]
pub enum Reply {
    NotServer,
    Banned,
    InvalidPassword,
    /// The game's address, with this port.
    Address(u16),
}

impl Reply {
    /// The error on the wire.
    pub open spec fn error_text(self) -> Option<Seq<char>> {
        match self {
            Reply::NotServer => Some("not_server"@),
            Reply::Banned => Some("banned"@),
            Reply::InvalidPassword => Some("invalid_password"@),
            Reply::Address(_) => None,
        }
    }

    pub fn error(self) -> (r: Option<&'static str>)
        ensures
            match r {
                Some(t) => self.error_text() == Some(t@),
                None => self.error_text() is None,
            },
    {
        match self {
            Reply::NotServer => Some("not_server"),
            Reply::Banned => Some("banned"),
            Reply::InvalidPassword => Some("invalid_password"),
            Reply::Address(_) => None,
        }
    }

    /// What the reply is counted as.
    pub open spec fn label(self) -> Seq<char> {
        match self {
            Reply::NotServer => "no_game"@,
            Reply::Banned => "banned"@,
            Reply::InvalidPassword => "wrong_password"@,
            Reply::Address(_) => "ok"@,
        }
    }

    pub fn counted_as(self) -> (r: &'static str)
        ensures
            r@ == self.label(),
    {
        match self {
            Reply::NotServer => "no_game",
            Reply::Banned => "banned",
            Reply::InvalidPassword => "wrong_password",
            Reply::Address(_) => "ok",
        }
    }
}

/// How often a name has been wrong.
pub open spec fn strikes(failures: Seq<(Seq<char>, u32)>, username: Seq<char>) -> u32 {
    match table::lookup(failures, username) {
        Some(n) => n,
        None => 0,
    }
}

/// What a client that asks is told, given what its salt makes of the stored
/// hash. A name that has been wrong too often is not even looked at.
pub open spec fn answer(
    assignment: AssignmentView,
    failures: Seq<(Seq<char>, u32)>,
    username: Seq<char>,
    given: Seq<char>,
    expected: Seq<char>,
) -> Reply {
    if strikes(failures, username) >= MAX_FAILURES {
        Reply::Banned
    } else if given != expected {
        Reply::InvalidPassword
    } else {
        Reply::Address(assignment.port)
    }
}

/// The strikes after that: a wrong password is one more, a right one clears
/// them.
pub open spec fn struck(
    failures: Seq<(Seq<char>, u32)>,
    username: Seq<char>,
    given: Seq<char>,
    expected: Seq<char>,
) -> Seq<(Seq<char>, u32)> {
    if strikes(failures, username) >= MAX_FAILURES {
        failures
    } else if given != expected {
        table::with_row(failures, username, (strikes(failures, username) + 1) as u32)
    } else {
        table::without_row(failures, username)
    }
}

/// What a client must send: the stored hash under the client's own salt.
pub open spec fn expected_of(assignment: AssignmentView, salt: Seq<char>) -> Seq<char> {
    password::hashed(assignment.password_hash, vstd::utf8::encode_utf8(salt))
}

/// The strikes after as many wrong passwords from one name.
pub open spec fn struck_times(
    failures: Seq<(Seq<char>, u32)>,
    username: Seq<char>,
    given: Seq<char>,
    expected: Seq<char>,
    n: nat,
) -> Seq<(Seq<char>, u32)>
    decreases n,
{
    if n == 0 {
        failures
    } else {
        struck(
            struck_times(failures, username, given, expected, (n - 1) as nat),
            username,
            given,
            expected,
        )
    }
}

/// The right password gets the game's address and clears what was wrong before;
/// a wrong one is told so and counts once more; neither touches anyone else.
pub proof fn passwords_decide(
    assignment: AssignmentView,
    failures: Seq<(Seq<char>, u32)>,
    username: Seq<char>,
    given: Seq<char>,
    expected: Seq<char>,
    other: Seq<char>,
)
    requires
        table::distinct(failures),
        strikes(failures, username) < MAX_FAILURES,
        other != username,
    ensures
        ({
            let told = answer(assignment, failures, username, given, expected);
            let after = struck(failures, username, given, expected);
            &&& given == expected ==> told == Reply::Address(assignment.port) && strikes(
                after,
                username,
            ) == 0
            &&& given != expected ==> told == Reply::InvalidPassword && strikes(after, username)
                == strikes(failures, username) + 1
            &&& strikes(after, other) == strikes(failures, other)
        }),
{
    table::lemma_with_row_lookup(
        failures,
        username,
        (strikes(failures, username) + 1) as u32,
        other,
    );
    table::lemma_without_row_distinct(failures, username);
    table::lemma_without_row_lookup(failures, username, other);
}

/// Guessing is cut off: after as many wrong passwords as are allowed, a name
/// gets no address whatever it sends, and others are answered as before.
pub proof fn strikes_run_out(
    assignment: AssignmentView,
    failures: Seq<(Seq<char>, u32)>,
    username: Seq<char>,
    wrong: Seq<char>,
    expected: Seq<char>,
    given: Seq<char>,
    other: Seq<char>,
    n: nat,
)
    requires
        wrong != expected,
        n >= MAX_FAILURES,
        other != username,
    ensures
        answer(
            assignment,
            struck_times(failures, username, wrong, expected, n),
            username,
            given,
            expected,
        ) == Reply::Banned,
        answer(
            assignment,
            struck_times(failures, username, wrong, expected, n),
            other,
            given,
            expected,
        ) == answer(assignment, failures, other, given, expected),
{
    lemma_struck_times(failures, username, wrong, expected, other, n);
}

proof fn lemma_struck_times(
    failures: Seq<(Seq<char>, u32)>,
    username: Seq<char>,
    wrong: Seq<char>,
    expected: Seq<char>,
    other: Seq<char>,
    n: nat,
)
    requires
        wrong != expected,
        other != username,
    ensures
        ({
            let after = struck_times(failures, username, wrong, expected, n);
            &&& strikes(after, username) >= MAX_FAILURES || strikes(after, username) >= n
            &&& strikes(after, other) == strikes(failures, other)
        }),
    decreases n,
{
    if n > 0 {
        lemma_struck_times(failures, username, wrong, expected, other, (n - 1) as nat);
        let before = struck_times(failures, username, wrong, expected, (n - 1) as nat);
        let count = strikes(before, username);
        if count < MAX_FAILURES {
            table::lemma_with_row_lookup(before, username, (count + 1) as u32, username);
            table::lemma_with_row_lookup(before, username, (count + 1) as u32, other);
        }
    }
}

/// What a client that asks is told, where the expected password is known.
pub fn judge(
    assignment: &Assignment,
    failures: &mut Table<String, u32>,
    username: &str,
    given: &str,
    expected: &str,
) -> (r: Reply)
    ensures
        r == answer(assignment@, old(failures)@, username@, given@, expected@),
        final(failures)@ == struck(old(failures)@, username@, given@, expected@),
{
    let key = utils::copy_text(username);
    let count: u32 = match failures.get(&key) {
        Some(n) => *n,
        None => 0,
    };
    if count >= MAX_FAILURES {
        return Reply::Banned;
    }
    if !utils::same_text(given, expected) {
        failures.put(key, count + 1);
        return Reply::InvalidPassword;
    }
    let _ = failures.take(&key);
    Reply::Address(assignment.port)
}

/// What a client that asks is told. A missing password or salt is the empty
/// one, not a fault.
pub fn handle(
    assignment: &Assignment,
    failures: &mut Table<String, u32>,
    username: &str,
    given: &str,
    salt: &str,
) -> (r: Reply)
    requires
        assignment@.wf(),
    ensures
        r == answer(
            assignment@,
            old(failures)@,
            username@,
            given@,
            expected_of(assignment@, salt@),
        ),
        final(failures)@ == struck(
            old(failures)@,
            username@,
            given@,
            expected_of(assignment@, salt@),
        ),
{
    let key = utils::copy_text(username);
    let banned = match failures.get(&key) {
        Some(n) => *n >= MAX_FAILURES,
        None => false,
    };
    if banned {
        return Reply::Banned;
    }
    let expected = password::hash(assignment.password_hash.as_str(), salt.as_bytes());
    judge(assignment, failures, username, given, expected.as_str())
}

} // verus!
