//! Hosting games for whoever asks for one in the lobby: one game for each
//! sender, one game on each account.

use vstd::prelude::*;

use crate::game_pool::GameId;
use crate::lobby::manager::LobbyManager;
use crate::lobby::manager::PoolView;
use crate::relay::password;
use crate::relay::server_fsm::config::Config;
use crate::table;
use crate::table::Key;
use crate::table::Table;
use crate::utils;

verus! {

impl Key for usize {
    fn same(&self, other: &Self) -> (r: bool) {
        *self == *other
    }
}

/// What comes of a request for a game.
#[derive(Debug, Clone, Copy, PartialEq, Eq, Structural)]
pub enum Asked {
    /// The sender has a game already. A sender is a lobby name, not an
    /// account: this is what stops one impatient player from claiming every
    /// free account.
    Duplicate,
    /// Every idle account in the room reports the same request, so a busy one
    /// is simply passed over and the next report is tried.
    Busy,
    /// The account is taken, and the game is to be made.
    Host,
}

/// What came of a request, once all is done.
#[derive(Debug, Clone, Copy, PartialEq, Eq, Structural)]
pub enum HostOutcome {
    Hosted,
    Duplicate,
    Busy,
    Failed,
}

impl HostOutcome {
    pub open spec fn label(self) -> Seq<char> {
        match self {
            HostOutcome::Hosted => "hosted"@,
            HostOutcome::Duplicate => "duplicate_sender"@,
            HostOutcome::Busy => "account_busy"@,
            HostOutcome::Failed => "failed"@,
        }
    }

    /// What a request is counted as.
    pub fn counted_as(self) -> (r: &'static str)
        ensures
            r@ == self.label(),
    {
        match self {
            HostOutcome::Hosted => "hosted",
            HostOutcome::Duplicate => "duplicate_sender",
            HostOutcome::Busy => "account_busy",
            HostOutcome::Failed => "failed",
        }
    }
}

/// Who is being hosted, on which account.
#[derive(Debug)]
pub struct Hosting {
    pub pool: LobbyManager,
    pub senders: Table<usize, String>,
    pub games: Table<usize, GameId>,
}

/// What [`Hosting`] is.
pub struct HostingView {
    pub pool: PoolView,
    pub senders: Seq<(usize, Seq<char>)>,
    pub games: Seq<(usize, Seq<char>)>,
}

impl View for Hosting {
    type V = HostingView;

    open spec fn view(&self) -> HostingView {
        HostingView { pool: self.pool@, senders: self.senders@, games: self.games@ }
    }
}

/// Whether a sender has a game.
pub open spec fn has_game(senders: Seq<(usize, Seq<char>)>, sender: Seq<char>) -> bool {
    exists|i: int| 0 <= i < senders.len() && (#[trigger] senders[i]).1 == sender
}

/// What a game's password is salted with: a joining client salts with the JID
/// it was given, which is the account's own.
pub open spec fn salt_text(
    host_jid: Seq<char>,
    password: Seq<char>,
    engine_version: Seq<char>,
) -> Seq<char> {
    host_jid + password + engine_version
}

/// The stored hash of a game's password.
pub open spec fn stored_hash(
    host_jid: Seq<char>,
    password: Seq<char>,
    engine_version: Seq<char>,
) -> Seq<char> {
    password::hashed(
        password,
        vstd::utf8::encode_utf8(salt_text(host_jid, password, engine_version)),
    )
}

impl HostingView {
    /// No sender is hosted twice, and whoever is hosted is on an account that
    /// is taken.
    pub open spec fn wf(self) -> bool {
        &&& table::distinct(self.senders)
        &&& table::distinct(self.games)
        &&& forall|i: int, j: int|
            0 <= i < j < self.senders.len() ==> (#[trigger] self.senders[i]).1 != (#[trigger]
            self.senders[j]).1
        &&& forall|i: int|
            0 <= i < self.senders.len() ==> !self.pool.is_free(
                (#[trigger] self.senders[i]).0 as int,
            )
    }

    pub open spec fn asked(self, account: usize, sender: Seq<char>) -> Asked {
        if has_game(self.senders, sender) {
            Asked::Duplicate
        } else if !self.pool.is_free(account as int) {
            Asked::Busy
        } else {
            Asked::Host
        }
    }

    /// After a request: the account is taken where the game is to be made.
    pub open spec fn after_request(self, account: usize, sender: Seq<char>) -> HostingView {
        if self.asked(account, sender) == Asked::Host {
            HostingView { pool: self.pool.reserved(account as int), ..self }
        } else {
            self
        }
    }

    /// The game runs and its account knows of it.
    pub open spec fn hosting(self, account: usize, sender: Seq<char>, game: Seq<char>) -> HostingView {
        HostingView {
            senders: table::with_row(self.senders, account, sender),
            games: table::with_row(self.games, account, game),
            ..self
        }
    }

    /// The game could not be made, and the account is free again.
    pub open spec fn failed(self, account: usize) -> HostingView {
        HostingView { pool: self.pool.released(account as int), ..self }
    }

    /// The account's game has ended.
    pub open spec fn ended(self, account: usize) -> HostingView {
        HostingView {
            pool: self.pool.released(account as int),
            senders: table::without_row(self.senders, account),
            games: table::without_row(self.games, account),
        }
    }

    /// One sender, one game: while it is hosted every further request of the
    /// sender is turned away, whichever account it reaches, and once the game
    /// has ended the next one is taken up.
    pub proof fn one_game_per_sender(
        self,
        account: usize,
        sender: Seq<char>,
        game: Seq<char>,
        other: usize,
    )
        requires
            self.wf(),
            self.asked(account, sender) == Asked::Host,
        ensures
            self.after_request(account, sender).hosting(account, sender, game).asked(other, sender)
                == Asked::Duplicate,
            self.after_request(account, sender).hosting(account, sender, game).ended(account).asked(
                account,
                sender,
            ) == Asked::Host,
    {
        let hosted = self.after_request(account, sender).hosting(account, sender, game);
        table::lemma_index_of(self.senders, account);
        // Nobody is hosted on an account that is free.
        assert(table::index_of(self.senders, account) is None) by {
            if let Some(i) = table::index_of(self.senders, account) {
                assert(self.senders[i].0 == account);
            }
        }
        assert(hosted.senders == self.senders.push((account, sender)));
        assert(hosted.senders[self.senders.len() as int].1 == sender);
        assert(hosted.senders[self.senders.len() as int].0 == account);
        let after = hosted.ended(account);
        table::lemma_index_of(hosted.senders, account);
        let at = table::index_of(hosted.senders, account)->0;
        assert(at == self.senders.len()) by {
            if at < self.senders.len() {
                assert(hosted.senders[at] == self.senders[at]);
                assert(!self.pool.is_free(self.senders[at].0 as int));
            }
        }
        assert(after.senders =~= self.senders);
        assert(after.pool.is_free(account as int));
    }
}

impl HostingView {
    /// A request that is taken up takes its own account and no other, and if
    /// the game cannot be made the account is free again and the sender may ask
    /// anew.
    pub proof fn failures_leave_no_trace(self, account: usize, sender: Seq<char>, other: usize)
        requires
            self.wf(),
            self.asked(account, sender) == Asked::Host,
        ensures
            ({
                let taken = self.after_request(account, sender);
                &&& !taken.pool.is_free(account as int)
                &&& other != account ==> taken.pool.is_free(other as int) == self.pool.is_free(
                    other as int,
                )
                &&& taken.failed(account).asked(account, sender) == Asked::Host
                &&& taken.failed(account).senders == self.senders
            }),
    {
    }
}

impl Hosting {
    pub open spec fn wf(self) -> bool {
        self@.wf()
    }

    pub fn new(pool: LobbyManager) -> (r: Self)
        ensures
            r@ == (HostingView { pool: pool@, senders: Seq::empty(), games: Seq::empty() }),
            r.wf(),
    {
        Hosting { pool, senders: Table::new(), games: Table::new() }
    }

    fn hosts(&self, sender: &str) -> (r: bool)
        ensures
            r == has_game(self@.senders, sender@),
    {
        let mut i: usize = 0;
        while i < self.senders.rows.len()
            invariant
                i <= self.senders.rows@.len(),
                self@.senders == self.senders@,
                forall|j: int| 0 <= j < i ==> (#[trigger] self@.senders[j]).1 != sender@,
            decreases self.senders.rows@.len() - i,
        {
            assert(self.senders@[i as int] == table::row_view(self.senders.rows@[i as int]));
            if utils::same_text(self.senders.rows[i].1.as_str(), sender) {
                assert(self@.senders[i as int].1 == sender@);
                return true;
            }
            i += 1;
        }
        false
    }

    /// Someone asks for a game of an account.
    pub fn on_request(&mut self, account: usize, sender: &str) -> (r: Asked)
        requires
            old(self).wf(),
        ensures
            r == old(self)@.asked(account, sender@),
            final(self)@ == old(self)@.after_request(account, sender@),
            final(self).wf(),
    {
        if self.hosts(sender) {
            return Asked::Duplicate;
        }
        if !self.pool.reserve(account) {
            return Asked::Busy;
        }
        Asked::Host
    }

    /// The hash of the game's password, for a game under this JID. An empty
    /// password is no password.
    pub fn password_hash(&self, host_jid: &str) -> (r: String)
        requires
            vstd::utf8::encode_utf8(self@.pool.config.game_password).len() <= 0xffff_ffff,
        ensures
            r@ == stored_hash(
                host_jid@,
                self@.pool.config.game_password,
                self@.pool.config.engine_version,
            ),
    {
        let mut salt = utils::copy_text(host_jid);
        salt.append(self.pool.config.game_password.as_str());
        salt.append(self.pool.config.engine_version.as_str());
        password::hash(self.pool.config.game_password.as_str(), salt.as_str().as_bytes())
    }

    /// How a hosted game is run: as any other, but for the password, the
    /// names, and that the lobby vouches for whoever joins.
    pub fn game_config(&self, base: Config, password_hash: String, sender: &str) -> (r: Config)
        ensures
            r.lobby_mode,
            r.server_password_hash == password_hash,
            r.server_name@ == self@.pool.config.server_name,
            r.lobby_host_name@ == sender@,
            r == (Config {
                lobby_mode: true,
                server_password_hash: password_hash,
                server_name: r.server_name,
                lobby_host_name: r.lobby_host_name,
                ..base
            }),
    {
        Config {
            lobby_mode: true,
            server_password_hash: password_hash,
            server_name: utils::copy_text(self.pool.config.server_name.as_str()),
            lobby_host_name: utils::copy_text(sender),
            ..base
        }
    }

    /// The game was made. Where its account could not be told, nothing would
    /// ever report the game's end, so it is handed back to be destroyed; the
    /// account stays taken, because it can no longer host anything.
    pub fn on_created(&mut self, account: usize, sender: String, game: GameId, told: bool) -> (r: (
        HostOutcome,
        Option<GameId>,
    ))
        requires
            old(self).wf(),
            !has_game(old(self)@.senders, sender@),
            !old(self)@.pool.is_free(account as int),
            !table::has_key(old(self)@.senders, account),
        ensures
            final(self)@ == (if told {
                old(self)@.hosting(account, sender@, game@)
            } else {
                old(self)@
            }),
            final(self).wf(),
            told ==> r.0 == HostOutcome::Hosted && r.1 is None,
            !told ==> r.0 == HostOutcome::Failed && utils::seen(r.1) == Some(game@),
    {
        if !told {
            return (HostOutcome::Failed, Some(game));
        }
        proof {
            table::lemma_index_of(old(self)@.senders, account);
            table::lemma_with_row_distinct(old(self)@.senders, account, sender@);
            table::lemma_with_row_distinct(old(self)@.games, account, game@);
            let after = old(self)@.hosting(account, sender@, game@);
            assert(after.senders == old(self)@.senders.push((account, sender@)));
            assert forall|i: int, j: int| 0 <= i < j < after.senders.len() implies (#[trigger]
            after.senders[i]).1 != (#[trigger] after.senders[j]).1 by {
                assert(after.senders[i] == old(self)@.senders[i]);
                if j < old(self)@.senders.len() {
                    assert(after.senders[j] == old(self)@.senders[j]);
                }
            }
        }
        self.senders.put(account, sender);
        self.games.put(account, game);
        (HostOutcome::Hosted, None)
    }

    /// The game could not be made.
    pub fn on_failed(&mut self, account: usize) -> (r: HostOutcome)
        requires
            old(self).wf(),
            !table::has_key(old(self)@.senders, account),
        ensures
            final(self)@ == old(self)@.failed(account),
            final(self).wf(),
            r == HostOutcome::Failed,
    {
        let _ = self.pool.release(account);
        proof {
            table::lemma_index_of(old(self)@.senders, account);
            assert forall|i: int| 0 <= i < self@.senders.len() implies !self@.pool.is_free(
                (#[trigger] self@.senders[i]).0 as int,
            ) by {
                assert(!old(self)@.pool.is_free(old(self)@.senders[i].0 as int));
            }
        }
        HostOutcome::Failed
    }

    /// An account's game has ended: the game to destroy, if there is one.
    pub fn on_ended(&mut self, account: usize) -> (r: Option<GameId>)
        requires
            old(self).wf(),
        ensures
            utils::seen(r) == table::lookup(old(self)@.games, account),
            final(self)@ == old(self)@.ended(account),
            final(self).wf(),
    {
        let _ = self.senders.take(&account);
        let game = self.games.take(&account);
        let _ = self.pool.release(account);
        proof {
            let was = old(self)@;
            table::lemma_without_row_distinct(was.senders, account);
            table::lemma_without_row_distinct(was.games, account);
            table::lemma_index_of(was.senders, account);
            let now = self@;
            table::lemma_index_of(now.senders, account);
            if let Some(at) = table::index_of(was.senders, account) {
                assert forall|i: int| 0 <= i < now.senders.len() implies now.senders[i]
                    == was.senders[if i < at {
                    i
                } else {
                    i + 1
                }] by {}
                assert forall|i: int, j: int| 0 <= i < j < now.senders.len() implies (#[trigger]
                now.senders[i]).1 != (#[trigger] now.senders[j]).1 by {
                    let x = if i < at {
                        i
                    } else {
                        i + 1
                    };
                    let y = if j < at {
                        j
                    } else {
                        j + 1
                    };
                    assert(now.senders[i] == was.senders[x]);
                    assert(now.senders[j] == was.senders[y]);
                }
                assert forall|i: int| 0 <= i < now.senders.len() implies !now.pool.is_free(
                    (#[trigger] now.senders[i]).0 as int,
                ) by {
                    let x = if i < at {
                        i
                    } else {
                        i + 1
                    };
                    assert(now.senders[i] == was.senders[x]);
                    assert(now.senders[i].0 != account);
                }
            } else {
                assert forall|i: int| 0 <= i < now.senders.len() implies !now.pool.is_free(
                    (#[trigger] now.senders[i]).0 as int,
                ) by {
                    assert(was.senders[i].0 != account);
                }
            }
        }
        game
    }
}

} // verus!
