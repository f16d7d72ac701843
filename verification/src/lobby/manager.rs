//! The pool of lobby accounts: which of them are free, and under which JID
//! each one hosts.

use std::str::FromStr;

use tokio_xmpp::parsers::jid::BareJid;
use tokio_xmpp::parsers::jid::Jid;
use vstd::prelude::*;

use crate::lobby::account::AccountConfig;
use crate::lobby::account::AccountConfigView;
use crate::relay::messages::guid;
use crate::relay::messages::items;
use crate::relay::messages::Guid;
use crate::utils;

verus! {

/// Milliseconds between two accounts' first connections, so that the lobby
/// server never sees every account connect in the same instant.
pub const ACCOUNT_SPAWN_STAGGER_MS: u64 = 1500;

/// The longest delay of a reconnect, in milliseconds.
pub const RECONNECT_JITTER_MAX: u64 = 30_000;

/// What the lobby bot expects a resource to begin with.
pub const RESOURCE_PREFIX: &'static str = "0ad-";

/// A resource of the shape accounts use.
pub const SAMPLE_RESOURCE: &'static str = "0ad-00000000-0000-0000-0000-000000000000";

pub const DEFAULT_SERVER_NAME: &'static str = "Veredus";

pub const DEFAULT_ENGINE_VERSION: &'static str = "0.28.0";

#[derive(Debug)]
pub struct XmppCredentials {
    pub jid: String,
    pub password: String,
}

/// What [`XmppCredentials`] is.
pub struct XmppCredentialsView {
    pub jid: Seq<char>,
    pub password: Seq<char>,
}

impl View for XmppCredentials {
    type V = XmppCredentialsView;

    open spec fn view(&self) -> XmppCredentialsView {
        XmppCredentialsView { jid: self.jid@, password: self.password@ }
    }
}

/// The player whose own account hosts in personal mode.
#[derive(Debug)]
pub struct PersonalLobby {
    /// As typed into the stock login: its nickname in the room and the salt of
    /// its password hash both keep that capitalization.
    pub name: String,
    pub rating_bot_jid: String,
}

/// What [`PersonalLobby`] is.
pub struct PersonalLobbyView {
    pub name: Seq<char>,
    pub rating_bot_jid: Seq<char>,
}

impl View for PersonalLobby {
    type V = PersonalLobbyView;

    open spec fn view(&self) -> PersonalLobbyView {
        PersonalLobbyView { name: self.name@, rating_bot_jid: self.rating_bot_jid@ }
    }
}

/// How the lobby is reached and what is hosted there.
#[derive(Debug)]
pub struct LobbyConfig {
    pub accounts: Vec<XmppCredentials>,
    pub muc_room: String,
    pub bot_jid: String,
    pub public_ip: String,
    pub server_name: String,
    pub engine_version: String,
    pub game_password: String,
    /// Some selects personal mode.
    pub personal: Option<PersonalLobby>,
}

/// What [`LobbyConfig`] is.
pub struct LobbyConfigView {
    pub accounts: Seq<XmppCredentialsView>,
    pub muc_room: Seq<char>,
    pub bot_jid: Seq<char>,
    pub public_ip: Seq<char>,
    pub server_name: Seq<char>,
    pub engine_version: Seq<char>,
    pub game_password: Seq<char>,
    pub personal: Option<PersonalLobbyView>,
}

impl View for LobbyConfig {
    type V = LobbyConfigView;

    open spec fn view(&self) -> LobbyConfigView {
        LobbyConfigView {
            accounts: items::views(self.accounts@),
            muc_room: self.muc_room@,
            bot_jid: self.bot_jid@,
            public_ip: self.public_ip@,
            server_name: self.server_name@,
            engine_version: self.engine_version@,
            game_password: self.game_password@,
            personal: utils::seen(self.personal),
        }
    }
}

/// What a JID reads as, or why it is none.
pub uninterp spec fn jid_read(text: Seq<char>) -> Result<Seq<char>, Seq<char>>;

/// What a JID without a resource reads as, or why it is none.
pub uninterp spec fn bare_jid_read(text: Seq<char>) -> Result<Seq<char>, Seq<char>>;

/// A result's texts.
pub open spec fn texts(r: Result<String, String>) -> Result<Seq<char>, Seq<char>> {
    match r {
        Ok(t) => Ok(t@),
        Err(e) => Err(e@),
    }
}

/// `jid::Jid::from_str`, with the JID and the error as they display
/// themselves: both are decided by the text alone.
#[verifier::external_body]
pub(crate) fn read_jid(text: &str) -> (r: Result<String, String>)
    ensures
        texts(r) == jid_read(text@),
{
    match Jid::from_str(text) {
        Ok(jid) => Ok(jid.to_string()),
        Err(error) => Err(error.to_string()),
    }
}

/// `jid::BareJid::from_str`, with the JID and the error as they display
/// themselves: both are decided by the text alone.
#[verifier::external_body]
pub(crate) fn read_bare_jid(text: &str) -> (r: Result<String, String>)
    ensures
        texts(r) == bare_jid_read(text@),
{
    match BareJid::from_str(text) {
        Ok(jid) => Ok(jid.to_string()),
        Err(error) => Err(error.to_string()),
    }
}

/// Why something that is to be a JID is none.
pub open spec fn refusal(what: Seq<char>, text: Seq<char>, error: Seq<char>) -> Seq<char> {
    "invalid "@ + what + " '"@ + text + "': "@ + error
}

/// An account's JID with a resource.
pub open spec fn with_resource(jid: Seq<char>, resource: Seq<char>) -> Seq<char> {
    jid + "/"@ + resource
}

/// The first account whose JID is none, and why.
pub open spec fn bad_account(accounts: Seq<XmppCredentialsView>) -> Option<Seq<char>>
    decreases accounts.len(),
{
    if accounts.len() == 0 {
        None
    } else {
        match bad_account(accounts.drop_last()) {
            Some(e) => Some(e),
            None => match jid_read(with_resource(accounts.last().jid, SAMPLE_RESOURCE@)) {
                Ok(_) => None,
                Err(e) => Some(refusal("lobby account jid"@, accounts.last().jid, e)),
            },
        }
    }
}

impl LobbyConfigView {
    /// Why a configuration cannot be used: the bot, the room, the rating bot
    /// and the accounts are looked at in this order. Each account is looked at
    /// with a resource of the shape it will have, so what passes here is what
    /// the account will take.
    pub open spec fn fault(self) -> Option<Seq<char>> {
        match jid_read(self.bot_jid) {
            Err(e) => Some(refusal("lobby bot_jid"@, self.bot_jid, e)),
            Ok(_) => match bare_jid_read(self.muc_room) {
                Err(e) => Some(refusal("lobby muc_room"@, self.muc_room, e)),
                Ok(_) => match self.personal_fault() {
                    Some(e) => Some(e),
                    None => bad_account(self.accounts),
                },
            },
        }
    }

    pub open spec fn personal_fault(self) -> Option<Seq<char>> {
        match self.personal {
            None => None,
            Some(p) => match jid_read(p.rating_bot_jid) {
                Ok(_) => None,
                Err(e) => Some(refusal("rating_bot_jid"@, p.rating_bot_jid, e)),
            },
        }
    }
}

fn refuse(what: &str, text: &str, error: &str) -> (r: String)
    ensures
        r@ == refusal(what@, text@, error@),
{
    let mut out = utils::copy_text("invalid ");
    out.append(what);
    out.append(" '");
    out.append(text);
    out.append("': ");
    out.append(error);
    out
}

pub fn full_jid(jid: &str, resource: &str) -> (r: String)
    ensures
        r@ == with_resource(jid@, resource@),
{
    let mut out = utils::copy_text(jid);
    out.append("/");
    out.append(resource);
    out
}

impl LobbyConfig {
    fn check_accounts(&self) -> (r: Result<(), String>)
        ensures
            match r {
                Ok(_) => bad_account(self@.accounts) is None,
                Err(e) => bad_account(self@.accounts) == Some(e@),
            },
    {
        let ghost all = self@.accounts;
        let mut i: usize = 0;
        assert(all.take(0) =~= Seq::empty());
        while i < self.accounts.len()
            invariant
                all == items::views(self.accounts@),
                i <= self.accounts@.len(),
                bad_account(all.take(i as int)) is None,
            decreases self.accounts@.len() - i,
        {
            proof {
                assert(all.take(i + 1).drop_last() =~= all.take(i as int));
                assert(all.take(i + 1).last() == self.accounts@[i as int]@);
            }
            let jid = self.accounts[i].jid.as_str();
            let full = full_jid(jid, SAMPLE_RESOURCE);
            if let Err(error) = read_jid(full.as_str()) {
                let refused = refuse("lobby account jid", jid, error.as_str());
                proof {
                    lemma_bad_stays(all, i as int + 1);
                }
                return Err(refused);
            }
            i += 1;
        }
        assert(all.take(i as int) =~= all);
        Ok(())
    }

    /// Whether a configuration can be used.
    pub fn validate(&self) -> (r: Result<(), String>)
        ensures
            match r {
                Ok(_) => self@.fault() is None,
                Err(e) => self@.fault() == Some(e@),
            },
    {
        if let Err(error) = read_jid(self.bot_jid.as_str()) {
            return Err(refuse("lobby bot_jid", self.bot_jid.as_str(), error.as_str()));
        }
        if let Err(error) = read_bare_jid(self.muc_room.as_str()) {
            return Err(refuse("lobby muc_room", self.muc_room.as_str(), error.as_str()));
        }
        if let Some(personal) = &self.personal {
            let jid = personal.rating_bot_jid.as_str();
            if let Err(error) = read_jid(jid) {
                return Err(refuse("rating_bot_jid", jid, error.as_str()));
            }
        }
        self.check_accounts()
    }
}

proof fn lemma_bad_stays(accounts: Seq<XmppCredentialsView>, n: int)
    requires
        0 <= n <= accounts.len(),
        bad_account(accounts.take(n)) is Some,
    ensures
        bad_account(accounts) == bad_account(accounts.take(n)),
    decreases accounts.len() - n,
{
    if n == accounts.len() {
        assert(accounts.take(n) =~= accounts);
    } else {
        assert(accounts.take(n + 1).drop_last() =~= accounts.take(n));
        lemma_bad_stays(accounts, n + 1);
    }
}

/// What an account tells the pool.
#[derive(Debug)]
pub enum LobbyEvent {
    HostRequested { account: usize, sender: String, host_jid: String },
    GameEnded { account: usize },
}

/// What [`LobbyEvent`] is.
pub enum LobbyEventView {
    HostRequested { account: usize, sender: Seq<char>, host_jid: Seq<char> },
    GameEnded { account: usize },
}

impl View for LobbyEvent {
    type V = LobbyEventView;

    open spec fn view(&self) -> LobbyEventView {
        match *self {
            LobbyEvent::HostRequested { account, sender, host_jid } => {
                LobbyEventView::HostRequested {
                    account,
                    sender: sender@,
                    host_jid: host_jid@,
                }
            },
            LobbyEvent::GameEnded { account } => LobbyEventView::GameEnded { account },
        }
    }
}

/// One account of the pool.
#[derive(Debug)]
pub struct AccountSlot {
    pub in_use: bool,
    /// The full JID the account binds, which the game password is salted with.
    /// It is known before the account is online.
    pub host_jid: String,
}

/// What [`AccountSlot`] is.
pub struct AccountSlotView {
    pub in_use: bool,
    pub host_jid: Seq<char>,
}

impl View for AccountSlot {
    type V = AccountSlotView;

    open spec fn view(&self) -> AccountSlotView {
        AccountSlotView { in_use: self.in_use, host_jid: self.host_jid@ }
    }
}

/// The pool.
#[derive(Debug)]
pub struct LobbyManager {
    pub config: LobbyConfig,
    pub accounts: Vec<AccountSlot>,
}

/// What [`LobbyManager`] is.
pub struct PoolView {
    pub config: LobbyConfigView,
    pub accounts: Seq<AccountSlotView>,
}

impl View for LobbyManager {
    type V = PoolView;

    open spec fn view(&self) -> PoolView {
        PoolView { config: self.config@, accounts: items::views(self.accounts@) }
    }
}

/// The first account that is free.
pub open spec fn first_free(accounts: Seq<AccountSlotView>) -> Option<int>
    decreases accounts.len(),
{
    if accounts.len() == 0 {
        None
    } else if !accounts[0].in_use {
        Some(0)
    } else {
        match first_free(accounts.drop_first()) {
            Some(i) => Some(i + 1),
            None => None,
        }
    }
}

/// How long a reconnect is spread over, in milliseconds.
pub open spec fn spread_of(accounts: nat) -> int {
    if accounts * ACCOUNT_SPAWN_STAGGER_MS < RECONNECT_JITTER_MAX {
        accounts * ACCOUNT_SPAWN_STAGGER_MS
    } else {
        RECONNECT_JITTER_MAX as int
    }
}

impl PoolView {
    pub open spec fn is_free(self, account: int) -> bool {
        0 <= account < self.accounts.len() && !self.accounts[account].in_use
    }

    pub open spec fn marked(self, account: int, in_use: bool) -> PoolView {
        PoolView {
            accounts: self.accounts.update(
                account,
                AccountSlotView { in_use, ..self.accounts[account] },
            ),
            ..self
        }
    }

    /// The account taken, if it is there and free.
    pub open spec fn reserved(self, account: int) -> PoolView {
        if self.is_free(account) {
            self.marked(account, true)
        } else {
            self
        }
    }

    pub open spec fn released(self, account: int) -> PoolView {
        if 0 <= account < self.accounts.len() {
            self.marked(account, false)
        } else {
            self
        }
    }

    /// The account a match without a request of its own is hosted by: the one
    /// that hosted it before when that is free, else any.
    pub open spec fn choice(self, preferred: Option<usize>) -> Option<int> {
        match preferred {
            Some(p) if self.is_free(p as int) => Some(p as int),
            _ => first_free(self.accounts),
        }
    }

    /// The pool before and after its accounts were opened: behind those that
    /// were there, each hosts under a JID of its own with a fresh resource.
    pub open spec fn opened(self, after: PoolView) -> bool {
        let n = self.accounts.len();
        &&& after.config == self.config
        &&& after.accounts.len() == n + self.config.accounts.len()
        &&& after.accounts.take(n as int) == self.accounts
        &&& forall|i: int|
            n <= i < after.accounts.len() ==> hosts_as(
                self.config.accounts[i - n].jid,
                #[trigger] after.accounts[i],
            )
    }

    /// How one of the accounts goes about it, given the room as the lobby
    /// server writes it.
    pub open spec fn account_config(self, account: int, muc_bare: Seq<char>) -> AccountConfigView {
        AccountConfigView {
            account: account as usize,
            jid: self.accounts[account].host_jid,
            muc_room: self.config.muc_room,
            muc_bare,
            server_name: self.config.server_name,
            has_password: self.config.game_password.len() > 0,
            personal: match self.config.personal {
                Some(p) => Some(p.name),
                None => None,
            },
        }
    }

    /// An account hosts one game at a time: once taken it cannot be taken
    /// again until it is released, and taking it leaves the others alone.
    pub proof fn one_game_each(self, account: int, other: int)
        requires
            self.is_free(account),
            other != account,
        ensures
            !self.reserved(account).is_free(account),
            self.reserved(account).is_free(other) == self.is_free(other),
            self.reserved(account).released(account).is_free(account),
            self.reserved(account).released(account) == self,
    {
        let s = self.accounts[account];
        assert(self.reserved(account).released(account).accounts =~= self.accounts);
    }
}

/// An account that is free and hosts under its JID with a fresh resource.
pub open spec fn hosts_as(jid: Seq<char>, slot: AccountSlotView) -> bool {
    &&& !slot.in_use
    &&& exists|uuid: Seq<char>|
        guid::uuid_shaped(uuid) && slot.host_jid == #[trigger] with_resource(
            jid,
            RESOURCE_PREFIX@ + uuid,
        )
}

impl LobbyManager {
    pub fn new(config: LobbyConfig) -> (r: Self)
        ensures
            r@ == (PoolView { config: config@, accounts: Seq::empty() }),
    {
        let accounts: Vec<AccountSlot> = Vec::new();
        assert(items::views(accounts@) =~= Seq::empty());
        LobbyManager { config, accounts }
    }

    /// Opens the accounts. A resource is made once for an account, not for a
    /// connection: clients salt the game password with the full JID, so it
    /// must stay the same across reconnects.
    pub fn start(&mut self)
        ensures
            old(self)@.opened(final(self)@),
    {
        let ghost before = self@;
        let ghost n = self.accounts@.len();
        let mut i: usize = 0;
        while i < self.config.accounts.len()
            invariant
                before == old(self)@,
                n == before.accounts.len(),
                self.config == old(self).config,
                i <= self.config.accounts@.len(),
                self.accounts@.len() == n + i,
                forall|j: int| 0 <= j < n ==> (#[trigger] self.accounts@[j])@ == before.accounts[j],
                forall|j: int|
                    n <= j < n + i ==> hosts_as(
                        before.config.accounts[j - n].jid,
                        (#[trigger] self.accounts@[j])@,
                    ),
            decreases self.config.accounts@.len() - i,
        {
            let id = Guid::new();
            let mut resource = utils::copy_text(RESOURCE_PREFIX);
            resource.append(id.0.as_str());
            let host_jid = full_jid(self.config.accounts[i].jid.as_str(), resource.as_str());
            proof {
                assert(before.config.accounts[i as int] == self.config.accounts@[i as int]@);
                assert(host_jid@ == with_resource(
                    before.config.accounts[i as int].jid,
                    RESOURCE_PREFIX@ + id@,
                ));
            }
            self.accounts.push(AccountSlot { in_use: false, host_jid });
            i += 1;
        }
        proof {
            assert(self@.accounts.take(n as int) =~= before.accounts);
            assert forall|j: int| n <= j < self@.accounts.len() implies hosts_as(
                before.config.accounts[j - n].jid,
                #[trigger] self@.accounts[j],
            ) by {
                assert(self@.accounts[j] == self.accounts@[j]@);
            }
        }
    }

    /// How one of the accounts goes about it, where there is such an account.
    pub fn account_config(&self, account: usize, muc_bare: String) -> (r: Option<AccountConfig>)
        ensures
            utils::seen(r) == (if account < self@.accounts.len() {
                Some(self@.account_config(account as int, muc_bare@))
            } else {
                None
            }),
    {
        if account >= self.accounts.len() {
            return None;
        }
        let personal = match &self.config.personal {
            Some(p) => Some(utils::copy_text(p.name.as_str())),
            None => None,
        };
        Some(
            AccountConfig {
                account,
                jid: utils::copy_text(self.accounts[account].host_jid.as_str()),
                muc_room: utils::copy_text(self.config.muc_room.as_str()),
                muc_bare,
                server_name: utils::copy_text(self.config.server_name.as_str()),
                has_password: !self.config.game_password.as_str().is_empty(),
                personal,
            },
        )
    }

    fn mark(&mut self, account: usize, in_use: bool)
        requires
            account < old(self).accounts@.len(),
        ensures
            final(self)@ == old(self)@.marked(account as int, in_use),
    {
        let ghost before = self@;
        let slot = &mut self.accounts[account];
        slot.in_use = in_use;
        assert(self@.accounts =~= before.marked(account as int, in_use).accounts);
    }

    /// Takes the account that was asked, so that a second request cannot book
    /// it twice. It has to be that account and not any free one: the game
    /// password is salted with its JID.
    pub fn reserve(&mut self, account: usize) -> (r: bool)
        ensures
            r == old(self)@.is_free(account as int),
            final(self)@ == old(self)@.reserved(account as int),
    {
        if account < self.accounts.len() && !self.accounts[account].in_use {
            self.mark(account, true);
            true
        } else {
            false
        }
    }

    fn free_at(&self, account: usize) -> (r: bool)
        ensures
            r == self@.is_free(account as int),
    {
        account < self.accounts.len() && !self.accounts[account].in_use
    }

    fn find_free(&self) -> (r: Option<usize>)
        ensures
            match r {
                Some(i) => first_free(self@.accounts) == Some(i as int) && self@.is_free(i as int),
                None => first_free(self@.accounts) is None,
            },
    {
        let ghost all = self@.accounts;
        let mut i: usize = 0;
        assert(all.skip(0) =~= all);
        while i < self.accounts.len()
            invariant
                all == items::views(self.accounts@),
                i <= self.accounts@.len(),
                first_free(all) == match first_free(all.skip(i as int)) {
                    Some(k) => Some(k + i),
                    None => None,
                },
            decreases self.accounts@.len() - i,
        {
            proof {
                assert(all.skip(i as int)[0] == self.accounts@[i as int]@);
                assert(all.skip(i as int).drop_first() =~= all.skip(i + 1));
            }
            if !self.accounts[i].in_use {
                return Some(i);
            }
            i += 1;
        }
        None
    }

    /// Takes an account for a match that no request ties to one.
    pub fn reserve_free(&mut self, preferred: Option<usize>) -> (r: Option<usize>)
        ensures
            match r {
                Some(a) => old(self)@.choice(preferred) == Some(a as int) && final(self)@
                    == old(self)@.reserved(a as int) && old(self)@.is_free(a as int),
                None => old(self)@.choice(preferred) is None && final(self)@ == old(self)@,
            },
    {
        if let Some(p) = preferred {
            if self.free_at(p) {
                self.mark(p, true);
                return Some(p);
            }
        }
        match self.find_free() {
            Some(a) => {
                self.mark(a, true);
                Some(a)
            },
            None => None,
        }
    }

    /// The full JID an account hosts under.
    pub fn host_jid(&self, account: usize) -> (r: Option<&str>)
        ensures
            match r {
                Some(jid) => account < self@.accounts.len() && jid@
                    == self@.accounts[account as int].host_jid,
                None => account >= self@.accounts.len(),
            },
    {
        if account < self.accounts.len() {
            assert(self@.accounts[account as int] == self.accounts@[account as int]@);
            Some(self.accounts[account].host_jid.as_str())
        } else {
            None
        }
    }

    /// Gives an account back; whether it was taken. One that was never taken
    /// is released too, after a game that could not be made.
    pub fn release(&mut self, account: usize) -> (r: bool)
        ensures
            r == (account < old(self)@.accounts.len() && !old(self)@.is_free(account as int)),
            final(self)@ == old(self)@.released(account as int),
    {
        if account < self.accounts.len() {
            let was = self.accounts[account].in_use;
            self.mark(account, false);
            was
        } else {
            false
        }
    }

    /// How long an account waits before it first connects, in milliseconds.
    pub fn spawn_delay(account: usize) -> (r: u64)
        requires
            account * ACCOUNT_SPAWN_STAGGER_MS <= u64::MAX,
        ensures
            r == account * ACCOUNT_SPAWN_STAGGER_MS,
    {
        account as u64 * ACCOUNT_SPAWN_STAGGER_MS
    }

    /// How long a reconnect is spread over, in milliseconds: the startup's own
    /// window, within the transport's longest pause.
    pub fn reconnect_spread(&self) -> (r: u64)
        ensures
            r == spread_of(self@.config.accounts.len()),
    {
        let n: usize = self.config.accounts.len();
        if n >= 20 {
            RECONNECT_JITTER_MAX
        } else {
            n as u64 * ACCOUNT_SPAWN_STAGGER_MS
        }
    }
}

/// A share of the spread by a random number, below the spread.
pub open spec fn share_of(spread: u64, random: u128) -> int {
    if spread == 0 {
        0
    } else {
        random as int % spread as int
    }
}

/// The share of the spread a random number stands for.
pub fn jitter_of(spread: u64, random: u128) -> (r: u64)
    ensures
        r == share_of(spread, random),
        spread > 0 ==> r < spread,
{
    if spread == 0 {
        return 0;
    }
    (random % spread as u128) as u64
}

/// `uuid::Uuid::new_v4` as a number. The digits are random, so nothing is
/// known of it.
#[verifier::external_body]
fn random_number() -> (r: u128) {
    uuid::Uuid::new_v4().as_u128()
}

/// How long a reconnect waits, in milliseconds: anywhere below the spread.
pub fn reconnect_jitter(spread: u64) -> (r: u64)
    ensures
        exists|random: u128| r == #[trigger] share_of(spread, random),
        spread == 0 ==> r == 0,
        spread > 0 ==> r < spread,
{
    let random: u128 = random_number();
    jitter_of(spread, random)
}

} // verus!
