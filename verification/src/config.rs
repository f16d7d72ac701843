//! The configuration an operator writes. An optional setting is an empty text
//! or 0 when it is unset, so that the generated file can show every one.

use vstd::prelude::*;

use crate::lobby::manager;
use crate::lobby::manager::LobbyConfig;
use crate::lobby::manager::LobbyConfigView;
use crate::lobby::manager::XmppCredentials;
use crate::lobby::manager::XmppCredentialsView;
use crate::network_message::Ipv4Addr;
use crate::relay::auth::LateObserverPolicy;
use crate::relay::enet_task::EnetLimits;
use crate::relay::enet_task::PEER_LIMIT;
use crate::relay::messages::items;
use crate::relay::messages::EnabledMod;
use crate::relay::messages::EnabledModView;
use crate::relay::server_fsm::config::Config;
use crate::relay::server_fsm::config::DEFAULT_AI_STATE_INTERVAL_TURNS;
use crate::utils;

verus! {

/// The port stock clients dial unless they are told otherwise.
pub const DEFAULT_PORT: u16 = 20595;

/// Two minutes of play at the default turn length: long enough that a run's
/// fixed cost stays small next to the turns it replays, short enough that a
/// joiner never catches up for long.
pub const DEFAULT_CHECKPOINT_INTERVAL_TURNS: u32 = 600;

/// How long a hosted game may sit with nobody in it before it shuts itself
/// down and frees its account.
pub const DEFAULT_IDLE_SHUTDOWN_SECS: u64 = 60;

/// Loopback by default: the endpoint names players, so exposing it further is
/// a decision for the operator.
pub const DEFAULT_METRICS_HOST: &'static str = "127.0.0.1";

pub const DEFAULT_METRICS_PORT: u16 = 9091;

/// The message header counts its length in 16 bits, so no larger packet can
/// hold a message; it is also the floor, since a lower cap would drop the
/// biggest honest settings.
pub const DEFAULT_ENET_MAX_PACKET_BYTES: usize = 65535;

/// What one peer may make the relay hold in half reassembled or undelivered
/// packets: a few of the largest messages, more than a stock client ever has
/// on its way.
pub const DEFAULT_ENET_MAX_WAITING_BYTES: usize = 262_144;

pub const DEFAULT_SAVE_DIR: &'static str = "saves";

/// A crash loses at most this much of a match, in milliseconds.
pub const DEFAULT_SAVE_FLUSH_MS: u64 = 1000;

/// A match that crashes the server on every resume must not crash it forever.
pub const DEFAULT_MAX_RESUME_ATTEMPTS: u32 = 3;

pub const DEFAULT_PYROGENESIS_PATH: &'static str = "../0ad/binaries/system/pyrogenesis";

pub const DEFAULT_OUTCOME_DIR: &'static str = "./outcome";

/// Loaded when no other is named, and only when it is there.
pub const DEFAULT_CONFIG_PATH: &'static str = "config.toml";

pub const GENERATED_HEADER: &'static str =
    "# veredus configuration. Command line flags override these values.\n# An empty string or 0 marks an optional setting as unset.\n# Tables run from the settings most servers change to the ones almost none do.\n\n";

/// The largest span, in milliseconds.
pub const LONGEST: i64 = i64::MAX;

/// A span of seconds in milliseconds. One longer than any match is how a limit
/// is turned off, so one that is too long becomes the longest there is.
pub open spec fn span_ms(secs: u64) -> i64 {
    if secs <= i64::MAX / 1000 {
        (secs * 1000) as i64
    } else {
        LONGEST
    }
}

/// 0 is how an optional span is written as unset.
pub open spec fn opt_span_ms(secs: u64) -> Option<i64> {
    if secs == 0 {
        None
    } else {
        Some(span_ms(secs))
    }
}

/// A span of milliseconds in whole seconds, none of them negative.
pub open spec fn whole_secs(span: i64) -> u64 {
    if span <= 0 {
        0
    } else {
        (span / 1000) as u64
    }
}

pub fn secs_to_delta(secs: u64) -> (r: i64)
    ensures
        r == span_ms(secs),
{
    if secs <= 9_223_372_036_854_775 {
        secs as i64 * 1000
    } else {
        LONGEST
    }
}

pub fn secs_to_opt_delta(secs: u64) -> (r: Option<i64>)
    ensures
        r == opt_span_ms(secs),
{
    if secs == 0 {
        None
    } else {
        Some(secs_to_delta(secs))
    }
}

pub fn delta_to_secs(span: i64) -> (r: u64)
    ensures
        r == whole_secs(span),
{
    if span <= 0 {
        0
    } else {
        (span / 1000) as u64
    }
}

pub fn opt_delta_to_secs(span: Option<i64>) -> (r: u64)
    ensures
        r == match span {
            Some(s) => whole_secs(s),
            None => 0,
        },
{
    match span {
        Some(s) => delta_to_secs(s),
        None => 0,
    }
}

/// A span that was written in seconds reads back as the seconds it was written
/// in, unless it is longer than any there is.
pub proof fn spans_read_back(secs: u64)
    requires
        secs <= i64::MAX / 1000,
    ensures
        whole_secs(span_ms(secs)) == secs,
{
}

/// How many turns a state lasts that is asked of a client. Operators think in
/// time, a match counts in turns. At least one, so a short interval never
/// means every input; where there is a sidecar it is moot.
pub open spec fn client_turns(sidecar: bool, secs: u64, turn_length_ms: u16) -> int {
    if sidecar || secs == 0 || turn_length_ms == 0 {
        0
    } else {
        let wanted = if secs * 1000 > u64::MAX {
            u64::MAX as int
        } else {
            secs * 1000
        };
        let turns = wanted / (turn_length_ms as int);
        if turns > u32::MAX {
            u32::MAX as int
        } else if turns < 1 {
            1
        } else {
            turns
        }
    }
}

pub fn client_state_interval_turns(sidecar: bool, secs: u64, turn_length_ms: u16) -> (r: u32)
    ensures
        r == client_turns(sidecar, secs, turn_length_ms),
{
    if sidecar || secs == 0 || turn_length_ms == 0 {
        return 0;
    }
    let wanted: u64 = if secs > u64::MAX / 1000 {
        u64::MAX
    } else {
        secs * 1000
    };
    let turns: u64 = wanted / turn_length_ms as u64;
    if turns > u32::MAX as u64 {
        u32::MAX
    } else if turns < 1 {
        1
    } else {
        turns as u32
    }
}

/// Follows the checkpoint interval unless it is set, and never turns the pulls
/// off with it: a match without checkpoints still needs its AI state.
pub open spec fn ai_turns(turns: u32, checkpoint_interval_turns: u32) -> u32 {
    if turns != 0 {
        turns
    } else if checkpoint_interval_turns != 0 {
        checkpoint_interval_turns
    } else {
        DEFAULT_AI_STATE_INTERVAL_TURNS
    }
}

pub fn ai_state_interval_turns(turns: u32, checkpoint_interval_turns: u32) -> (r: u32)
    ensures
        r == ai_turns(turns, checkpoint_interval_turns),
        r != 0,
{
    if turns != 0 {
        turns
    } else if checkpoint_interval_turns != 0 {
        checkpoint_interval_turns
    } else {
        Config::default().ai_state_interval_turns
    }
}

/// A path that is set.
pub open spec fn set_path(value: Seq<char>) -> Option<Seq<char>> {
    if value.len() == 0 {
        None
    } else {
        Some(value)
    }
}

fn non_empty_path(value: &str) -> (r: Option<String>)
    ensures
        utils::seen(r) == set_path(value@),
{
    if value.is_empty() {
        None
    } else {
        Some(utils::copy_text(value))
    }
}

/// Where the server listens and which engine it runs.
#[derive(Debug)]
pub struct ServerSection {
    /// IPv4 only: the stock client cannot reach an IPv6 address.
    pub host: Ipv4Addr,
    /// Standalone mode only; a lobby game picks its own.
    pub port: u16,
    /// Empty disables the sidecar.
    pub pyrogenesis_path: String,
    /// Standalone mode only: stop once the game ends instead of hosting a
    /// fresh one.
    pub exit_after_game: bool,
}

impl ServerSection {
    /// Whether every setting is what it is where nothing is said of it.
    pub open spec fn is_default(self) -> bool {
        &&& self.host.0 == 0
        &&& self.port == DEFAULT_PORT
        &&& self.pyrogenesis_path@ == DEFAULT_PYROGENESIS_PATH@
        &&& !self.exit_after_game
    }
}

impl Default for ServerSection {
    fn default() -> (r: Self)
        ensures
            r.is_default(),
    {
        ServerSection {
            host: Ipv4Addr(0),
            port: DEFAULT_PORT,
            pyrogenesis_path: utils::copy_text(DEFAULT_PYROGENESIS_PATH),
            exit_after_game: false,
        }
    }
}

impl ServerSection {
    pub fn pyrogenesis_path(&self) -> (r: Option<String>)
        ensures
            utils::seen(r) == set_path(self.pyrogenesis_path@),
    {
        non_empty_path(self.pyrogenesis_path.as_str())
    }
}

#[derive(Debug)]
pub struct AccountEntry {
    pub jid: String,
    pub password: String,
}

impl View for AccountEntry {
    type V = XmppCredentialsView;

    open spec fn view(&self) -> XmppCredentialsView {
        XmppCredentialsView { jid: self.jid@, password: self.password@ }
    }
}

/// Accounts that wait in the lobby to be asked for a game.
#[derive(Debug)]
pub struct LobbySection {
    pub enabled: bool,
    /// The address players connect to.
    pub public_ip: String,
    /// Shown in the lobby game list.
    pub server_name: String,
    /// Optional password set on every lobby game.
    pub game_password: String,
    /// How long a hosted game may sit with nobody in it; 0 means for ever.
    pub idle_shutdown_secs: u64,
    pub muc_room: String,
    pub bot_jid: String,
    /// Must match the clients.
    pub engine_version: String,
    pub accounts: Vec<AccountEntry>,
}

impl LobbySection {
    /// Whether every setting is what it is where nothing is said of it.
    pub open spec fn is_default(self) -> bool {
        &&& !self.enabled
        &&& self.public_ip@ == ""@
        &&& self.server_name@ == manager::DEFAULT_SERVER_NAME@
        &&& self.game_password@ == ""@
        &&& self.idle_shutdown_secs == DEFAULT_IDLE_SHUTDOWN_SECS
        &&& self.muc_room@ == ""@
        &&& self.bot_jid@ == ""@
        &&& self.engine_version@ == manager::DEFAULT_ENGINE_VERSION@
        &&& self.accounts@.len() == 0
    }
}

impl Default for LobbySection {
    fn default() -> (r: Self)
        ensures
            r.is_default(),
    {
        LobbySection {
            enabled: false,
            public_ip: utils::copy_text(""),
            server_name: utils::copy_text(manager::DEFAULT_SERVER_NAME),
            game_password: utils::copy_text(""),
            idle_shutdown_secs: DEFAULT_IDLE_SHUTDOWN_SECS,
            muc_room: utils::copy_text(""),
            bot_jid: utils::copy_text(""),
            engine_version: utils::copy_text(manager::DEFAULT_ENGINE_VERSION),
            accounts: Vec::new(),
        }
    }
}

/// The first account without a password.
pub open spec fn without_password(accounts: Seq<XmppCredentialsView>) -> Option<Seq<char>>
    decreases accounts.len(),
{
    if accounts.len() == 0 {
        None
    } else if accounts[0].password.len() == 0 {
        Some(accounts[0].jid)
    } else {
        without_password(accounts.drop_first())
    }
}

pub open spec fn empty_key_text(key: Seq<char>) -> Seq<char> {
    "[lobby] is enabled but "@ + key + " is empty"@
}

impl LobbySection {
    /// Why a lobby run is refused: one with any of these missing could never
    /// log in or be listed. An account without a password is one of the
    /// generated examples left in place.
    pub open spec fn fault(self) -> Option<Seq<char>> {
        if self.accounts@.len() == 0 {
            Some("[lobby] is enabled but lists no accounts"@)
        } else {
            match without_password(items::views(self.accounts@)) {
                Some(jid) => Some("[lobby] account '"@ + jid + "' has no password"@),
                None => if self.muc_room@.len() == 0 {
                    Some(empty_key_text("muc_room"@))
                } else if self.bot_jid@.len() == 0 {
                    Some(empty_key_text("bot_jid"@))
                } else if self.public_ip@.len() == 0 {
                    Some(empty_key_text("public_ip"@))
                } else {
                    None
                },
            }
        }
    }

    /// What the table says of the lobby.
    pub open spec fn lobby_config(self) -> LobbyConfigView {
        LobbyConfigView {
            accounts: items::views(self.accounts@),
            muc_room: self.muc_room@,
            bot_jid: self.bot_jid@,
            public_ip: self.public_ip@,
            server_name: self.server_name@,
            engine_version: self.engine_version@,
            game_password: self.game_password@,
            personal: None,
        }
    }

    /// What the generated file shows. The default stays empty: it fills what a
    /// file leaves out, and accounts made up for show would then log in.
    pub fn example() -> (r: Self)
        ensures
            r.muc_room@ == "arena28@conference.lobby.wildfiregames.com"@,
            r.bot_jid@ == "wfgbot28@lobby.wildfiregames.com/CC"@,
            items::views(r.accounts@) == seq![
                XmppCredentialsView {
                    jid: "myserver1@lobby.wildfiregames.com"@,
                    password: ""@,
                },
                XmppCredentialsView {
                    jid: "myserver2@lobby.wildfiregames.com"@,
                    password: ""@,
                },
            ],
            !r.enabled,
            r.public_ip@ == ""@,
            r.server_name@ == manager::DEFAULT_SERVER_NAME@,
            r.game_password@ == ""@,
            r.idle_shutdown_secs == DEFAULT_IDLE_SHUTDOWN_SECS,
            r.engine_version@ == manager::DEFAULT_ENGINE_VERSION@,
    {
        let mut accounts: Vec<AccountEntry> = Vec::new();
        accounts.push(
            AccountEntry {
                jid: utils::copy_text("myserver1@lobby.wildfiregames.com"),
                password: utils::copy_text(""),
            },
        );
        accounts.push(
            AccountEntry {
                jid: utils::copy_text("myserver2@lobby.wildfiregames.com"),
                password: utils::copy_text(""),
            },
        );
        assert(items::views(accounts@) =~= seq![
            XmppCredentialsView {
                jid: "myserver1@lobby.wildfiregames.com"@,
                password: ""@,
            },
            XmppCredentialsView {
                jid: "myserver2@lobby.wildfiregames.com"@,
                password: ""@,
            },
        ]);
        LobbySection {
            muc_room: utils::copy_text("arena28@conference.lobby.wildfiregames.com"),
            bot_jid: utils::copy_text("wfgbot28@lobby.wildfiregames.com/CC"),
            accounts,
            ..LobbySection::default()
        }
    }

    /// 0 means never, as for every other span: a zero timeout would close each
    /// game on its first tick, before anyone could join it.
    pub fn idle_shutdown(&self) -> (r: Option<i64>)
        ensures
            r == opt_span_ms(self.idle_shutdown_secs),
    {
        secs_to_opt_delta(self.idle_shutdown_secs)
    }

    fn passwordless(&self) -> (r: Option<&AccountEntry>)
        ensures
            match r {
                Some(a) => without_password(items::views(self.accounts@)) == Some(a.jid@),
                None => without_password(items::views(self.accounts@)) is None,
            },
    {
        let ghost all = items::views(self.accounts@);
        let mut i: usize = 0;
        assert(all.skip(0) =~= all);
        while i < self.accounts.len()
            invariant
                all == items::views(self.accounts@),
                i <= self.accounts@.len(),
                without_password(all) == without_password(all.skip(i as int)),
            decreases self.accounts@.len() - i,
        {
            proof {
                assert(all.skip(i as int)[0] == self.accounts@[i as int]@);
                assert(all.skip(i as int).drop_first() =~= all.skip(i + 1));
            }
            if self.accounts[i].password.as_str().is_empty() {
                return Some(&self.accounts[i]);
            }
            i += 1;
        }
        None
    }

    fn credentials(&self) -> (r: Vec<XmppCredentials>)
        ensures
            items::views(r@) == items::views(self.accounts@),
    {
        let ghost all = items::views(self.accounts@);
        let mut out: Vec<XmppCredentials> = Vec::new();
        let mut i: usize = 0;
        while i < self.accounts.len()
            invariant
                all == items::views(self.accounts@),
                i <= self.accounts@.len(),
                out@.len() == i,
                forall|j: int| 0 <= j < i ==> (#[trigger] out@[j])@ == all[j],
            decreases self.accounts@.len() - i,
        {
            assert(all[i as int] == self.accounts@[i as int]@);
            out.push(
                XmppCredentials {
                    jid: utils::copy_text(self.accounts[i].jid.as_str()),
                    password: utils::copy_text(self.accounts[i].password.as_str()),
                },
            );
            i += 1;
        }
        assert(items::views(out@) =~= all);
        out
    }

    fn empty_key(key: &str) -> (r: String)
        ensures
            r@ == empty_key_text(key@),
    {
        let mut out = utils::copy_text("[lobby] is enabled but ");
        out.append(key);
        out.append(" is empty");
        out
    }

    /// What the table says of the lobby, or why it cannot be run.
    pub fn to_lobby_config(&self) -> (r: Result<LobbyConfig, String>)
        ensures
            match r {
                Ok(c) => self.fault() is None && c@ == self.lobby_config(),
                Err(e) => self.fault() == Some(e@),
            },
    {
        if self.accounts.len() == 0 {
            return Err(utils::copy_text("[lobby] is enabled but lists no accounts"));
        }
        if let Some(account) = self.passwordless() {
            let mut out = utils::copy_text("[lobby] account '");
            out.append(account.jid.as_str());
            out.append("' has no password");
            return Err(out);
        }
        if self.muc_room.as_str().is_empty() {
            return Err(Self::empty_key("muc_room"));
        }
        if self.bot_jid.as_str().is_empty() {
            return Err(Self::empty_key("bot_jid"));
        }
        if self.public_ip.as_str().is_empty() {
            return Err(Self::empty_key("public_ip"));
        }
        Ok(
            LobbyConfig {
                accounts: self.credentials(),
                muc_room: utils::copy_text(self.muc_room.as_str()),
                bot_jid: utils::copy_text(self.bot_jid.as_str()),
                public_ip: utils::copy_text(self.public_ip.as_str()),
                server_name: utils::copy_text(self.server_name.as_str()),
                engine_version: utils::copy_text(self.engine_version.as_str()),
                game_password: utils::copy_text(self.game_password.as_str()),
                personal: None,
            },
        )
    }
}

/// What players see and who runs a match.
#[derive(Debug)]
pub struct MatchSection {
    pub server_name: String,
    pub welcome_message: String,
    pub controller_secret: String,
    pub allow_duplicate_names: bool,
    pub post_game_linger_secs: u64,
}

impl MatchSection {
    /// Whether every setting is what it is where nothing is said of it.
    pub open spec fn is_default(self) -> bool {
        &&& self.server_name@ == "SERVER"@
        &&& self.welcome_message@ == Seq::<char>::empty()
        &&& self.controller_secret@ == Seq::<char>::empty()
        &&& !self.allow_duplicate_names
        &&& self.post_game_linger_secs == 300
    }
}

impl Default for MatchSection {
    fn default() -> (r: Self)
        ensures
            r.is_default(),
    {
        // Read back from the match's own defaults so the two cannot drift
        // apart.
        let config = Config::default();
        MatchSection {
            server_name: config.server_name,
            welcome_message: config.welcome_message,
            controller_secret: config.controller_secret,
            allow_duplicate_names: config.allow_duplicate_names,
            post_game_linger_secs: delta_to_secs(config.post_game_linger),
        }
    }
}

/// Who may watch a match already in progress.
#[derive(Debug, Clone, Copy, PartialEq, Eq, Structural)]
pub enum ObserverPolicy {
    Everyone,
    Buddies,
    Deny,
}

impl From<LateObserverPolicy> for ObserverPolicy {
    fn from(policy: LateObserverPolicy) -> (r: Self) {
        match policy {
            LateObserverPolicy::Everyone => ObserverPolicy::Everyone,
            LateObserverPolicy::Buddies => ObserverPolicy::Buddies,
            LateObserverPolicy::Deny => ObserverPolicy::Deny,
        }
    }
}

impl vstd::std_specs::convert::FromSpecImpl<LateObserverPolicy> for ObserverPolicy {
    open spec fn obeys_from_spec() -> bool {
        true
    }

    open spec fn from_spec(policy: LateObserverPolicy) -> Self {
        match policy {
            LateObserverPolicy::Everyone => ObserverPolicy::Everyone,
            LateObserverPolicy::Buddies => ObserverPolicy::Buddies,
            LateObserverPolicy::Deny => ObserverPolicy::Deny,
        }
    }
}

impl From<ObserverPolicy> for LateObserverPolicy {
    fn from(policy: ObserverPolicy) -> (r: Self) {
        match policy {
            ObserverPolicy::Everyone => LateObserverPolicy::Everyone,
            ObserverPolicy::Buddies => LateObserverPolicy::Buddies,
            ObserverPolicy::Deny => LateObserverPolicy::Deny,
        }
    }
}

impl vstd::std_specs::convert::FromSpecImpl<ObserverPolicy> for LateObserverPolicy {
    open spec fn obeys_from_spec() -> bool {
        true
    }

    open spec fn from_spec(policy: ObserverPolicy) -> Self {
        match policy {
            ObserverPolicy::Everyone => LateObserverPolicy::Everyone,
            ObserverPolicy::Buddies => LateObserverPolicy::Buddies,
            ObserverPolicy::Deny => LateObserverPolicy::Deny,
        }
    }
}

/// Who may watch a match, and how far behind the players.
#[derive(Debug)]
pub struct ObserversSection {
    pub policy: ObserverPolicy,
    pub limit: usize,
    pub delay_turns: u32,
    pub buddies: Vec<String>,
}

impl ObserversSection {
    /// Whether every setting is what it is where nothing is said of it.
    pub open spec fn is_default(self) -> bool {
        &&& self.policy == ObserverPolicy::Everyone
        &&& self.limit == 8
        &&& self.delay_turns == crate::relay::observer_feed::DEFAULT_DELAY_TURNS
        &&& self.buddies@.len() == 0
    }
}

impl Default for ObserversSection {
    fn default() -> (r: Self)
        ensures
            r.is_default(),
    {
        let config = Config::default();
        ObserversSection {
            policy: ObserverPolicy::from(config.late_observer_policy),
            limit: config.observer_limit,
            delay_turns: config.observer_delay_turns,
            buddies: config.buddies,
        }
    }
}

/// How long players may hold a match paused.
#[derive(Debug)]
pub struct PauseSection {
    pub budget_secs: u64,
    pub afk: bool,
    pub min_charge_secs: u64,
}

impl PauseSection {
    /// Whether every setting is what it is where nothing is said of it.
    pub open spec fn is_default(self) -> bool {
        &&& self.budget_secs == 180
        &&& self.afk
        &&& self.min_charge_secs == 0
    }
}

impl Default for PauseSection {
    fn default() -> (r: Self)
        ensures
            r.is_default(),
    {
        let config = Config::default();
        PauseSection {
            budget_secs: delta_to_secs(config.pause_budget),
            afk: config.afk_pause,
            min_charge_secs: delta_to_secs(config.pause_min_charge),
        }
    }
}

/// Saving running matches so they survive a restart, and recording how they
/// ended.
#[derive(Debug)]
pub struct SavesSection {
    /// Empty turns saving off.
    pub dir: String,
    pub resume: bool,
    pub keep_finished: bool,
    /// Empty only logs the outcome.
    pub outcome_dir: String,
    pub client_state_interval_secs: u64,
}

impl SavesSection {
    /// Whether every setting is what it is where nothing is said of it.
    pub open spec fn is_default(self) -> bool {
        &&& self.dir@ == DEFAULT_SAVE_DIR@
        &&& self.resume
        &&& !self.keep_finished
        &&& self.outcome_dir@ == DEFAULT_OUTCOME_DIR@
        &&& self.client_state_interval_secs == 120
    }
}

impl Default for SavesSection {
    fn default() -> (r: Self)
        ensures
            r.is_default(),
    {
        SavesSection {
            dir: utils::copy_text(DEFAULT_SAVE_DIR),
            resume: true,
            keep_finished: false,
            outcome_dir: utils::copy_text(DEFAULT_OUTCOME_DIR),
            client_state_interval_secs: 120,
        }
    }
}

impl SavesSection {
    pub fn outcome_dir(&self) -> (r: Option<String>)
        ensures
            utils::seen(r) == set_path(self.outcome_dir@),
    {
        non_empty_path(self.outcome_dir.as_str())
    }

    pub fn dir(&self) -> (r: Option<String>)
        ensures
            utils::seen(r) == set_path(self.dir@),
    {
        non_empty_path(self.dir.as_str())
    }
}

/// The metrics endpoint.
#[derive(Debug)]
pub struct MetricsSection {
    pub host: String,
    /// 0 disables it.
    pub port: u16,
}

impl MetricsSection {
    /// Whether every setting is what it is where nothing is said of it.
    pub open spec fn is_default(self) -> bool {
        &&& self.host@ == DEFAULT_METRICS_HOST@
        &&& self.port == DEFAULT_METRICS_PORT
    }
}

impl Default for MetricsSection {
    fn default() -> (r: Self)
        ensures
            r.is_default(),
    {
        MetricsSection { host: utils::copy_text(DEFAULT_METRICS_HOST), port: DEFAULT_METRICS_PORT }
    }
}

/// Where log lines go. Every field loses to its environment variable.
#[derive(Debug)]
pub struct LogSection {
    pub directives: String,
    pub loki_directives: String,
    pub loki_url: String,
    pub loki_instance: String,
    pub loki_env: String,
}

impl LogSection {
    /// Whether every setting is what it is where nothing is said of it.
    pub open spec fn is_default(self) -> bool {
        &&& self.directives@ == ""@
        &&& self.loki_directives@ == ""@
        &&& self.loki_url@ == ""@
        &&& self.loki_instance@ == ""@
        &&& self.loki_env@ == "dev"@
    }
}

impl Default for LogSection {
    fn default() -> (r: Self)
        ensures
            r.is_default(),
    {
        LogSection {
            directives: utils::copy_text(""),
            loki_directives: utils::copy_text(""),
            loki_url: utils::copy_text(""),
            loki_instance: utils::copy_text(""),
            loki_env: utils::copy_text("dev"),
        }
    }
}

/// What is in force: the environment, or what the file sets. An empty
/// environment variable still counts as set.
pub open spec fn in_force(env: Option<Seq<char>>, from_file: Seq<char>) -> Option<Seq<char>> {
    match env {
        Some(v) => Some(v),
        None => set_path(from_file),
    }
}

pub fn env_or(env: Option<String>, from_file: &str) -> (r: Option<String>)
    ensures
        utils::seen(r) == in_force(utils::seen(env), from_file@),
{
    match env {
        Some(v) => Some(v),
        None => non_empty_path(from_file),
    }
}

/// The name a log stream goes under: what is in force, else the machine's own
/// name, trimmed; without any it is unknown.
pub open spec fn stream_name(
    named: Option<Seq<char>>,
    hostname: Option<Seq<char>>,
    computer: Option<Seq<char>>,
) -> Seq<char> {
    let first = match (named, hostname) {
        (Some(n), _) => Some(n),
        (None, Some(h)) => Some(h),
        (None, None) => computer,
    };
    match first {
        Some(name) => if utils::trimmed(name).len() > 0 {
            utils::trimmed(name)
        } else {
            "unknown"@
        },
        None => "unknown"@,
    }
}

pub fn stream_instance(
    named: Option<String>,
    hostname: Option<String>,
    computer: Option<String>,
) -> (r: String)
    ensures
        r@ == stream_name(utils::seen(named), utils::seen(hostname), utils::seen(computer)),
{
    let first = match (named, hostname) {
        (Some(n), _) => Some(n),
        (None, Some(h)) => Some(h),
        (None, None) => computer,
    };
    match first {
        Some(name) => {
            let chars = utils::chars_of(name.as_str());
            let trimmed = utils::trim_chars(chars.as_slice());
            if trimmed.len() > 0 {
                utils::text_of(trimmed)
            } else {
                utils::copy_text("unknown")
            }
        },
        None => utils::copy_text("unknown"),
    }
}

/// Headless engine runs.
#[derive(Debug)]
pub struct SidecarSection {
    /// How many one-shot runs may be going at once; 0 lifts the cap.
    pub max_runs: usize,
    /// 0 disables checkpoints.
    pub checkpoint_interval_turns: u32,
    /// 0 uses the checkpoint interval.
    pub ai_state_interval_turns: u32,
    pub ai_heal_attempts: u32,
    /// 0 waits forever.
    pub ai_heal_timeout_secs: u64,
}

impl SidecarSection {
    /// One engine for each core: a replay is bound by the processor, so running
    /// more at once only makes each finish later.
    pub fn for_cores(cores: usize) -> (r: Self)
        ensures
            r.max_runs == cores,
            r.checkpoint_interval_turns == DEFAULT_CHECKPOINT_INTERVAL_TURNS,
            r.ai_state_interval_turns == 0,
            r.ai_heal_attempts == 0,
            r.ai_heal_timeout_secs == 0,
    {
        let config = Config::default();
        SidecarSection {
            max_runs: cores,
            checkpoint_interval_turns: DEFAULT_CHECKPOINT_INTERVAL_TURNS,
            ai_state_interval_turns: 0,
            ai_heal_attempts: config.ai_heal_attempts,
            ai_heal_timeout_secs: opt_delta_to_secs(config.ai_heal_timeout),
        }
    }
}

impl SidecarSection {
    /// Whether every setting is what it is where nothing is said of it.
    pub open spec fn is_default(self) -> bool {
        &&& self.max_runs == 1
        &&& self.checkpoint_interval_turns == DEFAULT_CHECKPOINT_INTERVAL_TURNS
        &&& self.ai_state_interval_turns == 0
        &&& self.ai_heal_attempts == 0
        &&& self.ai_heal_timeout_secs == 0
    }
}

impl Default for SidecarSection {
    fn default() -> (r: Self)
        ensures
            r.is_default(),
    {
        SidecarSection::for_cores(1)
    }
}

/// Per-peer flood and abuse limits. A stock client stays far below all of them.
#[derive(Debug)]
pub struct LimitsSection {
    pub chat_per_sec: u32,
    pub chat_burst: u32,
    pub chat_max_chars: usize,
    pub flare_per_sec: u32,
    pub flare_burst: u32,
    pub commands_per_turn: u32,
    pub command_bytes_per_turn: usize,
    pub flood_kick_multiple: u32,
    pub join_burst: u32,
    pub join_interval_secs: u64,
    pub auth_fail_burst: u32,
    pub auth_fail_burst_per_addr: u32,
    pub auth_fail_interval_secs: u64,
    pub max_pending_per_ip: usize,
}

impl LimitsSection {
    /// Whether every setting is what it is where nothing is said of it.
    pub open spec fn is_default(self) -> bool {
        self == (LimitsSection {
            chat_per_sec: 0,
            chat_burst: 0,
            chat_max_chars: 0,
            flare_per_sec: 0,
            flare_burst: 0,
            commands_per_turn: 0,
            command_bytes_per_turn: 0,
            flood_kick_multiple: 0,
            join_burst: 0,
            join_interval_secs: 0,
            auth_fail_burst: 0,
            auth_fail_burst_per_addr: 0,
            auth_fail_interval_secs: 0,
            max_pending_per_ip: 0,
        })
    }
}

impl Default for LimitsSection {
    fn default() -> (r: Self)
        ensures
            r.is_default(),
    {
        let config = Config::default();
        LimitsSection {
            chat_per_sec: config.chat_per_sec,
            chat_burst: config.chat_burst,
            chat_max_chars: config.chat_max_chars,
            flare_per_sec: config.flare_per_sec,
            flare_burst: config.flare_burst,
            commands_per_turn: config.commands_per_turn,
            command_bytes_per_turn: config.command_bytes_per_turn,
            flood_kick_multiple: config.flood_kick_multiple,
            join_burst: config.join_burst,
            join_interval_secs: opt_delta_to_secs(config.join_interval),
            auth_fail_burst: config.auth_fail_burst,
            auth_fail_burst_per_addr: config.auth_fail_burst_per_addr,
            auth_fail_interval_secs: opt_delta_to_secs(config.auth_fail_interval),
            max_pending_per_ip: config.max_pending_per_ip,
        }
    }
}

/// How long the server waits on slow or absent clients; 0 waits forever.
#[derive(Debug)]
pub struct TimeoutsSection {
    pub handshake_secs: u64,
    pub loading_secs: u64,
    pub join_source_stall_secs: u64,
    pub resume_wait_secs: u64,
    /// How long only the saved controller may restart a resumed match.
    pub resume_controller_grace_secs: u64,
}

impl TimeoutsSection {
    /// Whether every setting is what it is where nothing is said of it.
    pub open spec fn is_default(self) -> bool {
        self == (TimeoutsSection {
            handshake_secs: 0,
            loading_secs: 0,
            join_source_stall_secs: 0,
            resume_wait_secs: 0,
            resume_controller_grace_secs: 0,
        })
    }
}

impl Default for TimeoutsSection {
    fn default() -> (r: Self)
        ensures
            r.is_default(),
    {
        let config = Config::default();
        TimeoutsSection {
            handshake_secs: opt_delta_to_secs(config.handshake_timeout),
            loading_secs: opt_delta_to_secs(config.loading_timeout),
            join_source_stall_secs: opt_delta_to_secs(config.join_source_stall),
            resume_wait_secs: opt_delta_to_secs(config.resume_wait),
            resume_controller_grace_secs: delta_to_secs(config.resume_controller_grace),
        }
    }
}

#[derive(Debug)]
pub struct ModEntry {
    pub name: String,
    pub version: String,
}

impl View for ModEntry {
    type V = EnabledModView;

    open spec fn view(&self) -> EnabledModView {
        EnabledModView { name: self.name@, version: self.version@ }
    }
}

/// Protocol and resource internals. The defaults suit nearly every server.
#[derive(Debug)]
pub struct AdvancedSection {
    /// Milliseconds between released turns.
    pub turn_length_ms: u16,
    pub max_sessions: usize,
    pub release_controller_on_leave: bool,
    /// 0 means an observer never blocks turn release.
    pub observer_lag_limit: u32,
    pub enet_max_packet_bytes: usize,
    pub enet_max_waiting_bytes: usize,
    pub save_flush_ms: u64,
    pub max_resume_attempts: u32,
    /// The list admission holds every client to.
    pub enabled_mods: Vec<ModEntry>,
}

fn mod_entries(mods: &Vec<EnabledMod>) -> (r: Vec<ModEntry>)
    ensures
        items::views(r@) == items::views(mods@),
{
    let ghost all = items::views(mods@);
    let mut out: Vec<ModEntry> = Vec::new();
    let mut i: usize = 0;
    while i < mods.len()
        invariant
            all == items::views(mods@),
            i <= mods@.len(),
            out@.len() == i,
            forall|j: int| 0 <= j < i ==> (#[trigger] out@[j])@ == all[j],
        decreases mods@.len() - i,
    {
        assert(all[i as int] == mods@[i as int]@);
        out.push(
            ModEntry {
                name: utils::copy_text(mods[i].name.as_str()),
                version: utils::copy_text(mods[i].version.as_str()),
            },
        );
        i += 1;
    }
    assert(items::views(out@) =~= all);
    out
}

fn enabled(mods: &Vec<ModEntry>) -> (r: Vec<EnabledMod>)
    ensures
        items::views(r@) == items::views(mods@),
{
    let ghost all = items::views(mods@);
    let mut out: Vec<EnabledMod> = Vec::new();
    let mut i: usize = 0;
    while i < mods.len()
        invariant
            all == items::views(mods@),
            i <= mods@.len(),
            out@.len() == i,
            forall|j: int| 0 <= j < i ==> (#[trigger] out@[j])@ == all[j],
        decreases mods@.len() - i,
    {
        assert(all[i as int] == mods@[i as int]@);
        out.push(
            EnabledMod {
                name: utils::copy_text(mods[i].name.as_str()),
                version: utils::copy_text(mods[i].version.as_str()),
            },
        );
        i += 1;
    }
    assert(items::views(out@) =~= all);
    out
}

fn texts(list: &Vec<String>) -> (r: Vec<String>)
    ensures
        items::views(r@) == items::views(list@),
{
    let ghost all = items::views(list@);
    let mut out: Vec<String> = Vec::new();
    let mut i: usize = 0;
    while i < list.len()
        invariant
            all == items::views(list@),
            i <= list@.len(),
            out@.len() == i,
            forall|j: int| 0 <= j < i ==> (#[trigger] out@[j])@ == all[j],
        decreases list@.len() - i,
    {
        assert(all[i as int] == list@[i as int]@);
        out.push(utils::copy_text(list[i].as_str()));
        i += 1;
    }
    assert(items::views(out@) =~= all);
    out
}

impl AdvancedSection {
    /// Whether every setting is what it is where nothing is said of it.
    pub open spec fn is_default(self) -> bool {
        &&& self.turn_length_ms == 200
        &&& self.max_sessions == crate::relay::server_fsm::config::MAX_SESSIONS
        &&& self.release_controller_on_leave
        &&& self.observer_lag_limit == 0
        &&& self.enet_max_packet_bytes == DEFAULT_ENET_MAX_PACKET_BYTES
        &&& self.enet_max_waiting_bytes == DEFAULT_ENET_MAX_WAITING_BYTES
        &&& self.save_flush_ms == DEFAULT_SAVE_FLUSH_MS
        &&& self.max_resume_attempts == DEFAULT_MAX_RESUME_ATTEMPTS
        &&& items::views(self.enabled_mods@) == seq![
            EnabledModView {
                name: "0ad"@,
                version: crate::relay::server_fsm::config::SIMULATION_VERSION@,
            },
        ]
    }
}

impl Default for AdvancedSection {
    fn default() -> (r: Self)
        ensures
            r.is_default(),
    {
        let config = Config::default();
        AdvancedSection {
            turn_length_ms: config.turn_length_ms as u16,
            max_sessions: config.max_sessions,
            release_controller_on_leave: config.release_controller_on_leave,
            observer_lag_limit: match config.observer_lag_limit {
                Some(n) => n,
                None => 0,
            },
            enet_max_packet_bytes: DEFAULT_ENET_MAX_PACKET_BYTES,
            enet_max_waiting_bytes: DEFAULT_ENET_MAX_WAITING_BYTES,
            save_flush_ms: DEFAULT_SAVE_FLUSH_MS,
            max_resume_attempts: DEFAULT_MAX_RESUME_ATTEMPTS,
            enabled_mods: mod_entries(&config.enabled_mods),
        }
    }
}

impl AdvancedSection {
    pub fn enet_limits(&self) -> (r: EnetLimits)
        ensures
            r.max_packet_bytes == self.enet_max_packet_bytes,
            r.max_waiting_bytes == self.enet_max_waiting_bytes,
    {
        EnetLimits {
            max_packet_bytes: self.enet_max_packet_bytes,
            max_waiting_bytes: self.enet_max_waiting_bytes,
        }
    }
}

/// How a match is saved.
#[derive(Debug)]
pub struct SaveSetup {
    pub root: String,
    /// In milliseconds.
    pub flush_interval: u64,
    pub keep_finished: bool,
    /// The account hosting the game; empty in standalone mode.
    pub lobby_account: String,
}

/// The configuration file, its tables in the order in which they are most
/// likely to be edited.
#[derive(Debug)]
pub struct FileConfig {
    pub server: ServerSection,
    pub lobby: LobbySection,
    pub game_match: MatchSection,
    pub observers: ObserversSection,
    pub pause: PauseSection,
    pub saves: SavesSection,
    pub metrics: MetricsSection,
    pub log: LogSection,
    pub sidecar: SidecarSection,
    pub limits: LimitsSection,
    pub timeouts: TimeoutsSection,
    pub advanced: AdvancedSection,
}

impl FileConfig {
    /// Whether every table is what it is where nothing is said of it.
    pub open spec fn is_default(self) -> bool {
        &&& self.server.is_default()
        &&& self.lobby.is_default()
        &&& self.game_match.is_default()
        &&& self.observers.is_default()
        &&& self.pause.is_default()
        &&& self.saves.is_default()
        &&& self.metrics.is_default()
        &&& self.log.is_default()
        &&& self.sidecar.is_default()
        &&& self.limits.is_default()
        &&& self.timeouts.is_default()
        &&& self.advanced.is_default()
    }
}

impl Default for FileConfig {
    fn default() -> (r: Self)
        ensures
            r.is_default(),
            r.fault() is None,
    {
        FileConfig {
            server: ServerSection::default(),
            lobby: LobbySection::default(),
            game_match: MatchSection::default(),
            observers: ObserversSection::default(),
            pause: PauseSection::default(),
            saves: SavesSection::default(),
            metrics: MetricsSection::default(),
            log: LogSection::default(),
            sidecar: SidecarSection::default(),
            limits: LimitsSection::default(),
            timeouts: TimeoutsSection::default(),
            advanced: AdvancedSection::default(),
        }
    }
}

pub open spec fn sessions_text(n: usize) -> Seq<char> {
    "[advanced] max_sessions must be between 2 and "@ + utils::decimal(PEER_LIMIT as nat)
        + ", got "@ + utils::decimal(n as nat)
}

pub open spec fn packet_text(n: usize) -> Seq<char> {
    "[advanced] enet_max_packet_bytes must be at least "@ + utils::decimal(
        DEFAULT_ENET_MAX_PACKET_BYTES as nat,
    ) + ", got "@ + utils::decimal(n as nat)
}

impl FileConfig {
    /// Why a configuration is refused. A zero-length turn would release turns
    /// as fast as the loop runs. The arriving session counts against the cap,
    /// so 1 would refuse everyone, and above the transport's own limit no peer
    /// is left over to tell a client the server is full. A bucket that holds
    /// nothing drops every message, which is not what a rate that is switched
    /// on means.
    pub open spec fn fault(self) -> Option<Seq<char>> {
        if self.advanced.turn_length_ms == 0 {
            Some("[advanced] turn_length_ms must be at least 1"@)
        } else if self.advanced.max_sessions < 2 || self.advanced.max_sessions > PEER_LIMIT {
            Some(sessions_text(self.advanced.max_sessions))
        } else if self.limits.chat_per_sec != 0 && self.limits.chat_burst == 0 {
            Some("[limits] chat_burst must be at least 1 when chat_per_sec is set"@)
        } else if self.limits.join_interval_secs != 0 && self.limits.join_burst == 0 {
            Some("[limits] join_burst must be at least 1 when join_interval_secs is set"@)
        } else if self.limits.auth_fail_interval_secs != 0 && (self.limits.auth_fail_burst == 0
            || self.limits.auth_fail_burst_per_addr == 0) {
            Some(
                "[limits] auth_fail_burst and auth_fail_burst_per_addr must be at least 1 when auth_fail_interval_secs is set"@,
            )
        } else if self.limits.flare_per_sec != 0 && self.limits.flare_burst == 0 {
            Some("[limits] flare_burst must be at least 1 when flare_per_sec is set"@)
        } else if self.advanced.enet_max_packet_bytes < DEFAULT_ENET_MAX_PACKET_BYTES {
            Some(packet_text(self.advanced.enet_max_packet_bytes))
        } else if self.advanced.enet_max_waiting_bytes == 0 {
            Some("[advanced] enet_max_waiting_bytes must be at least 1"@)
        } else {
            None
        }
    }

    /// Whether the configuration can be run with.
    pub fn validate(&self) -> (r: Result<(), String>)
        ensures
            match r {
                Ok(_) => self.fault() is None,
                Err(e) => self.fault() == Some(e@),
            },
    {
        if self.advanced.turn_length_ms == 0 {
            return Err(utils::copy_text("[advanced] turn_length_ms must be at least 1"));
        }
        if self.advanced.max_sessions < 2 || self.advanced.max_sessions > PEER_LIMIT {
            let mut out = utils::copy_text("[advanced] max_sessions must be between 2 and ");
            let limit = utils::decimal_text(PEER_LIMIT as u64);
            let got = utils::decimal_text(self.advanced.max_sessions as u64);
            out.append(limit.as_str());
            out.append(", got ");
            out.append(got.as_str());
            return Err(out);
        }
        if self.limits.chat_per_sec != 0 && self.limits.chat_burst == 0 {
            return Err(
                utils::copy_text("[limits] chat_burst must be at least 1 when chat_per_sec is set"),
            );
        }
        if self.limits.join_interval_secs != 0 && self.limits.join_burst == 0 {
            return Err(
                utils::copy_text(
                    "[limits] join_burst must be at least 1 when join_interval_secs is set",
                ),
            );
        }
        if self.limits.auth_fail_interval_secs != 0 && (self.limits.auth_fail_burst == 0
            || self.limits.auth_fail_burst_per_addr == 0) {
            return Err(
                utils::copy_text(
                    "[limits] auth_fail_burst and auth_fail_burst_per_addr must be at least 1 when auth_fail_interval_secs is set",
                ),
            );
        }
        if self.limits.flare_per_sec != 0 && self.limits.flare_burst == 0 {
            return Err(
                utils::copy_text(
                    "[limits] flare_burst must be at least 1 when flare_per_sec is set",
                ),
            );
        }
        if self.advanced.enet_max_packet_bytes < DEFAULT_ENET_MAX_PACKET_BYTES {
            let mut out = utils::copy_text("[advanced] enet_max_packet_bytes must be at least ");
            let floor = utils::decimal_text(DEFAULT_ENET_MAX_PACKET_BYTES as u64);
            let got = utils::decimal_text(self.advanced.enet_max_packet_bytes as u64);
            out.append(floor.as_str());
            out.append(", got ");
            out.append(got.as_str());
            return Err(out);
        }
        if self.advanced.enet_max_waiting_bytes == 0 {
            return Err(utils::copy_text("[advanced] enet_max_waiting_bytes must be at least 1"));
        }
        Ok(())
    }

    /// How matches are saved; None when saving is off.
    pub fn save_setup(&self, lobby_account: &str) -> (r: Option<SaveSetup>)
        ensures
            match r {
                Some(s) => {
                    &&& set_path(self.saves.dir@) == Some(s.root@)
                    &&& s.flush_interval == (if self.advanced.save_flush_ms < 1 {
                        1
                    } else {
                        self.advanced.save_flush_ms
                    })
                    &&& s.keep_finished == self.saves.keep_finished
                    &&& s.lobby_account@ == lobby_account@
                },
                None => set_path(self.saves.dir@) is None,
            },
    {
        match self.saves.dir() {
            Some(root) => Some(
                SaveSetup {
                    root,
                    flush_interval: if self.advanced.save_flush_ms < 1 {
                        1
                    } else {
                        self.advanced.save_flush_ms
                    },
                    keep_finished: self.saves.keep_finished,
                    lobby_account: utils::copy_text(lobby_account),
                },
            ),
            None => None,
        }
    }

    /// The rules of the game as the file sets them.
    pub open spec fn sets_rules(self, c: Config) -> bool {
        &&& items::views(c.enabled_mods@) == items::views(self.advanced.enabled_mods@)
        &&& c.turn_length_ms == self.advanced.turn_length_ms
        &&& c.controller_secret@ == self.game_match.controller_secret@
        &&& c.allow_duplicate_names == self.game_match.allow_duplicate_names
        &&& c.late_observer_policy == <LateObserverPolicy as vstd::std_specs::convert::FromSpec<
            ObserverPolicy,
        >>::from_spec(self.observers.policy)
        &&& c.observer_limit == self.observers.limit
        &&& c.observer_lag_limit == (if self.advanced.observer_lag_limit != 0 {
            Some(self.advanced.observer_lag_limit)
        } else {
            None
        })
        &&& c.observer_delay_turns == self.observers.delay_turns
        &&& items::views(c.buddies@) == items::views(self.observers.buddies@)
        &&& c.max_sessions == self.advanced.max_sessions
        &&& c.release_controller_on_leave == self.advanced.release_controller_on_leave
        &&& c.server_name@ == self.game_match.server_name@
        &&& c.welcome_message@ == self.game_match.welcome_message@
        &&& c.pause_budget == span_ms(self.pause.budget_secs)
        &&& c.pause_min_charge == span_ms(self.pause.min_charge_secs)
        &&& c.afk_pause == self.pause.afk
        &&& c.post_game_linger == span_ms(self.game_match.post_game_linger_secs)
    }

    /// The limits as the file sets them.
    pub open spec fn sets_limits(self, c: Config) -> bool {
        &&& c.join_source_stall == opt_span_ms(self.timeouts.join_source_stall_secs)
        &&& c.handshake_timeout == opt_span_ms(self.timeouts.handshake_secs)
        &&& c.max_pending_per_ip == self.limits.max_pending_per_ip
        &&& c.loading_timeout == opt_span_ms(self.timeouts.loading_secs)
        &&& c.chat_per_sec == self.limits.chat_per_sec
        &&& c.chat_burst == self.limits.chat_burst
        &&& c.chat_max_chars == self.limits.chat_max_chars
        &&& c.flare_per_sec == self.limits.flare_per_sec
        &&& c.flare_burst == self.limits.flare_burst
        &&& c.commands_per_turn == self.limits.commands_per_turn
        &&& c.command_bytes_per_turn == self.limits.command_bytes_per_turn
        &&& c.flood_kick_multiple == self.limits.flood_kick_multiple
        &&& c.join_burst == self.limits.join_burst
        &&& c.join_interval == opt_span_ms(self.limits.join_interval_secs)
        &&& c.auth_fail_burst == self.limits.auth_fail_burst
        &&& c.auth_fail_burst_per_addr == self.limits.auth_fail_burst_per_addr
        &&& c.auth_fail_interval == opt_span_ms(self.limits.auth_fail_interval_secs)
        &&& c.resume_wait == opt_span_ms(self.timeouts.resume_wait_secs)
        &&& c.resume_controller_grace == span_ms(self.timeouts.resume_controller_grace_secs)
    }

    /// What a sidecar does, as the file sets it.
    pub open spec fn sets_sidecar(self, c: Config, sidecar: bool) -> bool {
        &&& c.client_state_interval_turns == client_turns(
            sidecar,
            self.saves.client_state_interval_secs,
            self.advanced.turn_length_ms,
        )
        &&& c.ai_state_interval_turns == ai_turns(
            self.sidecar.ai_state_interval_turns,
            self.sidecar.checkpoint_interval_turns,
        )
        &&& c.ai_heal_attempts == self.sidecar.ai_heal_attempts
        &&& c.ai_heal_timeout == opt_span_ms(self.sidecar.ai_heal_timeout_secs)
        &&& c.sidecar_dumps == sidecar
        &&& c.hosted_ai == sidecar
        &&& c.checkpoint_interval_turns == self.sidecar.checkpoint_interval_turns
    }

    /// What every game starts from; a lobby game sets its own on top: the
    /// password, the names, whether the lobby vouches and when it shuts down.
    pub fn server_config(&self, sidecar: bool) -> (r: Config)
        ensures
            self.sets_rules(r),
            self.sets_limits(r),
            self.sets_sidecar(r, sidecar),
            !r.lobby_mode,
            r.server_password_hash@ == Seq::<char>::empty(),
            r.idle_shutdown is None,
            r.lobby_host_name@ == Seq::<char>::empty(),
            r.wf(),
    {
        let limits = &self.limits;
        let timeouts = &self.timeouts;
        let advanced = &self.advanced;
        Config {
            enabled_mods: enabled(&advanced.enabled_mods),
            turn_length_ms: advanced.turn_length_ms as u32,
            controller_secret: utils::copy_text(self.game_match.controller_secret.as_str()),
            allow_duplicate_names: self.game_match.allow_duplicate_names,
            late_observer_policy: LateObserverPolicy::from(self.observers.policy),
            observer_limit: self.observers.limit,
            observer_lag_limit: if advanced.observer_lag_limit != 0 {
                Some(advanced.observer_lag_limit)
            } else {
                None
            },
            observer_delay_turns: self.observers.delay_turns,
            buddies: texts(&self.observers.buddies),
            max_sessions: advanced.max_sessions,
            release_controller_on_leave: advanced.release_controller_on_leave,
            server_name: utils::copy_text(self.game_match.server_name.as_str()),
            welcome_message: utils::copy_text(self.game_match.welcome_message.as_str()),
            pause_budget: secs_to_delta(self.pause.budget_secs),
            afk_pause: self.pause.afk,
            post_game_linger: secs_to_delta(self.game_match.post_game_linger_secs),
            join_source_stall: secs_to_opt_delta(timeouts.join_source_stall_secs),
            handshake_timeout: secs_to_opt_delta(timeouts.handshake_secs),
            max_pending_per_ip: limits.max_pending_per_ip,
            loading_timeout: secs_to_opt_delta(timeouts.loading_secs),
            chat_per_sec: limits.chat_per_sec,
            chat_burst: limits.chat_burst,
            chat_max_chars: limits.chat_max_chars,
            flare_per_sec: limits.flare_per_sec,
            flare_burst: limits.flare_burst,
            commands_per_turn: limits.commands_per_turn,
            command_bytes_per_turn: limits.command_bytes_per_turn,
            pause_min_charge: secs_to_delta(self.pause.min_charge_secs),
            flood_kick_multiple: limits.flood_kick_multiple,
            join_burst: limits.join_burst,
            join_interval: secs_to_opt_delta(limits.join_interval_secs),
            auth_fail_burst: limits.auth_fail_burst,
            auth_fail_burst_per_addr: limits.auth_fail_burst_per_addr,
            auth_fail_interval: secs_to_opt_delta(limits.auth_fail_interval_secs),
            resume_wait: secs_to_opt_delta(timeouts.resume_wait_secs),
            resume_controller_grace: secs_to_delta(timeouts.resume_controller_grace_secs),
            client_state_interval_turns: client_state_interval_turns(
                sidecar,
                self.saves.client_state_interval_secs,
                advanced.turn_length_ms,
            ),
            ai_state_interval_turns: ai_state_interval_turns(
                self.sidecar.ai_state_interval_turns,
                self.sidecar.checkpoint_interval_turns,
            ),
            ai_heal_attempts: self.sidecar.ai_heal_attempts,
            ai_heal_timeout: secs_to_opt_delta(self.sidecar.ai_heal_timeout_secs),
            sidecar_dumps: sidecar,
            hosted_ai: sidecar,
            checkpoint_interval_turns: self.sidecar.checkpoint_interval_turns,
            ..Config::default()
        }
    }
}

/// A configuration that passes never drops everything: whatever rate is
/// switched on lets at least one message, join or password through.
pub proof fn valid_limits_let_something_through(f: FileConfig, c: Config)
    requires
        f.fault() is None,
        f.sets_limits(c),
    ensures
        c.chat_per_sec != 0 ==> c.chat_burst >= 1,
        c.flare_per_sec != 0 ==> c.flare_burst >= 1,
        c.join_interval is Some ==> c.join_burst >= 1,
        c.auth_fail_interval is Some ==> c.auth_fail_burst >= 1 && c.auth_fail_burst_per_addr >= 1,
{
}

/// The first line of a text.
pub open spec fn first_line(s: Seq<char>) -> Seq<char>
    decreases s.len(),
{
    if s.len() == 0 || s[0] == '\n' {
        Seq::empty()
    } else {
        seq![s[0]] + first_line(s.drop_first())
    }
}

/// A text as comment lines: each behind a mark, without white space at its
/// end.
pub open spec fn commented(s: Seq<char>) -> Seq<char>
    decreases s.len(),
    via commented_ends
{
    if s.len() == 0 {
        Seq::empty()
    } else {
        let line = first_line(s);
        "# "@ + utils::trim_end(line) + "\n"@ + commented(
            if line.len() < s.len() {
                s.skip(line.len() as int + 1)
            } else {
                Seq::empty()
            },
        )
    }
}

#[via_fn]
proof fn commented_ends(s: Seq<char>) {
}

fn line_end(chars: &Vec<char>, from: usize) -> (r: usize)
    requires
        from <= chars@.len(),
    ensures
        from <= r <= chars@.len(),
        chars@.subrange(from as int, r as int) == first_line(chars@.skip(from as int)),
{
    let ghost all = chars@.skip(from as int);
    let mut to: usize = from;
    proof {
        assert(chars@.subrange(from as int, from as int) =~= Seq::empty());
        assert(Seq::<char>::empty() + first_line(all) =~= first_line(all));
    }
    while to < chars.len() && chars[to] != '\n'
        invariant
            from <= to <= chars@.len(),
            all == chars@.skip(from as int),
            chars@.subrange(from as int, to as int) + first_line(chars@.skip(to as int))
                == first_line(all),
        decreases chars@.len() - to,
    {
        proof {
            let rest = chars@.skip(to as int);
            assert(rest[0] == chars@[to as int]);
            assert(rest.drop_first() =~= chars@.skip(to + 1));
            assert(chars@.subrange(from as int, to + 1) + first_line(chars@.skip(to + 1))
                =~= chars@.subrange(from as int, to as int) + first_line(rest));
        }
        to += 1;
    }
    proof {
        let rest = chars@.skip(to as int);
        if to < chars@.len() {
            assert(rest[0] == chars@[to as int]);
        }
        assert(first_line(rest) =~= Seq::empty());
        assert(chars@.subrange(from as int, to as int) + Seq::<char>::empty()
            =~= chars@.subrange(from as int, to as int));
    }
    to
}

/// A text as comment lines.
pub fn comment_text(comment: &str) -> (r: String)
    ensures
        r@ == commented(comment@),
{
    let chars = utils::chars_of(comment);
    let mut out = utils::copy_text("");
    let mut at: usize = 0;
    proof {
        reveal_strlit("");
        assert(chars@.skip(0) =~= comment@);
        assert(out@ + commented(comment@) =~= commented(comment@));
    }
    while at < chars.len()
        invariant
            chars@ == comment@,
            at <= chars@.len(),
            out@ + commented(chars@.skip(at as int)) == commented(comment@),
        decreases chars@.len() - at,
    {
        let ghost rest = chars@.skip(at as int);
        let ghost before = out@;
        let end: usize = line_end(&chars, at);
        let line = utils::text_of(
            utils::trim_behind(vstd::slice::slice_subrange(chars.as_slice(), at, end)),
        );
        out.append("# ");
        out.append(line.as_str());
        out.append("\n");
        let next: usize = if end < chars.len() {
            end + 1
        } else {
            end
        };
        proof {
            let l = first_line(rest);
            assert(l.len() == end - at);
            let more = if l.len() < rest.len() {
                rest.skip(l.len() as int + 1)
            } else {
                Seq::empty()
            };
            assert(more =~= chars@.skip(next as int));
            assert(out@ + commented(more) =~= before + ("# "@ + utils::trim_end(l) + "\n"@
                + commented(more)));
            if next == at {
                assert(end == chars@.len());
            }
        }
        at = next;
    }
    assert(chars@.skip(at as int) =~= Seq::empty());
    assert(out@ + Seq::<char>::empty() =~= out@);
    out
}

} // verus!
