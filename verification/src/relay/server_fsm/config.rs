use vstd::prelude::*;

use crate::relay::auth::LateObserverPolicy;
use crate::relay::messages::items;
use crate::relay::messages::EnabledMod;
use crate::relay::messages::EnabledModView;
use crate::relay::observer_feed;
use crate::relay::pause_budget;
use crate::utils;

verus! {

/// The engine version every client must run.
pub const SIMULATION_VERSION: &'static str = "0.28.0";

/// Matches the transport's peer limit, so the socket rather than this cap is
/// what a client hits first. The last peer stays a spare: admission rejects on
/// reaching the cap, so a client arriving at a full server can still be told
/// that it is full.
pub const MAX_SESSIONS: usize = 200;

/// Turns between two pulls of the AI players' own state where nothing else is
/// said: two minutes of play at the default turn length.
pub const DEFAULT_AI_STATE_INTERVAL_TURNS: u32 = 600;

/// How a match is run. Every span is in milliseconds.
#[derive(Debug)]
pub struct Config {
    pub enabled_mods: Vec<EnabledMod>,
    pub lobby_mode: bool,
    pub turn_length_ms: u32,
    /// The stored hash, not a plaintext password. Empty means an open server,
    /// which is the only thing direct clients can join.
    pub server_password_hash: String,
    /// Empty means the first client to authenticate becomes controller,
    /// because that is the secret every stock client sends.
    pub controller_secret: String,
    pub allow_duplicate_names: bool,
    pub late_observer_policy: LateObserverPolicy,
    pub observer_limit: usize,
    /// None means an observer never blocks turn release.
    pub observer_lag_limit: Option<u32>,
    /// How many turns behind the players observers watch. 0 puts them on the
    /// live stream, where they may not pause.
    pub observer_delay_turns: u32,
    pub buddies: Vec<String>,
    pub max_sessions: usize,
    /// Losing the controller is permanent in the stock server, which strands
    /// the match with nobody able to start or configure it.
    pub release_controller_on_leave: bool,
    /// The name the relay speaks under. It occupies an observer row in the
    /// slot list, because that list is where a client looks a chat sender's
    /// name up. Displayed behind a reserved prefix that no client may
    /// authenticate with, so it cannot collide with a player.
    pub server_name: String,
    /// Empty greets an arriving client with nothing at all.
    pub welcome_message: String,
    /// How long a player may hold the match paused across the whole game.
    pub pause_budget: i64,
    /// What a pause costs however soon it is lifted.
    pub pause_min_charge: i64,
    /// When set, the match is held for a player who drops or goes silent,
    /// charged to that player's pause budget, so leaving is never a way around
    /// it.
    pub afk_pause: bool,
    /// How long the game may sit with nobody ever having joined, or with
    /// everybody gone, before it shuts itself down. None means never.
    pub idle_shutdown: Option<i64>,
    /// Who asked for the game, used as the listing's host until a controller
    /// with a name of its own is admitted.
    pub lobby_host_name: String,
    /// When set, a joiner no live client can serve gets its snapshot from a
    /// one-shot engine run instead of being dropped, and a match that ran is
    /// replayed for its outcome once it ends.
    pub sidecar_dumps: bool,
    /// When set, a match whose settings have AI slots gets an AI host that
    /// plays them, so no stock client has to compute the AI.
    pub hosted_ai: bool,
    /// How many released turns a match runs between two checkpoints. 0 turns
    /// them off; they also need sidecar_dumps.
    pub checkpoint_interval_turns: u32,
    /// How long a decided match keeps running for the players who stay.
    pub post_game_linger: i64,
    /// How long a snapshot's source may sit idle; None for any time.
    pub join_source_stall: Option<i64>,
    pub handshake_timeout: Option<i64>,
    pub max_pending_per_ip: usize,
    pub loading_timeout: Option<i64>,
    pub chat_per_sec: u32,
    pub chat_burst: u32,
    pub chat_max_chars: usize,
    pub flare_per_sec: u32,
    pub flare_burst: u32,
    pub commands_per_turn: u32,
    pub command_bytes_per_turn: usize,
    pub flood_kick_multiple: u32,
    pub join_burst: u32,
    /// None turns the limit off.
    pub join_interval: Option<i64>,
    pub auth_fail_burst: u32,
    pub auth_fail_burst_per_addr: u32,
    /// None turns the limit off.
    pub auth_fail_interval: Option<i64>,
    pub resume_wait: Option<i64>,
    pub resume_controller_grace: i64,
    pub client_state_interval_turns: u32,
    pub ai_state_interval_turns: u32,
    pub ai_heal_attempts: u32,
    pub ai_heal_timeout: Option<i64>,
}

impl Config {
    /// The stored hash is one the password check can take.
    pub open spec fn wf(self) -> bool {
        vstd::utf8::encode_utf8(self.server_password_hash@).len() <= 0xffff_ffff
    }

    /// How a match is run where nothing else is said.
    pub open spec fn is_default(self) -> bool {
        &&& items::views(self.enabled_mods@) == seq![
            EnabledModView { name: "0ad"@, version: SIMULATION_VERSION@ },
        ]
        &&& !self.lobby_mode
        &&& self.turn_length_ms == 200
        &&& self.server_password_hash@ == Seq::<char>::empty()
        &&& self.controller_secret@ == Seq::<char>::empty()
        &&& !self.allow_duplicate_names
        &&& self.late_observer_policy is Everyone
        &&& self.observer_limit == 8
        &&& self.observer_lag_limit is None
        &&& self.observer_delay_turns == observer_feed::DEFAULT_DELAY_TURNS
        &&& self.buddies@.len() == 0
        &&& self.max_sessions == MAX_SESSIONS
        &&& self.release_controller_on_leave
        &&& self.server_name@ == "SERVER"@
        &&& self.welcome_message@ == Seq::<char>::empty()
        &&& self.pause_budget == pause_budget::DEFAULT_BUDGET
        &&& self.pause_min_charge == 0
        &&& self.afk_pause
        &&& self.idle_shutdown is None
        &&& self.lobby_host_name@ == Seq::<char>::empty()
        &&& !self.sidecar_dumps
        &&& !self.hosted_ai
        &&& self.checkpoint_interval_turns == 0
        &&& self.post_game_linger == 300_000
        &&& self.limits_off()
    }

    /// No limit beyond the rules of the game is in force.
    pub open spec fn limits_off(self) -> bool {
        &&& self.join_source_stall is None
        &&& self.handshake_timeout is None
        &&& self.max_pending_per_ip == 0
        &&& self.loading_timeout is None
        &&& self.chat_per_sec == 0
        &&& self.chat_burst == 0
        &&& self.chat_max_chars == 0
        &&& self.flare_per_sec == 0
        &&& self.flare_burst == 0
        &&& self.commands_per_turn == 0
        &&& self.command_bytes_per_turn == 0
        &&& self.flood_kick_multiple == 0
        &&& self.join_burst == 0
        &&& self.join_interval is None
        &&& self.auth_fail_burst == 0
        &&& self.auth_fail_burst_per_addr == 0
        &&& self.auth_fail_interval is None
        &&& self.resume_wait is None
        &&& self.resume_controller_grace == 0
        &&& self.client_state_interval_turns == 0
        &&& self.ai_state_interval_turns == DEFAULT_AI_STATE_INTERVAL_TURNS
        &&& self.ai_heal_attempts == 0
        &&& self.ai_heal_timeout is None
    }
}

impl Default for Config {
    fn default() -> (r: Self)
        ensures
            r.is_default(),
            r.wf(),
    {
        let mut enabled_mods: Vec<EnabledMod> = Vec::new();
        enabled_mods.push(
            EnabledMod {
                name: utils::copy_text("0ad"),
                version: utils::copy_text(SIMULATION_VERSION),
            },
        );
        proof {
            reveal_strlit("");
            assert(""@ =~= Seq::empty());
            assert(items::views(enabled_mods@) =~= seq![
                EnabledModView { name: "0ad"@, version: SIMULATION_VERSION@ },
            ]);
            assert(vstd::utf8::encode_utf8(Seq::<char>::empty()).len() == 0);
        }
        Config {
            enabled_mods,
            lobby_mode: false,
            turn_length_ms: 200,
            server_password_hash: utils::copy_text(""),
            controller_secret: utils::copy_text(""),
            allow_duplicate_names: false,
            late_observer_policy: LateObserverPolicy::default(),
            observer_limit: 8,
            observer_lag_limit: None,
            observer_delay_turns: observer_feed::DEFAULT_DELAY_TURNS,
            buddies: Vec::new(),
            max_sessions: MAX_SESSIONS,
            release_controller_on_leave: true,
            server_name: utils::copy_text("SERVER"),
            welcome_message: utils::copy_text(""),
            pause_budget: pause_budget::DEFAULT_BUDGET,
            pause_min_charge: 0,
            afk_pause: true,
            idle_shutdown: None,
            lobby_host_name: utils::copy_text(""),
            sidecar_dumps: false,
            hosted_ai: false,
            checkpoint_interval_turns: 0,
            post_game_linger: 300_000,
            join_source_stall: None,
            handshake_timeout: None,
            max_pending_per_ip: 0,
            loading_timeout: None,
            chat_per_sec: 0,
            chat_burst: 0,
            chat_max_chars: 0,
            flare_per_sec: 0,
            flare_burst: 0,
            commands_per_turn: 0,
            command_bytes_per_turn: 0,
            flood_kick_multiple: 0,
            join_burst: 0,
            join_interval: None,
            auth_fail_burst: 0,
            auth_fail_burst_per_addr: 0,
            auth_fail_interval: None,
            resume_wait: None,
            resume_controller_grace: 0,
            client_state_interval_turns: 0,
            ai_state_interval_turns: DEFAULT_AI_STATE_INTERVAL_TURNS,
            ai_heal_attempts: 0,
            ai_heal_timeout: None,
        }
    }
}

} // verus!
