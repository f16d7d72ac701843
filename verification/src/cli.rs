//! What the command line changes, and what is run in the end.

use vstd::prelude::*;

use crate::config::FileConfig;
use crate::lobby::manager::LobbyConfig;
use crate::lobby::manager::LobbyConfigView;
use crate::network_message::Ipv4Addr;

verus! {

/// What was typed. None of it has a default: one could not be told from what
/// was typed, and what was typed must win over the file while what was not
/// must not.
#[derive(Debug)]
pub struct Overrides {
    pub host: Option<Ipv4Addr>,
    pub port: Option<u16>,
    pub pyrogenesis_path: Option<String>,
    pub outcome_dir: Option<String>,
    pub checkpoint_interval_turns: Option<u32>,
    pub metrics_host: Option<String>,
    pub metrics_port: Option<u16>,
    pub save_dir: Option<String>,
}

/// What was typed, else what the file has.
pub open spec fn typed<A>(typed: Option<A>, file: A) -> A {
    match typed {
        Some(v) => v,
        None => file,
    }
}

impl Overrides {
    /// The file with everything that was typed in its place.
    pub open spec fn over(self, file: FileConfig, merged: FileConfig) -> bool {
        &&& merged.server.host == typed(self.host, file.server.host)
        &&& merged.server.port == typed(self.port, file.server.port)
        &&& merged.server.pyrogenesis_path == typed(
            self.pyrogenesis_path,
            file.server.pyrogenesis_path,
        )
        &&& merged.server.exit_after_game == file.server.exit_after_game
        &&& merged.saves.outcome_dir == typed(self.outcome_dir, file.saves.outcome_dir)
        &&& merged.saves.dir == typed(self.save_dir, file.saves.dir)
        &&& merged.saves.resume == file.saves.resume
        &&& merged.saves.keep_finished == file.saves.keep_finished
        &&& merged.saves.client_state_interval_secs == file.saves.client_state_interval_secs
        &&& merged.sidecar.checkpoint_interval_turns == typed(
            self.checkpoint_interval_turns,
            file.sidecar.checkpoint_interval_turns,
        )
        &&& merged.sidecar.max_runs == file.sidecar.max_runs
        &&& merged.sidecar.ai_state_interval_turns == file.sidecar.ai_state_interval_turns
        &&& merged.sidecar.ai_heal_attempts == file.sidecar.ai_heal_attempts
        &&& merged.sidecar.ai_heal_timeout_secs == file.sidecar.ai_heal_timeout_secs
        &&& merged.metrics.host == typed(self.metrics_host, file.metrics.host)
        &&& merged.metrics.port == typed(self.metrics_port, file.metrics.port)
        &&& merged.lobby == file.lobby
        &&& merged.game_match == file.game_match
        &&& merged.observers == file.observers
        &&& merged.pause == file.pause
        &&& merged.log == file.log
        &&& merged.limits == file.limits
        &&& merged.timeouts == file.timeouts
        &&& merged.advanced == file.advanced
    }

    /// Puts everything that was typed in its place.
    pub fn apply(self, file: FileConfig) -> (r: FileConfig)
        ensures
            self.over(file, r),
    {
        let mut config = file;
        if let Some(host) = self.host {
            config.server.host = host;
        }
        if let Some(port) = self.port {
            config.server.port = port;
        }
        if let Some(path) = self.pyrogenesis_path {
            config.server.pyrogenesis_path = path;
        }
        if let Some(path) = self.outcome_dir {
            config.saves.outcome_dir = path;
        }
        if let Some(turns) = self.checkpoint_interval_turns {
            config.sidecar.checkpoint_interval_turns = turns;
        }
        if let Some(host) = self.metrics_host {
            config.metrics.host = host;
        }
        if let Some(port) = self.metrics_port {
            config.metrics.port = port;
        }
        if let Some(path) = self.save_dir {
            config.saves.dir = path;
        }
        config
    }
}

/// What is run.
#[derive(Debug)]
pub struct RunMode {
    /// The file with everything that was typed in its place.
    pub config: FileConfig,
    /// Some selects pool-lobby mode.
    pub lobby: Option<LobbyConfig>,
}

/// What the command line asks for.
#[derive(Debug)]
pub enum Command {
    /// Write the default configuration to this path.
    GenConfig(String),
    Run(Box<RunMode>),
}

/// The lobby that is run: one that was named wins over the file's own table,
/// which is looked at only where it is switched on.
pub open spec fn lobby_choice(config: FileConfig, named: Option<LobbyConfigView>) -> Option<
    LobbyConfigView,
> {
    match named {
        Some(l) => Some(l),
        None => if config.lobby.enabled {
            Some(config.lobby.lobby_config())
        } else {
            None
        },
    }
}

/// Why nothing can be run: the merged configuration is looked at first, so a
/// flag cannot slip a value past it, then the lobby.
pub open spec fn run_fault(config: FileConfig, named: Option<LobbyConfigView>) -> Option<
    Seq<char>,
> {
    match config.fault() {
        Some(e) => Some(e),
        None => if named is None && config.lobby.enabled && config.lobby.fault() is Some {
            config.lobby.fault()
        } else {
            match lobby_choice(config, named) {
                Some(l) => l.fault(),
                None => None,
            }
        },
    }
}

/// What is run, of a merged configuration and a lobby that was named.
pub fn run_mode(config: FileConfig, named: Option<LobbyConfig>) -> (r: Result<RunMode, String>)
    ensures
        match r {
            Ok(mode) => {
                &&& run_fault(config, crate::utils::seen(named)) is None
                &&& mode.config == config
                &&& crate::utils::seen(mode.lobby) == lobby_choice(
                    config,
                    crate::utils::seen(named),
                )
            },
            Err(e) => run_fault(config, crate::utils::seen(named)) == Some(e@),
        },
{
    if let Err(error) = config.validate() {
        return Err(error);
    }
    let lobby = match named {
        Some(lobby) => Some(lobby),
        None => if config.lobby.enabled {
            match config.lobby.to_lobby_config() {
                Ok(lobby) => Some(lobby),
                Err(error) => return Err(error),
            }
        } else {
            None
        },
    };
    if let Some(lobby) = &lobby {
        if let Err(error) = lobby.validate() {
            return Err(error);
        }
    }
    Ok(RunMode { config, lobby })
}

} // verus!
