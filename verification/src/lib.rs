//! A relay server for 0 A.D. multiplayer games: the rules it plays by.
//!
//! Everything here works on plain values, so it can be proved; sockets,
//! clocks, files and the lobby connection belong to the program around it.

pub mod cli;
pub mod clock;
pub mod config;
pub mod game_pool;
pub mod hosting;
pub mod json;
pub mod lobby;
pub mod metrics;
pub mod network_message;
pub mod relay;
pub mod sidecar;
pub mod table;
pub mod utils;
