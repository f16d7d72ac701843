//! The server of one match: what it does about everything that happens.

pub mod admission;
pub mod admitting;
pub mod common;
pub mod config;
pub mod context;
pub mod delivery;
pub mod endings;
pub mod event;
pub mod fetching;
pub mod laws;
pub mod order;
pub mod phases;
pub mod playing;
pub mod preparing;
pub mod reason;
pub mod relays;
pub mod rights;
pub mod settings;
pub mod setup;
pub mod snapshot;
pub mod stream;
pub mod timing;
pub mod watching;

pub use crate::relay::server_fsm::config::Config;
pub use crate::relay::server_fsm::context::Context;
pub use crate::relay::server_fsm::event::Effect;
pub use crate::relay::server_fsm::event::EffectView;
pub use crate::relay::server_fsm::event::Input;
pub use crate::relay::server_fsm::event::InputView;
pub use crate::relay::server_fsm::event::Phase;
pub use crate::relay::server_fsm::reason::DisconnectReason;
pub use crate::relay::server_fsm::settings::FrozenSettings;
pub use crate::relay::server_fsm::phases::AnyServer;
pub use crate::relay::server_fsm::phases::AwaitAiHost;
pub use crate::relay::server_fsm::phases::AwaitSavegame;
pub use crate::relay::server_fsm::phases::Idle;
pub use crate::relay::server_fsm::phases::InGame;
pub use crate::relay::server_fsm::phases::Loading;
pub use crate::relay::server_fsm::phases::MatchPhase;
pub use crate::relay::server_fsm::phases::PhaseMarker;
pub use crate::relay::server_fsm::phases::PostGame;
pub use crate::relay::server_fsm::phases::Server;
pub use crate::relay::server_fsm::phases::Setup;
pub use crate::relay::server_fsm::phases::SetupPhase;
