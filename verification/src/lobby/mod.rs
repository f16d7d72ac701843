//! The public lobby: what an account lists there, whom it answers and what it
//! passes on.

pub mod account;
pub mod auth;
pub mod connection_data;
pub mod game_report;
pub mod gamelist;
pub mod link;
pub mod manager;
pub mod rating;
pub mod sasl;
pub mod terms;

pub use crate::lobby::manager::LobbyConfig;
pub use crate::lobby::manager::LobbyEvent;
pub use crate::lobby::manager::LobbyManager;
pub use crate::lobby::manager::PersonalLobby;
pub use crate::lobby::manager::XmppCredentials;
