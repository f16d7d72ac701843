pub mod auth;
pub mod enet_task;
pub mod fault;
pub mod game_server;
pub mod gamestate_transfer;
pub mod ingress;
pub mod ledger;
pub mod messages;
pub mod monitor;
pub mod observer_feed;
pub mod password;
pub mod pause_budget;
pub mod rate_limit;
pub mod script_value;
pub mod server_fsm;
pub mod session;
pub mod slots;
pub mod turn;
