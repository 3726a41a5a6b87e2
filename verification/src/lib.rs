//! Coordination logic for a ring of ice-cream robots: flavor tokens, order
//! dispatch, leader election and leader-state replication.

pub mod config;
pub mod connections;
pub mod errors;
pub mod flavor_id;
pub mod flavor_token;
pub mod ids;
pub mod inventory;
pub mod leader_backup;
pub mod leader_elector;
pub mod messages;
pub mod order;
pub mod order_info;
pub mod order_manager;
pub mod order_preparer;
pub mod order_text;
pub mod order_waiting;
pub mod random;
pub mod ring;
pub mod robot_connection_handler;
pub mod robot_leader;
pub mod robot_messages;
pub mod screen_error;
pub mod screen_messages;
pub mod text;
pub mod token_backup;
pub mod utils;
pub mod views;
