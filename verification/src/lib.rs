pub mod error;
pub mod messages;
pub mod order;
pub mod purchase_state;
pub mod stock;
pub mod store;
pub mod text;
pub mod store_actor;
pub mod framing;
pub mod log;
pub mod protocol;
pub mod command;
pub mod network;
pub mod client;
pub mod node_comm;
