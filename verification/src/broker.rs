//! The state of one broker node and the operations on it.

pub mod guarantees;
pub mod log_store;
pub mod manager;
pub mod rpc_processor;
pub mod subscriber_map;
