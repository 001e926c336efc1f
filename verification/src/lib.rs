//! Routing and replication core of a publish/subscribe message broker.
//!
//! A broker node keeps a registry of subscribers, a table of open subscriber
//! connections, a queue of pending messages, a per-topic durability log and a
//! table of connections to its peers. Every operation here is a transition on
//! that state, from plain values to plain values: the caller performs the
//! network calls that a transition asks for and reports what came of them.

pub mod broker;
pub mod client;
pub mod leader_util;
pub mod result;
pub mod strings;
pub mod table;
pub mod transaction;
