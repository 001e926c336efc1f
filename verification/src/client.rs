//! What a consumer of messages implements.

pub mod subscriber;
