//! What applications use: messages, topics, calls and streams.

pub mod message;
pub mod pubsub;
pub mod rpc;
pub mod stream;
