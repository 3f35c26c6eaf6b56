//! Peers, links, sessions, rooms and the node that ties them together.

pub mod connection;
pub mod link;
pub mod node;
pub mod payload;
pub mod peer;
pub mod reconnect;
pub mod room;
pub mod scanner;
pub mod security;
pub mod session;
