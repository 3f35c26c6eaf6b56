//! The wire protocol: message types, frames, acknowledgements, sequence numbers, compression.

pub mod ack;
pub mod compress;
pub mod errors;
pub mod frame;
pub mod seq;
pub mod types;
pub mod wire;
