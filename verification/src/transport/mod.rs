//! What the library knows of transports: their capabilities, the peers that they discover, and
//! the text and byte formats that they put on the air.

use vstd::prelude::*;

pub mod ble;
pub mod framing;
pub mod ipc;
pub mod mock;
pub mod peripheral;
pub mod tcp;

verus! {

/// What a transport can do.
#[derive(Debug)]
pub struct TransportCapabilities {
    pub max_peers: usize,
    pub throughput_bps: u64,
    pub latency_ms: u32,
    pub reliable: bool,
    pub bidirectional: bool,
}

impl Clone for TransportCapabilities {
    fn clone(&self) -> (c: Self)
        ensures
            c == *self,
    {
        TransportCapabilities {
            max_peers: self.max_peers,
            throughput_bps: self.throughput_bps,
            latency_ms: self.latency_ms,
            reliable: self.reliable,
            bidirectional: self.bidirectional,
        }
    }
}

/// A peer that a transport has seen.
#[derive(Debug, Clone)]
pub struct DiscoveredPeer {
    pub id: String,
    pub name: String,
    pub rssi: Option<i16>,
    pub metadata: Vec<u8>,
}

} // verus!
