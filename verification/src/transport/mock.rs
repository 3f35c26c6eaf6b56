//! A transport for tests, which reaches nobody.

use vstd::prelude::*;

use crate::protocol::errors::MlinkError;
use crate::transport::{DiscoveredPeer, TransportCapabilities};

verus! {

pub struct MockTransport;

impl MockTransport {
    pub fn new() -> (t: Self)
        ensures
            t == MockTransport,
    {
        MockTransport
    }

    pub fn id(&self) -> (s: &'static str)
        ensures
            s@ == "mock"@,
    {
        "mock"
    }

    pub fn capabilities(&self) -> (c: TransportCapabilities)
        ensures
            c == (TransportCapabilities {
                max_peers: 100,
                throughput_bps: u64::MAX,
                latency_ms: 0,
                reliable: true,
                bidirectional: true,
            }),
    {
        TransportCapabilities {
            max_peers: 100,
            throughput_bps: u64::MAX,
            latency_ms: 0,
            reliable: true,
            bidirectional: true,
        }
    }

    /// There is nobody to be found.
    pub fn discover(&self) -> (r: Vec<DiscoveredPeer>)
        ensures
            r@.len() == 0,
    {
        Vec::new()
    }

    /// Nobody can be dialled; this is the reason.
    pub fn connect(&self) -> (e: MlinkError)
        ensures
            e matches MlinkError::HandlerError(m) && m@
                == "MockTransport::connect is unimplemented; use mock_pair() in tests"@,
    {
        MlinkError::HandlerError(
            "MockTransport::connect is unimplemented; use mock_pair() in tests".to_owned(),
        )
    }

    /// Nobody will call; this is the reason.
    pub fn listen(&self) -> (e: MlinkError)
        ensures
            e matches MlinkError::HandlerError(m) && m@
                == "MockTransport::listen is unimplemented; use mock_pair() in tests"@,
    {
        MlinkError::HandlerError(
            "MockTransport::listen is unimplemented; use mock_pair() in tests".to_owned(),
        )
    }

    pub fn mtu(&self) -> (n: usize)
        ensures
            n == 512,
    {
        512
    }
}

impl Default for MockTransport {
    fn default() -> (t: Self)
        ensures
            t == MockTransport,
    {
        MockTransport
    }
}

} // verus!
