//! Peers on the same machine, over a socket in the file system.

use vstd::prelude::*;

use crate::transport::{DiscoveredPeer, TransportCapabilities};

verus! {

pub const DEFAULT_SOCKET_PATH: &'static str = "/tmp/mlink.sock";

/// Where the socket is.
pub struct IpcTransport {
    socket_path: String,
}

impl IpcTransport {
    /// The path of the socket.
    pub closed spec fn path(&self) -> Seq<char> {
        self.socket_path@
    }

    pub fn new(socket_path: String) -> (t: Self)
        ensures
            t.path() == socket_path@,
    {
        IpcTransport { socket_path }
    }

    pub fn socket_path(&self) -> (s: &str)
        ensures
            s@ == self.path(),
    {
        self.socket_path.as_str()
    }

    pub fn id(&self) -> (s: &'static str)
        ensures
            s@ == "ipc"@,
    {
        "ipc"
    }

    pub fn capabilities(&self) -> (c: TransportCapabilities)
        ensures
            c == (TransportCapabilities {
                max_peers: 100,
                throughput_bps: u64::MAX,
                latency_ms: 0,
                reliable: true,
                bidirectional: true,
            }),
    {
        TransportCapabilities {
            max_peers: 100,
            throughput_bps: u64::MAX,
            latency_ms: 0,
            reliable: true,
            bidirectional: true,
        }
    }

    /// Who is found: whoever listens on the socket, if it exists.
    pub fn discover(&self, socket_exists: bool) -> (r: Vec<DiscoveredPeer>)
        ensures
            if socket_exists {
                r@.len() == 1 && r@[0].id@ == self.path() && r@[0].name@ == self.path()
                    && r@[0].rssi is None && r@[0].metadata@.len() == 0
            } else {
                r@.len() == 0
            },
    {
        let mut r: Vec<DiscoveredPeer> = Vec::new();
        if socket_exists {
            r.push(
                DiscoveredPeer {
                    id: self.socket_path.clone(),
                    name: self.socket_path.clone(),
                    rssi: None,
                    metadata: Vec::new(),
                },
            );
        }
        r
    }

    /// The socket to dial for a peer: its id, or this transport's own where it has none.
    pub fn connect(&self, peer: &DiscoveredPeer) -> (target: String)
        ensures
            target@ == if peer.id@.len() == 0 {
                self.path()
            } else {
                peer.id@
            },
    {
        if peer.id.as_str().unicode_len() == 0 {
            self.socket_path.clone()
        } else {
            peer.id.clone()
        }
    }

    /// The id of a peer that has connected from `path`; most have none.
    pub fn incoming_id(path: Option<String>) -> (id: String)
        ensures
            match path {
                Some(p) => id@ == p@,
                None => id@ == "ipc-peer"@,
            },
    {
        match path {
            Some(p) => p,
            None => "ipc-peer".to_owned(),
        }
    }

    pub fn mtu(&self) -> (n: usize)
        ensures
            n == usize::MAX,
    {
        usize::MAX
    }
}

impl Default for IpcTransport {
    fn default() -> (t: Self)
        ensures
            t.path() == DEFAULT_SOCKET_PATH@,
    {
        Self::new(DEFAULT_SOCKET_PATH.to_owned())
    }
}

} // verus!
