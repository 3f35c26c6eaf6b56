//! The records of a node.

use std::path::PathBuf;
use std::time::Instant;

use vstd::prelude::*;

use crate::mesh::link::TransportKind;
use crate::mesh::reconnect::{fresh_policy, PolicyView, ReconnectPolicy};

verus! {

/// How often a peer is to hear from this node, in seconds.
pub const HEARTBEAT_INTERVAL: u64 = 15;

/// A peer that was not heard from for this long is gone, in seconds.
pub const HEARTBEAT_TIMEOUT: u64 = 45;

#[derive(Debug, Clone, Copy, PartialEq, Eq, Structural)]
pub enum NodeState {
    Idle,
    Discovering,
    Discovered,
    Connecting,
    Connected,
    Streaming,
    Disconnected,
    Reconnecting,
}

/// The name of a state, as `Debug` writes it.
pub open spec fn state_name(s: NodeState) -> Seq<char> {
    match s {
        NodeState::Idle => "Idle"@,
        NodeState::Discovering => "Discovering"@,
        NodeState::Discovered => "Discovered"@,
        NodeState::Connecting => "Connecting"@,
        NodeState::Connected => "Connected"@,
        NodeState::Streaming => "Streaming"@,
        NodeState::Disconnected => "Disconnected"@,
        NodeState::Reconnecting => "Reconnecting"@,
    }
}

impl NodeState {
    /// The name of this state, as `Debug` writes it.
    pub fn name(self) -> (s: &'static str)
        ensures
            s@ == state_name(self),
    {
        match self {
            NodeState::Idle => "Idle",
            NodeState::Discovering => "Discovering",
            NodeState::Discovered => "Discovered",
            NodeState::Connecting => "Connecting",
            NodeState::Connected => "Connected",
            NodeState::Streaming => "Streaming",
            NodeState::Disconnected => "Disconnected",
            NodeState::Reconnecting => "Reconnecting",
        }
    }
}

/// A clone of a path is the same path.
pub assume_specification[ <std::path::PathBuf as Clone>::clone ](p: &std::path::PathBuf) -> (r:
    std::path::PathBuf)
    ensures
        r == *p,
;

/// How a node is set up.
#[derive(Debug)]
pub struct NodeConfig {
    pub name: String,
    pub encrypt: bool,
    pub trust_store_path: Option<PathBuf>,
}

impl Clone for NodeConfig {
    fn clone(&self) -> (c: Self)
        ensures
            c.name@ == self.name@,
            c.encrypt == self.encrypt,
            c.trust_store_path == self.trust_store_path,
    {
        NodeConfig {
            name: self.name.clone(),
            encrypt: self.encrypt,
            trust_store_path: match &self.trust_store_path {
                Some(p) => Some(p.clone()),
                None => None,
            },
        }
    }
}

impl Default for NodeConfig {
    fn default() -> (c: Self)
        ensures
            c.name@.len() == 0,
            !c.encrypt,
            c.trust_store_path is None,
    {
        NodeConfig { name: String::new(), encrypt: false, trust_store_path: None }
    }
}

/// Where the dealings with a peer stand.
pub struct PeerState {
    pub state: NodeState,
    pub reconnect_policy: ReconnectPolicy,
    pub seq: u16,
    pub last_heartbeat: Option<Instant>,
    pub aes_key: Option<Vec<u8>>,
}

/// What the state of a peer is, as far as decisions depend on it.
pub struct PeerStateView {
    pub state: NodeState,
    pub policy: PolicyView,
    /// The sequence number of the next frame.
    pub seq: u16,
    pub last_heartbeat: Option<Instant>,
    pub key: Option<Seq<u8>>,
}

/// The view of an optional key.
pub open spec fn stored_key(key: Option<Vec<u8>>) -> Option<Seq<u8>> {
    match key {
        Some(k) => Some(k@),
        None => None,
    }
}

/// The state of a peer that was first heard of at `at`.
pub open spec fn new_peer_state(at: Instant) -> PeerStateView {
    PeerStateView {
        state: NodeState::Connecting,
        policy: fresh_policy(at),
        seq: 0,
        last_heartbeat: None,
        key: None,
    }
}

impl View for PeerState {
    type V = PeerStateView;

    open spec fn view(&self) -> PeerStateView {
        PeerStateView {
            state: self.state,
            policy: self.reconnect_policy@,
            seq: self.seq,
            last_heartbeat: self.last_heartbeat,
            key: stored_key(self.aes_key),
        }
    }
}

/// The sequence number after `seq`; the numbers wrap at 2^16.
pub open spec fn seq_after(seq: u16) -> u16 {
    if seq == u16::MAX {
        0
    } else {
        (seq + 1) as u16
    }
}

impl PeerState {
    pub(crate) fn new_at(at: Instant) -> (s: Self)
        ensures
            s@ == new_peer_state(at),
    {
        PeerState {
            state: NodeState::Connecting,
            reconnect_policy: ReconnectPolicy::new_at(at),
            seq: 0,
            last_heartbeat: None,
            aes_key: None,
        }
    }

    /// Hands out a sequence number.
    pub(crate) fn next_seq(&mut self) -> (s: u16)
        ensures
            s == old(self).seq,
            final(self)@ == (PeerStateView { seq: seq_after(old(self).seq), ..old(self)@ }),
    {
        let s: u16 = self.seq;
        self.seq = self.seq.wrapping_add(1);
        s
    }
}

/// What a node tells its listeners.
#[derive(Debug, Clone)]
pub enum NodeEvent {
    PeerDiscovered { peer_id: String },
    PeerConnected { peer_id: String },
    PeerDisconnected { peer_id: String },
    PeerLost { peer_id: String },
    Reconnecting { peer_id: String, attempt: u32 },
    /// A message arrived; the payload is decrypted and decompressed.
    MessageReceived { peer_id: String, payload: Vec<u8> },
    /// A peer got another link.
    LinkAdded { peer_id: String, link_id: String, transport: TransportKind },
}

/// What an event says.
pub enum NodeEventView {
    PeerDiscovered { peer_id: Seq<char> },
    PeerConnected { peer_id: Seq<char> },
    PeerDisconnected { peer_id: Seq<char> },
    PeerLost { peer_id: Seq<char> },
    Reconnecting { peer_id: Seq<char>, attempt: u32 },
    MessageReceived { peer_id: Seq<char>, payload: Seq<u8> },
    LinkAdded { peer_id: Seq<char>, link_id: Seq<char>, transport: TransportKind },
}

impl View for NodeEvent {
    type V = NodeEventView;

    open spec fn view(&self) -> NodeEventView {
        match self {
            NodeEvent::PeerDiscovered { peer_id } => NodeEventView::PeerDiscovered {
                peer_id: peer_id@,
            },
            NodeEvent::PeerConnected { peer_id } => NodeEventView::PeerConnected {
                peer_id: peer_id@,
            },
            NodeEvent::PeerDisconnected { peer_id } => NodeEventView::PeerDisconnected {
                peer_id: peer_id@,
            },
            NodeEvent::PeerLost { peer_id } => NodeEventView::PeerLost { peer_id: peer_id@ },
            NodeEvent::Reconnecting { peer_id, attempt } => NodeEventView::Reconnecting {
                peer_id: peer_id@,
                attempt: *attempt,
            },
            NodeEvent::MessageReceived { peer_id, payload } => NodeEventView::MessageReceived {
                peer_id: peer_id@,
                payload: payload@,
            },
            NodeEvent::LinkAdded { peer_id, link_id, transport } => NodeEventView::LinkAdded {
                peer_id: peer_id@,
                link_id: link_id@,
                transport: *transport,
            },
        }
    }
}

/// What a list of events says.
pub open spec fn event_views(events: Seq<NodeEvent>) -> Seq<NodeEventView> {
    Seq::new(events.len(), |i: int| events[i]@)
}

/// The numbers of a peer's frames follow one another, and start again after the last one.
pub proof fn frame_numbers_follow_one_another(seq: u16)
    ensures
        seq_after(seq) == (seq + 1) % 0x1_0000,
{
}

/// What the states of a node are called.
pub proof fn names_of_the_states()
    ensures
        state_name(NodeState::Idle) == "Idle"@,
        state_name(NodeState::Discovering) == "Discovering"@,
        state_name(NodeState::Discovered) == "Discovered"@,
        state_name(NodeState::Connecting) == "Connecting"@,
        state_name(NodeState::Connected) == "Connected"@,
        state_name(NodeState::Streaming) == "Streaming"@,
        state_name(NodeState::Disconnected) == "Disconnected"@,
        state_name(NodeState::Reconnecting) == "Reconnecting"@,
{
}

} // verus!
