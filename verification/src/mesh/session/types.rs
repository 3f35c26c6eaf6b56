//! The records of a session.

use std::time::Instant;

use vstd::prelude::*;

use crate::mesh::link::{LinkHealth, TransportKind};
use crate::protocol::types::MessageType;
use crate::strmap::StrMap;

verus! {

/// Whether a link carries the traffic or stands by.
#[derive(Debug, Clone, Copy, PartialEq, Eq, Structural)]
pub enum LinkRole {
    Active,
    Standby,
}

/// A snapshot of one link.
#[derive(Debug, Clone)]
pub struct LinkStatus {
    pub link_id: String,
    pub kind: TransportKind,
    pub role: LinkRole,
    pub health: LinkHealth,
}

/// Why the active link changed.
#[derive(Debug, Clone, Copy, PartialEq, Eq, Structural)]
pub enum SwitchCause {
    ActiveFailed,
    BetterCandidate,
    ManualUserRequest,
}

/// What a session tells its listeners.
#[derive(Debug, Clone)]
pub enum SessionEvent {
    LinkAdded { peer_id: String, link_id: String, kind: TransportKind },
    LinkRemoved { peer_id: String, link_id: String, reason: String },
    Switched { peer_id: String, from: String, to: String, cause: SwitchCause },
    StreamProgress { peer_id: String, stream_id: u16, pct: u8 },
}

impl SessionEvent {
    /// Whether this is `LinkAdded` with these contents.
    pub open spec fn is_added(self, peer: Seq<char>, link: Seq<char>, k: TransportKind) -> bool {
        self matches SessionEvent::LinkAdded { peer_id, link_id, kind } && peer_id@ == peer
            && link_id@ == link && kind == k
    }

    /// Whether this is `LinkRemoved` with these contents.
    pub open spec fn is_removed(self, peer: Seq<char>, link: Seq<char>, why: Seq<char>) -> bool {
        self matches SessionEvent::LinkRemoved { peer_id, link_id, reason } && peer_id@ == peer
            && link_id@ == link && reason@ == why
    }

    /// Whether this is `Switched` with these contents.
    pub open spec fn is_switched(
        self,
        peer: Seq<char>,
        was: Seq<char>,
        now: Seq<char>,
        why: SwitchCause,
    ) -> bool {
        self matches SessionEvent::Switched { peer_id, from, to, cause } && peer_id@ == peer
            && from@ == was && to@ == now && cause == why
    }
}

/// A sent frame that waits for its acknowledgement.
#[derive(Debug, Clone)]
pub struct PendingFrame {
    pub bytes: Vec<u8>,
    pub msg_type: MessageType,
}

/// How often in a row each link has been the better one.
#[derive(Debug)]
pub struct SchedulerState {
    pub better_streak: StrMap<u8>,
    pub tick: u32,
}

impl Default for SchedulerState {
    fn default() -> (s: Self)
        ensures
            s.better_streak.wf(),
            s.better_streak@ == Map::<Seq<char>, u8>::empty(),
            s.tick == 0,
    {
        SchedulerState { better_streak: StrMap::new(), tick: 0 }
    }
}

/// Received messages that have not been acknowledged yet.
#[derive(Debug)]
pub struct AckPending {
    /// How many messages were accepted since the last acknowledgement went out.
    pub count: u32,
    /// When the first of them arrived.
    pub first_pending_at: Option<Instant>,
}

impl Default for AckPending {
    fn default() -> (p: Self)
        ensures
            p.count == 0,
            p.first_pending_at is None,
    {
        AckPending { count: 0, first_pending_at: None }
    }
}

pub const MAX_LINKS_PER_PEER: usize = 4;

/// A better link must win this often, counted from when it last carried the traffic itself,
/// before the traffic moves to it.
pub const SWITCHBACK_HYSTERESIS: u8 = 3;

/// An acknowledgement waits no longer than this.
pub const ACK_MAX_DELAY_MS: u64 = 50;

/// An acknowledgement covers no more than this many messages.
pub const ACK_MAX_PENDING: usize = 8;

pub const EXPLICIT_OVERRIDE_TTL_SECS: u64 = 600;

/// An event tells what has happened to whom, in full.
pub proof fn events_tell_what_happened(
    e: SessionEvent,
    peer: Seq<char>,
    link: Seq<char>,
    other: Seq<char>,
    k: TransportKind,
    why: SwitchCause,
)
    ensures
        e.is_added(peer, link, k) <==> (e matches SessionEvent::LinkAdded {
            peer_id,
            link_id,
            kind,
        } && peer_id@ == peer && link_id@ == link && kind == k),
        e.is_removed(peer, link, other) <==> (e matches SessionEvent::LinkRemoved {
            peer_id,
            link_id,
            reason,
        } && peer_id@ == peer && link_id@ == link && reason@ == other),
        e.is_switched(peer, link, other, why) <==> (e matches SessionEvent::Switched {
            peer_id,
            from,
            to,
            cause,
        } && peer_id@ == peer && from@ == link && to@ == other && cause == why),
{
}

} // verus!
