//! How a peer is dialled or let in, and how its links are kept.

use std::sync::Arc;
use std::time::Instant;

use vstd::prelude::*;

use crate::clock::now;
use crate::mesh::connection::{first_chars, first_chars_of};
use crate::mesh::link::{
    kind_name, kind_of_wire, names_of_the_kinds, new_link, transport_kind_round_trip, wire_name,
    Link, LinkView, TransportKind,
};
use crate::mesh::node::lifecycle::{
    held_link, noting_changes_one_peer, state_connected, state_set, without_peer,
};
use crate::mesh::node::rooms::{every_own_room_admits, room_admits};
use crate::mesh::node::types::{event_views, NodeEvent, NodeEventView, NodeState};
use crate::mesh::node::{held_sound, id_tells_kind, ids_tell_kinds, Node, NodeView};
use crate::mesh::peer::{Peer, PeerView};
use crate::mesh::session::io::{lemma_link_at_place, lemma_link_place, link_place};
use crate::mesh::session::manager::{
    all_within_limits, attach_event, attach_outcome, attached, attaching_is_local,
    detaching_keeps_limits,
    first_link_opens_a_session, has_kind, link_of_a_new_kind_joins, AttachOutcome,
};
use crate::mesh::session::types::{SessionEvent, MAX_LINKS_PER_PEER};
use crate::mesh::session::{within_limits, SessionView};
use crate::protocol::errors::{MlinkError, Result};
use crate::protocol::types::{Handshake, PROTOCOL_VERSION};
use crate::protocol::wire::read_be;
use crate::random::random_bytes;
use crate::text::{lower_hex, push_lower_hex};
use crate::transport::{DiscoveredPeer, TransportCapabilities};

verus! {

/// A text without the hyphens at its end.
pub open spec fn without_end_hyphens(t: Seq<char>) -> Seq<char>
    decreases t.len(),
{
    if t.len() > 0 && t.last() == '-' {
        without_end_hyphens(t.drop_last())
    } else {
        t
    }
}

/// The id of a link: its kind, the start of the peer's id, and a nonce.
pub open spec fn link_id_of(kind: TransportKind, peer: Seq<char>, nonce: u32) -> Seq<char> {
    wire_name(kind) + ":"@ + without_end_hyphens(first_chars(peer, 8)) + ":"@ + lower_hex(
        nonce as nat,
        8,
    )
}

/// [`make_link_id`], with this nonce.
pub fn make_link_id_with(kind: TransportKind, peer_id: &str, nonce: u32) -> (s: String)
    ensures
        s@ == link_id_of(kind, peer_id@, nonce),
{
    let short = first_chars_of(peer_id, 8);
    let mut n: usize = short.unicode_len();
    assert(short@.subrange(0, n as int) =~= short@);
    while n > 0 && short.get_char(n - 1) == '-'
        invariant
            n <= short@.len(),
            without_end_hyphens(short@) == without_end_hyphens(short@.subrange(0, n as int)),
        decreases n,
    {
        assert(short@.subrange(0, n as int).drop_last() =~= short@.subrange(0, n - 1));
        n = n - 1;
    }
    let mut s = kind.as_wire().to_owned();
    s.append(":");
    s.append(short.substring_char(0, n));
    s.append(":");
    push_lower_hex(&mut s, nonce, 8);
    s
}

/// A new link id. The nonce is random, so that two links made at the same moment differ.
pub fn make_link_id(kind: TransportKind, peer_id: &str) -> (s: String)
    ensures
        exists|nonce: u32| s@ == #[trigger] link_id_of(kind, peer_id@, nonce),
{
    let nonce: u32 = random_nonce();
    make_link_id_with(kind, peer_id, nonce)
}

fn random_nonce() -> u32 {
    let bytes: [u8; 4] = random_bytes();
    proof {
        crate::protocol::wire::lemma_byte_ranges();
    }
    read_be(&bytes, 0, 4) as u32
}

/// What a transport of this kind can do, where it does not say so itself.
pub open spec fn default_caps(kind: TransportKind) -> TransportCapabilities {
    match kind {
        TransportKind::Ble => TransportCapabilities {
            max_peers: 4,
            throughput_bps: 200_000,
            latency_ms: 20,
            reliable: true,
            bidirectional: true,
        },
        TransportKind::Tcp => TransportCapabilities {
            max_peers: 64,
            throughput_bps: 10_000_000,
            latency_ms: 5,
            reliable: true,
            bidirectional: true,
        },
        TransportKind::Ipc => TransportCapabilities {
            max_peers: 16,
            throughput_bps: 100_000_000,
            latency_ms: 1,
            reliable: true,
            bidirectional: true,
        },
        TransportKind::Mock => TransportCapabilities {
            max_peers: 1,
            throughput_bps: 1_000_000,
            latency_ms: 1,
            reliable: true,
            bidirectional: true,
        },
    }
}

/// What a transport of this kind can do, where it does not say so itself.
pub fn default_caps_for_kind(kind: TransportKind) -> (c: TransportCapabilities)
    ensures
        c == default_caps(kind),
{
    let (max_peers, throughput_bps, latency_ms): (usize, u64, u32) = match kind {
        TransportKind::Ble => (4, 200_000, 20),
        TransportKind::Tcp => (64, 10_000_000, 5),
        TransportKind::Ipc => (16, 100_000_000, 1),
        TransportKind::Mock => (1, 1_000_000, 1),
    };
    TransportCapabilities {
        max_peers,
        throughput_bps,
        latency_ms,
        reliable: true,
        bidirectional: true,
    }
}

/// The kind that a transport's name stands for; an unknown name counts as a mock.
pub open spec fn kind_or_mock(transport_id: Seq<char>) -> TransportKind {
    match kind_of_wire(transport_id) {
        Some(k) => k,
        None => TransportKind::Mock,
    }
}

fn kind_or_mock_of(transport_id: &str) -> (k: TransportKind)
    ensures
        k == kind_or_mock(transport_id@),
{
    match TransportKind::from_wire(transport_id) {
        Some(k) => k,
        None => TransportKind::Mock,
    }
}

/// What the transport of this name can do, where it does not say so itself.
pub fn default_caps_for_wire(wire: &str) -> (c: TransportCapabilities)
    ensures
        c == default_caps(kind_or_mock(wire@)),
{
    default_caps_for_kind(kind_or_mock_of(wire))
}

/// What a transport says of itself.
pub struct TransportInfo {
    pub id: String,
    pub mtu: usize,
    pub capabilities: TransportCapabilities,
}

/// The largest packet that an accepting node names in its handshake.
pub const ACCEPT_MTU: u16 = 512;

/// What came of a connection.
pub struct Registration<C: ?Sized> {
    /// The id of the peer, or what went wrong.
    pub result: Result<String>,
    /// The connection, if it is to be closed.
    pub close: Option<Arc<C>>,
    pub events: Vec<NodeEvent>,
    pub session_event: Option<SessionEvent>,
}

impl<C: ?Sized> Registration<C> {
    /// Nothing is told to anybody.
    pub open spec fn silent(self) -> bool {
        self.events@.len() == 0 && self.session_event is None
    }
}

/// What the node waits for when it dials a peer.
pub enum ConnectEvent<C: ?Sized> {
    /// The peer is to be dialled.
    Start,
    /// The transport has dialled it.
    Dialed(Result<Arc<C>>),
    /// Handshakes were exchanged over the connection.
    Greeted(Arc<C>, Result<Handshake>),
}

/// What the node waits for when a peer dials it.
pub enum AcceptEvent<C: ?Sized> {
    /// A peer has connected.
    Incoming(Arc<C>),
    /// Handshakes were exchanged over the connection.
    Greeted(Arc<C>, Result<Handshake>),
}

/// What is to be done next for a connection.
pub enum ConnectAction<C: ?Sized> {
    /// Have the transport dial the peer.
    Dial,
    /// Exchange handshakes; this is the node's own.
    Greet(Arc<C>, Handshake),
    /// Nothing more; this came of it.
    Done(Registration<C>),
}

/// Whether `h` is the handshake of a node: it speaks the truth on what the node can do, promises
/// no encryption while there is no key, and claims one of the node's rooms.
pub open spec fn own_handshake<C: ?Sized>(h: Handshake, n: NodeView<C>, mtu: u16) -> bool {
    &&& h.app_uuid@ == n.app_uuid
    &&& h.version == PROTOCOL_VERSION
    &&& h.mtu == mtu
    &&& h.compress
    &&& !h.encrypt
    &&& h.last_seq == 0
    &&& h.resume_streams@.len() == 0
    &&& match h.room_hash {
        Some(room) => n.rooms.contains(room),
        None => n.rooms == Set::<[u8; 8]>::empty(),
    }
    &&& h.session_id is None
    &&& h.session_last_seq == 0
}

/// Whether a connection is one too many: the peer is connected already, and the new connection
/// is no further link of its session.
pub open spec fn is_duplicate<C: ?Sized>(
    n: NodeView<C>,
    peer: Seq<char>,
    outcome: AttachOutcome,
) -> bool {
    if n.sessions.dom().contains(peer) {
        !(outcome is AttachedExisting)
    } else {
        n.conns.dom().contains(peer) || !(outcome is CreatedNew)
    }
}

/// The node after a peer was connected at `at`.
pub open spec fn with_peer<C: ?Sized>(
    n: NodeView<C>,
    peer: PeerView,
    link: LinkView<C>,
    outcome: AttachOutcome,
    at: Instant,
) -> NodeView<C> {
    NodeView {
        peers: n.peers.insert(peer.id, peer),
        states: state_connected(n.states, peer.id, at),
        conns: n.conns.insert(peer.id, link.conn),
        held: n.held.insert(peer.id, link.id),
        sessions: attached(n.sessions, peer.id, link, outcome),
        state: NodeState::Connected,
        ..n
    }
}

/// What the handshake of a peer, with the connection that it came over, is to a node.
pub struct Arrival<C: ?Sized> {
    pub handshake: Handshake,
    pub conn: Arc<C>,
    /// The name under which the peer is listed.
    pub name: String,
    /// The transport that it came over, and what that can do.
    pub transport_id: String,
    pub capabilities: TransportCapabilities,
    /// The id of the peer on the wire.
    pub wire_id: String,
}

impl<C: ?Sized> Arrival<C> {
    /// The link that the connection becomes at `at`.
    pub open spec fn link(self, nonce: u32, at: Instant) -> LinkView<C> {
        let kind = kind_or_mock(self.transport_id@);
        let id = link_id_of(kind, self.handshake.app_uuid@, nonce);
        new_link(id, self.conn, kind, self.capabilities, at)
    }

    /// The peer's record.
    pub open spec fn peer(self, at: Instant) -> PeerView {
        PeerView {
            id: self.handshake.app_uuid@,
            name: self.name@,
            app_uuid: self.handshake.app_uuid@,
            connected_at: at,
            transport_id: self.transport_id@,
        }
    }

    /// What attaching the link comes to, where a new session would get the id `fresh`.
    pub open spec fn outcome(self, n: NodeView<C>, fresh: [u8; 16]) -> AttachOutcome {
        attach_outcome(
            n.sessions,
            self.handshake.app_uuid@,
            kind_or_mock(self.transport_id@),
            self.handshake.session_id,
            fresh,
        )
    }
}

/// What a node makes of a peer that has greeted it. A peer from another room is refused; a
/// duplicate connection is dropped, and what is there stays; otherwise the connection becomes
/// the peer's, and a link of its session. A connection that is not kept is to be closed.
pub open spec fn registered<C: ?Sized>(
    before: NodeView<C>,
    after: NodeView<C>,
    a: Arrival<C>,
    nonce: u32,
    fresh: [u8; 16],
    at: Instant,
    r: Registration<C>,
) -> bool {
    let peer = a.handshake.app_uuid@;
    let outcome = a.outcome(before, fresh);
    let link = a.link(nonce, at);
    if !room_admits(before.rooms, a.handshake.room_hash) {
        &&& after == before
        &&& r.result matches Err(MlinkError::RoomMismatch { peer_id }) && peer_id@ == a.wire_id@
        &&& r.close == Some(a.conn)
        &&& r.silent()
    } else if is_duplicate(before, peer, outcome) {
        &&& after == before
        &&& r.result matches Ok(id) && id@ == peer
        &&& r.close == Some(a.conn)
        &&& r.silent()
    } else {
        &&& after == with_peer(before, a.peer(at), link, outcome, at)
        &&& r.result matches Ok(id) && id@ == peer
        &&& r.close is None
        &&& event_views(r.events@) == seq![
            NodeEventView::LinkAdded { peer_id: peer, link_id: link.id, transport: link.kind },
        ] + (if before.sessions.dom().contains(peer) {
            Seq::empty()
        } else {
            seq![NodeEventView::PeerConnected { peer_id: peer }]
        })
        &&& attach_event(r.session_event, peer, link, outcome)
    }
}

/// What a node makes of a connection that came to nothing.
pub open spec fn gave_up<C: ?Sized>(
    r: Registration<C>,
    e: MlinkError,
    close: Option<Arc<C>>,
) -> bool {
    &&& r.result == Err::<String, MlinkError>(e)
    &&& r.close == close
    &&& r.silent()
}

/// Whether `after` and `next` are what follows when a node dials a peer.
pub open spec fn connect_step<C: ?Sized>(
    before: NodeView<C>,
    after: NodeView<C>,
    event: ConnectEvent<C>,
    discovered: DiscoveredPeer,
    transport: TransportInfo,
    nonce: u32,
    fresh: [u8; 16],
    at: Instant,
    next: ConnectAction<C>,
) -> bool {
    match event {
        ConnectEvent::Start => {
            &&& after == (NodeView {
                states: state_set(before.states, discovered.id@, NodeState::Connecting, at),
                ..before
            })
            &&& next is Dial
        },
        ConnectEvent::Dialed(Err(e)) => {
            &&& after == before
            &&& next matches ConnectAction::Done(r) && gave_up(r, e, None)
        },
        ConnectEvent::Dialed(Ok(conn)) => {
            &&& after == before
            &&& next matches ConnectAction::Greet(c, h) && c == conn && own_handshake(
                h,
                before,
                (transport.mtu % 0x1_0000) as u16,
            )
        },
        ConnectEvent::Greeted(conn, Err(e)) => {
            &&& after == before
            &&& next matches ConnectAction::Done(r) && gave_up(r, e, Some(conn))
        },
        ConnectEvent::Greeted(conn, Ok(handshake)) => next matches ConnectAction::Done(r)
            && exists|a: Arrival<C>|
            {
                &&& a.handshake == handshake
                &&& a.conn == conn
                &&& a.name@ == discovered.name@
                &&& a.transport_id@ == transport.id@
                &&& a.capabilities == transport.capabilities
                &&& a.wire_id@ == discovered.id@
                &&& #[trigger] registered(before, after, a, nonce, fresh, at, r)
            },
    }
}

/// Whether `after` and `next` are what follows when a peer dials a node.
pub open spec fn accept_step<C: ?Sized>(
    before: NodeView<C>,
    after: NodeView<C>,
    event: AcceptEvent<C>,
    wire_id: Seq<char>,
    transport_id: Seq<char>,
    fallback_name: Seq<char>,
    nonce: u32,
    fresh: [u8; 16],
    at: Instant,
    next: ConnectAction<C>,
) -> bool {
    match event {
        AcceptEvent::Incoming(conn) => {
            &&& after == before
            &&& next matches ConnectAction::Greet(c, h) && c == conn && own_handshake(
                h,
                before,
                ACCEPT_MTU,
            )
        },
        AcceptEvent::Greeted(conn, Err(e)) => {
            &&& after == before
            &&& next matches ConnectAction::Done(r) && gave_up(r, e, Some(conn))
        },
        AcceptEvent::Greeted(conn, Ok(handshake)) => next matches ConnectAction::Done(r)
            && exists|a: Arrival<C>|
            {
                &&& a.handshake == handshake
                &&& a.conn == conn
                &&& a.name@ == fallback_name
                &&& a.transport_id@ == transport_id
                &&& a.capabilities == default_caps(kind_or_mock(transport_id))
                &&& a.wire_id@ == wire_id
                &&& #[trigger] registered(before, after, a, nonce, fresh, at, r)
            },
    }
}

/// What a further link comes to: the link itself, or why there is none.
pub open spec fn secondary_fault<C: ?Sized>(
    n: NodeView<C>,
    peer: Seq<char>,
    kind: TransportKind,
) -> Option<Seq<char>> {
    if !n.sessions.dom().contains(peer) {
        Some("no session for peer "@ + peer + "; cannot attach secondary"@)
    } else if n.sessions[peer].links.len() >= MAX_LINKS_PER_PEER {
        Some("peer "@ + peer + " reached MAX_LINKS_PER_PEER"@)
    } else if has_kind(n.sessions[peer].links, kind) {
        Some("peer "@ + peer + " already has a "@ + kind_name(kind) + " link"@)
    } else {
        None
    }
}

/// A link that was attached to a peer's session.
pub struct SecondaryLink {
    pub link_id: String,
    pub event: NodeEvent,
    pub session_event: SessionEvent,
}

/// Whether `after` and `r` are what attaching a further link comes to.
pub open spec fn secondary_attached<C: ?Sized>(
    before: NodeView<C>,
    after: NodeView<C>,
    peer: Seq<char>,
    conn: Arc<C>,
    kind: TransportKind,
    nonce: u32,
    at: Instant,
    r: Result<SecondaryLink>,
) -> bool {
    match secondary_fault(before, peer, kind) {
        Some(why) => {
            &&& after == before
            &&& r matches Err(MlinkError::HandlerError(m)) && m@ == why
        },
        None => {
            let id = link_id_of(kind, peer, nonce);
            let link = new_link(id, conn, kind, default_caps(kind), at);
            &&& after == (NodeView {
                sessions: attached(before.sessions, peer, link, AttachOutcome::AttachedExisting),
                ..before
            })
            &&& r matches Ok(s) && s.link_id@ == link.id && s.event@ == (NodeEventView::LinkAdded {
                peer_id: peer,
                link_id: link.id,
                transport: kind,
            }) && s.session_event.is_added(peer, link.id, kind)
        },
    }
}

impl<C: ?Sized> Node<C> {
    /// The handshake that this node sends.
    pub fn local_handshake(&self, mtu: u16) -> (h: Handshake)
        requires
            self.wf(),
        ensures
            own_handshake(h, self@, mtu),
    {
        Handshake {
            app_uuid: self.app_uuid.clone(),
            version: PROTOCOL_VERSION,
            mtu,
            compress: true,
            encrypt: false,
            last_seq: 0,
            resume_streams: Vec::new(),
            room_hash: self.wire_room_hash(),
            session_id: None,
            session_last_seq: 0,
        }
    }

    /// Registers a peer that has greeted this node, with this nonce for the link, this id for a
    /// new session, at `at`.
    pub fn register_after_handshake_as(
        &mut self,
        a: Arrival<C>,
        nonce: u32,
        fresh: [u8; 16],
        at: Instant,
    ) -> (r: Registration<C>)
        requires
            old(self).wf(),
        ensures
            final(self).wf(),
            registered(old(self)@, final(self)@, a, nonce, fresh, at, r),
    {
        let ghost before = self@;
        if let Err(e) = self.check_room(&a.handshake, a.wire_id.as_str()) {
            return Registration {
                result: Err(e),
                close: Some(a.conn),
                events: Vec::new(),
                session_event: None,
            };
        }
        let peer_id: String = a.handshake.app_uuid.clone();
        let kind = kind_or_mock_of(a.transport_id.as_str());
        let is_first_link = !self.connections.session_manager().contains(peer_id.as_str());
        if is_first_link && self.connections.contains(peer_id.as_str()) {
            return Registration {
                result: Ok(peer_id),
                close: Some(a.conn),
                events: Vec::new(),
                session_event: None,
            };
        }
        let link_id = make_link_id_with(kind, peer_id.as_str(), nonce);
        let link = Link::new_at(link_id.clone(), a.conn.clone(), kind, a.capabilities, at);
        let ghost shown = link@;
        let (outcome, session_event) = self.connections.session_manager_mut().attach_link_as(
            peer_id.as_str(),
            link,
            a.handshake.session_id,
            fresh,
        );
        proof {
            lemma_id_start(kind, peer_id@, nonce);
            if outcome is CreatedNew || outcome is AttachedExisting {
                lemma_link_taken(before, peer_id@, shown, outcome);
            }
        }
        let kept = match outcome {
            AttachOutcome::CreatedNew { .. } => true,
            AttachOutcome::AttachedExisting => true,
            _ => false,
        };
        if !kept {
            assert(self@.sessions =~= before.sessions);
            return Registration {
                result: Ok(peer_id),
                close: Some(a.conn),
                events: Vec::new(),
                session_event: None,
            };
        }
        self.mark_connected(peer_id.as_str(), at);
        self.connections.add(peer_id.clone(), a.conn);
        let _ = self.held_links.insert(peer_id.clone(), link_id.clone());
        assert(self@.held =~= before.held.insert(peer_id@, link_id@));
        self.peer_manager.add(
            Peer {
                id: peer_id.clone(),
                name: a.name,
                app_uuid: peer_id.clone(),
                connected_at: at,
                transport_id: a.transport_id,
            },
        );
        self.state = NodeState::Connected;
        let mut events: Vec<NodeEvent> = Vec::new();
        events.push(
            NodeEvent::LinkAdded { peer_id: peer_id.clone(), link_id, transport: kind },
        );
        if is_first_link {
            events.push(NodeEvent::PeerConnected { peer_id: peer_id.clone() });
        }
        proof {
            assert(shown == a.link(nonce, at));
            let want = seq![
                NodeEventView::LinkAdded {
                    peer_id: peer_id@,
                    link_id: shown.id,
                    transport: shown.kind,
                },
            ] + (if before.sessions.dom().contains(peer_id@) {
                Seq::empty()
            } else {
                seq![NodeEventView::PeerConnected { peer_id: peer_id@ }]
            });
            assert(event_views(events@) =~= want);
        }
        Registration { result: Ok(peer_id), close: None, events, session_event }
    }

    /// Registers a peer that has greeted this node.
    pub fn register_after_handshake(&mut self, a: Arrival<C>) -> (r: Registration<C>)
        requires
            old(self).wf(),
        ensures
            final(self).wf(),
            exists|nonce: u32, fresh: [u8; 16], at: Instant|
                #[trigger] registered(old(self)@, final(self)@, a, nonce, fresh, at, r),
    {
        let nonce: u32 = random_nonce();
        let fresh: [u8; 16] = random_bytes();
        let at = now();
        self.register_after_handshake_as(a, nonce, fresh, at)
    }

    fn give_up(e: MlinkError, close: Option<Arc<C>>) -> (next: ConnectAction<C>)
        ensures
            next matches ConnectAction::Done(r) && gave_up(r, e, close),
    {
        ConnectAction::Done(
            Registration { result: Err(e), close, events: Vec::new(), session_event: None },
        )
    }

    /// [`Node::connect_peer`], with this nonce, this id for a new session, at `at`.
    pub fn connect_peer_as(
        &mut self,
        event: ConnectEvent<C>,
        discovered: &DiscoveredPeer,
        transport: &TransportInfo,
        nonce: u32,
        fresh: [u8; 16],
        at: Instant,
    ) -> (next: ConnectAction<C>)
        requires
            old(self).wf(),
        ensures
            final(self).wf(),
            connect_step(
                old(self)@,
                final(self)@,
                event,
                *discovered,
                *transport,
                nonce,
                fresh,
                at,
                next,
            ),
    {
        match event {
            ConnectEvent::Start => {
                self.set_peer_state_at(discovered.id.as_str(), NodeState::Connecting, at);
                ConnectAction::Dial
            },
            ConnectEvent::Dialed(Err(e)) => Self::give_up(e, None),
            ConnectEvent::Dialed(Ok(conn)) => {
                let local = self.local_handshake((transport.mtu % 0x1_0000) as u16);
                ConnectAction::Greet(conn, local)
            },
            ConnectEvent::Greeted(conn, Err(e)) => Self::give_up(e, Some(conn)),
            ConnectEvent::Greeted(conn, Ok(handshake)) => {
                let a = Arrival {
                    handshake,
                    conn,
                    name: discovered.name.clone(),
                    transport_id: transport.id.clone(),
                    capabilities: transport.capabilities.clone(),
                    wire_id: discovered.id.clone(),
                };
                let r = self.register_after_handshake_as(a, nonce, fresh, at);
                assert(registered(old(self)@, self@, a, nonce, fresh, at, r));
                ConnectAction::Done(r)
            },
        }
    }

    /// Dials a peer, one step at a time: mark it, have the transport dial it, exchange
    /// handshakes, register it. Whatever fails, the connection is closed.
    pub fn connect_peer(
        &mut self,
        event: ConnectEvent<C>,
        discovered: &DiscoveredPeer,
        transport: &TransportInfo,
    ) -> (next: ConnectAction<C>)
        requires
            old(self).wf(),
        ensures
            final(self).wf(),
            exists|nonce: u32, fresh: [u8; 16], at: Instant|
                #[trigger] connect_step(
                    old(self)@,
                    final(self)@,
                    event,
                    *discovered,
                    *transport,
                    nonce,
                    fresh,
                    at,
                    next,
                ),
    {
        let nonce: u32 = random_nonce();
        let fresh: [u8; 16] = random_bytes();
        let at = now();
        self.connect_peer_as(event, discovered, transport, nonce, fresh, at)
    }

    /// [`Node::accept_incoming`], with this nonce, this id for a new session, at `at`.
    pub fn accept_incoming_as(
        &mut self,
        event: AcceptEvent<C>,
        wire_id: &str,
        transport_id: &str,
        fallback_name: String,
        nonce: u32,
        fresh: [u8; 16],
        at: Instant,
    ) -> (next: ConnectAction<C>)
        requires
            old(self).wf(),
        ensures
            final(self).wf(),
            accept_step(
                old(self)@,
                final(self)@,
                event,
                wire_id@,
                transport_id@,
                fallback_name@,
                nonce,
                fresh,
                at,
                next,
            ),
    {
        match event {
            AcceptEvent::Incoming(conn) => {
                let local = self.local_handshake(ACCEPT_MTU);
                ConnectAction::Greet(conn, local)
            },
            AcceptEvent::Greeted(conn, Err(e)) => Self::give_up(e, Some(conn)),
            AcceptEvent::Greeted(conn, Ok(handshake)) => {
                let a = Arrival {
                    handshake,
                    conn,
                    name: fallback_name,
                    transport_id: transport_id.to_owned(),
                    capabilities: default_caps_for_wire(transport_id),
                    wire_id: wire_id.to_owned(),
                };
                let r = self.register_after_handshake_as(a, nonce, fresh, at);
                assert(registered(old(self)@, self@, a, nonce, fresh, at, r));
                ConnectAction::Done(r)
            },
        }
    }

    /// Lets a peer in that has connected, one step at a time: exchange handshakes, check its
    /// room, register it. Whatever fails, the connection is closed.
    pub fn accept_incoming(
        &mut self,
        event: AcceptEvent<C>,
        wire_id: &str,
        transport_id: &str,
        fallback_name: String,
    ) -> (next: ConnectAction<C>)
        requires
            old(self).wf(),
        ensures
            final(self).wf(),
            exists|nonce: u32, fresh: [u8; 16], at: Instant|
                #[trigger] accept_step(
                    old(self)@,
                    final(self)@,
                    event,
                    wire_id@,
                    transport_id@,
                    fallback_name@,
                    nonce,
                    fresh,
                    at,
                    next,
                ),
    {
        let nonce: u32 = random_nonce();
        let fresh: [u8; 16] = random_bytes();
        let at = now();
        self.accept_incoming_as(event, wire_id, transport_id, fallback_name, nonce, fresh, at)
    }

    /// Attaches a further link to the session of a peer, with this nonce, at `at`.
    pub fn attach_secondary_link_as(
        &mut self,
        peer_id: &str,
        conn: Arc<C>,
        transport_kind: TransportKind,
        nonce: u32,
        at: Instant,
    ) -> (r: Result<SecondaryLink>)
        requires
            old(self).wf(),
        ensures
            final(self).wf(),
            secondary_attached(
                old(self)@,
                final(self)@,
                peer_id@,
                conn,
                transport_kind,
                nonce,
                at,
                r,
            ),
    {
        let ghost before = self@;
        if !self.connections.session_manager().contains(peer_id) {
            let mut m = "no session for peer ".to_owned();
            m.append(peer_id);
            m.append("; cannot attach secondary");
            return Err(MlinkError::HandlerError(m));
        }
        let link_id = make_link_id_with(transport_kind, peer_id, nonce);
        let caps = default_caps_for_kind(transport_kind);
        let link = Link::new_at(link_id.clone(), conn, transport_kind, caps, at);
        let ghost shown = link@;
        let (outcome, session_event) = self.connections.session_manager_mut().attach_link_as(
            peer_id,
            link,
            None,
            [0u8; 16],
        );
        proof {
            lemma_id_start(transport_kind, peer_id@, nonce);
            if outcome is AttachedExisting {
                lemma_link_taken(before, peer_id@, shown, outcome);
            }
        }
        match (outcome, session_event) {
            (AttachOutcome::AttachedExisting, Some(session_event)) => Ok(
                SecondaryLink {
                    event: NodeEvent::LinkAdded {
                        peer_id: peer_id.to_owned(),
                        link_id: link_id.clone(),
                        transport: transport_kind,
                    },
                    link_id,
                    session_event,
                },
            ),
            (AttachOutcome::RejectedCapacity, _) => {
                assert(self@.sessions =~= before.sessions);
                let mut m = "peer ".to_owned();
                m.append(peer_id);
                m.append(" reached MAX_LINKS_PER_PEER");
                Err(MlinkError::HandlerError(m))
            },
            _ => {
                assert(self@.sessions =~= before.sessions);
                let mut m = "peer ".to_owned();
                m.append(peer_id);
                m.append(" already has a ");
                m.append(transport_kind.name());
                m.append(" link");
                Err(MlinkError::HandlerError(m))
            },
        }
    }

    /// Attaches a further link to the session of a peer.
    pub fn attach_secondary_link(
        &mut self,
        peer_id: &str,
        conn: Arc<C>,
        transport_kind: TransportKind,
    ) -> (r: Result<SecondaryLink>)
        requires
            old(self).wf(),
        ensures
            final(self).wf(),
            exists|nonce: u32, at: Instant|
                #[trigger] secondary_attached(
                    old(self)@,
                    final(self)@,
                    peer_id@,
                    conn,
                    transport_kind,
                    nonce,
                    at,
                    r,
                ),
    {
        let nonce: u32 = random_nonce();
        let at = now();
        self.attach_secondary_link_as(peer_id, conn, transport_kind, nonce, at)
    }
}

/// A connection that is not kept is always handed back to be closed, and one that is kept never.
pub proof fn refused_connection_is_closed<C: ?Sized>(
    before: NodeView<C>,
    after: NodeView<C>,
    a: Arrival<C>,
    nonce: u32,
    fresh: [u8; 16],
    at: Instant,
    r: Registration<C>,
)
    requires
        registered(before, after, a, nonce, fresh, at, r),
    ensures
        r.close == Some(a.conn) || r.close is None,
        r.close is Some ==> after == before,
        r.close is None ==> after.conns.dom().contains(a.handshake.app_uuid@)
            && after.conns[a.handshake.app_uuid@] == a.conn,
{
}

/// A connected peer without a session keeps the connection that it has: a second one is refused.
pub proof fn live_connection_is_kept<C: ?Sized>(
    before: NodeView<C>,
    after: NodeView<C>,
    a: Arrival<C>,
    nonce: u32,
    fresh: [u8; 16],
    at: Instant,
    r: Registration<C>,
)
    requires
        registered(before, after, a, nonce, fresh, at, r),
        before.conns.dom().contains(a.handshake.app_uuid@),
        !before.sessions.dom().contains(a.handshake.app_uuid@) || has_kind(
            before.sessions[a.handshake.app_uuid@].links,
            kind_or_mock(a.transport_id@),
        ),
    ensures
        after == before,
        r.close == Some(a.conn),
{
}

/// A link id starts like the name of its kind.
proof fn lemma_id_start(kind: TransportKind, peer: Seq<char>, nonce: u32)
    ensures
        link_id_of(kind, peer, nonce).len() > 0,
        link_id_of(kind, peer, nonce)[0] == wire_name(kind)[0],
{
    lemma_kind_starts();
}

/// The names of the kinds differ in their first letters.
proof fn lemma_kind_starts()
    ensures
        forall|k: TransportKind| (#[trigger] wire_name(k)).len() > 0,
        forall|k: TransportKind, l: TransportKind|
            #[trigger] wire_name(k)[0] == #[trigger] wire_name(l)[0] ==> k == l,
{
    reveal_strlit("ble");
    reveal_strlit("tcp");
    reveal_strlit("ipc");
    reveal_strlit("mock");
}

/// A connection that becomes a link is held as that link.
proof fn lemma_link_taken<C: ?Sized>(
    n: NodeView<C>,
    peer: Seq<char>,
    link: LinkView<C>,
    o: AttachOutcome,
)
    requires
        held_sound(n.held, n.conns, n.sessions),
        ids_tell_kinds(n.sessions),
        id_tells_kind(link),
        match o {
            AttachOutcome::CreatedNew { .. } => !n.sessions.dom().contains(peer),
            AttachOutcome::AttachedExisting => n.sessions.dom().contains(peer) && !has_kind(
                n.sessions[peer].links,
                link.kind,
            ),
            _ => false,
        },
    ensures
        held_sound(
            n.held.insert(peer, link.id),
            n.conns.insert(peer, link.conn),
            attached(n.sessions, peer, link, o),
        ),
        held_sound(n.held, n.conns, attached(n.sessions, peer, link, o)),
        ids_tell_kinds(attached(n.sessions, peer, link, o)),
{
    let after = attached(n.sessions, peer, link, o);
    let links = after[peer].links;
    let last = links.len() - 1;
    lemma_kind_starts();
    assert forall|j: int| 0 <= j < last implies (#[trigger] links[j]).id != link.id by {
        assert(id_tells_kind(n.sessions[peer].links[j]));
    }
    assert(links[last] == link);
    lemma_link_place(links, link.id, last);
    if n.held.dom().contains(peer) {
        let was = n.sessions[peer].links;
        lemma_link_at_place(was, n.held[peer]);
        let i = link_place(was, n.held[peer])->0;
        assert forall|j: int| 0 <= j < i implies (#[trigger] links[j]).id != n.held[peer] by {
            assert(links[j] == was[j]);
        }
        lemma_link_place(links, n.held[peer], i);
    }
    assert forall|p: Seq<char>, i: int|
        after.dom().contains(p) && 0 <= i < after[p].links.len() implies id_tells_kind(
        #[trigger] after[p].links[i],
    ) by {
        if p != peer || i < last {
            assert(after[p].links[i] == n.sessions[p].links[i]);
        }
    }
}

/// A peer whose connection was lost can come back over every kind of transport of which no link
/// is left: nothing stands in its way.
pub proof fn departed_peer_can_return<C: ?Sized>(
    n: NodeView<C>,
    after: NodeView<C>,
    a: Arrival<C>,
    nonce: u32,
    fresh: [u8; 16],
    at: Instant,
    r: Registration<C>,
)
    requires
        registered(without_peer(n, a.handshake.app_uuid@), after, a, nonce, fresh, at, r),
        all_within_limits(without_peer(n, a.handshake.app_uuid@).sessions),
        without_peer(n, a.handshake.app_uuid@).sessions.dom().contains(a.handshake.app_uuid@)
            ==> !has_kind(
            without_peer(n, a.handshake.app_uuid@).sessions[a.handshake.app_uuid@].links,
            kind_or_mock(a.transport_id@),
        ),
        room_admits(n.rooms, a.handshake.room_hash),
        a.handshake.session_id is None,
    ensures
        r.result is Ok,
        r.close is None,
        after.conns.dom().contains(a.handshake.app_uuid@),
        after.conns[a.handshake.app_uuid@] == a.conn,
        after.sessions.dom().contains(a.handshake.app_uuid@),
{
    let peer = a.handshake.app_uuid@;
    let left = without_peer(n, peer).sessions;
    if left.dom().contains(peer) {
        let links = left[peer].links;
        assert(within_limits(left[peer]));
        if links.len() >= MAX_LINKS_PER_PEER {
            let (a, b, c, d) = (links[0].kind, links[1].kind, links[2].kind, links[3].kind);
            assert(a != b && a != c && a != d && b != c && b != d && c != d);
        }
    }
}

/// The kind of link that a lost connection was is free again: the peer can come back over it.
pub proof fn lost_link_frees_its_kind<C: ?Sized>(n: NodeView<C>, peer: Seq<char>)
    requires
        all_within_limits(n.sessions),
        held_link(n, peer) is Some,
    ensures
        all_within_limits(without_peer(n, peer).sessions),
        without_peer(n, peer).sessions.dom().contains(peer) ==> !has_kind(
            without_peer(n, peer).sessions[peer].links,
            n.sessions[peer].links[held_link(n, peer)->0].kind,
        ),
{
    let links = n.sessions[peer].links;
    let i = held_link(n, peer)->0;
    let left = without_peer(n, peer).sessions;
    lemma_link_at_place(links, n.held[peer]);
    detaching_keeps_limits(n.sessions, peer, i);
    assert(within_limits(n.sessions[peer]));
    if left.dom().contains(peer) && has_kind(left[peer].links, links[i].kind) {
        let rest = left[peer].links;
        let k = choose|k: int| 0 <= k < rest.len() && (#[trigger] rest[k]).kind == links[i].kind;
        let was = if k < i {
            k
        } else {
            k + 1
        };
        assert(links[was].kind == links[i].kind);
    }
}

/// Losing the connection of one link leaves the other links of the session as they were.
pub proof fn other_links_stay<C: ?Sized>(n: NodeView<C>, peer: Seq<char>, k: int)
    requires
        n.sessions.dom().contains(peer),
        0 <= k < n.sessions[peer].links.len(),
        held_link(n, peer) != Some(k),
    ensures
        without_peer(n, peer).sessions.dom().contains(peer),
        without_peer(n, peer).sessions[peer].links.contains(n.sessions[peer].links[k]),
{
    let links = n.sessions[peer].links;
    let left = without_peer(n, peer).sessions;
    match held_link(n, peer) {
        Some(i) => {
            lemma_link_at_place(links, n.held[peer]);
            let to = if k < i { k } else { k - 1 };
            assert(left[peer].links[to] == links[k]);
        },
        None => {},
    }
}

/// The end of a text is cut where it consists of hyphens, and nowhere else.
pub proof fn only_end_hyphens_are_cut(t: Seq<char>)
    ensures
        ({
            let s = without_end_hyphens(t);
            &&& s.len() <= t.len()
            &&& s == t.take(s.len() as int)
            &&& s.len() > 0 ==> s.last() != '-'
            &&& forall|i: int| s.len() <= i < t.len() ==> #[trigger] t[i] == '-'
        }),
    decreases t.len(),
{
    if t.len() > 0 && t.last() == '-' {
        let u = t.drop_last();
        only_end_hyphens_are_cut(u);
        let s = without_end_hyphens(t);
        assert(s =~= t.take(s.len() as int));
        assert forall|i: int| s.len() <= i < t.len() implies #[trigger] t[i] == '-' by {
            if i < u.len() {
                assert(u[i] == t[i]);
            }
        }
    } else {
        assert(t =~= t.take(t.len() as int));
    }
}

/// A link id is made of the name of its kind, the first eight characters of the peer's id without
/// the hyphens at their end, and eight hexadecimal digits, with colons between them.
pub proof fn link_id_has_three_parts(kind: TransportKind, peer: Seq<char>, nonce: u32)
    ensures
        peer.len() >= 8 && peer[7] != '-' ==> link_id_of(kind, peer, nonce) == wire_name(kind)
            + ":"@ + peer.take(8) + ":"@ + lower_hex(nonce as nat, 8),
        peer.len() < 8 && (peer.len() == 0 || peer.last() != '-') ==> link_id_of(kind, peer, nonce)
            == wire_name(kind) + ":"@ + peer + ":"@ + lower_hex(nonce as nat, 8),
        peer.len() >= 8 ==> link_id_of(kind, peer, nonce) == wire_name(kind) + ":"@
            + without_end_hyphens(peer.take(8)) + ":"@ + lower_hex(nonce as nat, 8),
{
    if peer.len() == 8 {
        assert(peer.take(8) =~= peer);
    }
}

/// What the kinds of transport are called and what they can do; a name that is none of theirs
/// counts as the mock's.
pub proof fn transports_by_name(name: Seq<char>)
    ensures
        kind_or_mock("ble"@) is Ble,
        kind_or_mock("tcp"@) is Tcp,
        kind_or_mock("ipc"@) is Ipc,
        kind_or_mock("mock"@) is Mock,
        name != "ble"@ && name != "tcp"@ && name != "ipc"@ ==> kind_or_mock(name) is Mock,
        default_caps(TransportKind::Ble).throughput_bps == 200_000,
        default_caps(TransportKind::Tcp).throughput_bps == 10_000_000,
        default_caps(TransportKind::Ipc).throughput_bps == 100_000_000,
        default_caps(TransportKind::Mock).throughput_bps == 1_000_000,
        default_caps(TransportKind::Ble).latency_ms == 20,
        default_caps(TransportKind::Tcp).latency_ms == 5,
        default_caps(TransportKind::Ipc).latency_ms == 1,
        default_caps(TransportKind::Mock).latency_ms == 1,
        default_caps(TransportKind::Ble).max_peers == 4,
        default_caps(TransportKind::Tcp).max_peers == 64,
        default_caps(TransportKind::Ipc).max_peers == 16,
        default_caps(TransportKind::Mock).max_peers == 1,
        forall|k: TransportKind|
            (#[trigger] default_caps(k)).reliable && default_caps(k).bidirectional,
{
    transport_kind_round_trip(TransportKind::Ble);
    transport_kind_round_trip(TransportKind::Tcp);
    transport_kind_round_trip(TransportKind::Ipc);
    transport_kind_round_trip(TransportKind::Mock);
    names_of_the_kinds();
    if let Some(k) = kind_of_wire(name) {
        assert(wire_name(k) == name);
    }
}

/// A node's handshake names the node, the protocol and what it can take; it offers compression
/// and no encryption, resumes nothing, and claims a room exactly where the node is in one, and
/// then one of its own.
pub proof fn handshake_tells_the_truth<C: ?Sized>(h: Handshake, n: NodeView<C>, mtu: u16)
    requires
        own_handshake(h, n, mtu),
    ensures
        h.app_uuid@ == n.app_uuid,
        h.version == 1,
        h.mtu == mtu,
        h.compress,
        !h.encrypt,
        h.last_seq == 0 && h.session_last_seq == 0 && h.session_id is None,
        h.resume_streams@.len() == 0,
        h.room_hash is None <==> forall|r: [u8; 8]| !(#[trigger] n.rooms.contains(r)),
        h.room_hash is Some ==> n.rooms.contains(h.room_hash->0),
        room_admits(n.rooms, h.room_hash),
{
}

/// A peer that claims none of the rooms that a node is in is refused: nothing changes, nobody is
/// told, and the connection is to be closed.
pub proof fn peer_of_another_room_is_refused<C: ?Sized>(
    before: NodeView<C>,
    after: NodeView<C>,
    a: Arrival<C>,
    nonce: u32,
    fresh: [u8; 16],
    at: Instant,
    r: Registration<C>,
    room: [u8; 8],
)
    requires
        registered(before, after, a, nonce, fresh, at, r),
        before.rooms.contains(room),
        a.handshake.room_hash is None || !before.rooms.contains(a.handshake.room_hash->0),
    ensures
        after == before,
        r.result matches Err(MlinkError::RoomMismatch { peer_id }) && peer_id@ == a.wire_id@,
        r.close == Some(a.conn),
        r.events@.len() == 0,
        r.session_event is None,
{
    every_own_room_admits(before.rooms, room, room, None);
    if let Some(c) = a.handshake.room_hash {
        every_own_room_admits(before.rooms, room, c, None);
    }
}

/// A peer that is let in and is not connected yet is connected afterwards: over this connection,
/// with a session of one link, under the fresh id. That it is connected is told, after the link.
pub proof fn new_peer_is_connected<C: ?Sized>(
    before: NodeView<C>,
    after: NodeView<C>,
    a: Arrival<C>,
    nonce: u32,
    fresh: [u8; 16],
    at: Instant,
    r: Registration<C>,
)
    requires
        registered(before, after, a, nonce, fresh, at, r),
        before.rooms == Set::<[u8; 8]>::empty() || (a.handshake.room_hash is Some
            && before.rooms.contains(a.handshake.room_hash->0)),
        !before.sessions.dom().contains(a.handshake.app_uuid@),
        !before.conns.dom().contains(a.handshake.app_uuid@),
        a.handshake.session_id is None,
    ensures
        ({
            let peer = a.handshake.app_uuid@;
            &&& r.result matches Ok(id) && id@ == peer
            &&& r.close is None
            &&& after.conns == before.conns.insert(peer, a.conn)
            &&& after.peers.dom() == before.peers.dom().insert(peer)
            &&& after.peers[peer].id == peer && after.peers[peer].name == a.name@
                && after.peers[peer].app_uuid == peer && after.peers[peer].transport_id
                == a.transport_id@ && after.peers[peer].connected_at == at
            &&& after.states[peer].state is Connected
            &&& after.states[peer].last_heartbeat == Some(at)
            &&& after.state is Connected
            &&& after.sessions.dom() == before.sessions.dom().insert(peer)
            &&& after.sessions[peer].session_id == fresh
            &&& after.sessions[peer].links.len() == 1
            &&& after.sessions[peer].links[0].conn == a.conn
            &&& after.sessions[peer].links[0].kind == kind_or_mock(a.transport_id@)
            &&& after.sessions[peer].links[0].caps == a.capabilities
            &&& after.sessions[peer].links[0].made_at == at
            &&& after.sessions[peer].links[0].health.err_rate_milli == 0
            &&& after.sessions[peer].active == Some(after.sessions[peer].links[0].id)
            &&& after.held[peer] == after.sessions[peer].links[0].id
            &&& r.events@.len() == 2
            &&& r.events@[0]@ == (NodeEventView::LinkAdded {
                peer_id: peer,
                link_id: after.sessions[peer].links[0].id,
                transport: kind_or_mock(a.transport_id@),
            })
            &&& r.events@[1]@ == (NodeEventView::PeerConnected { peer_id: peer })
            &&& r.session_event is Some
            &&& after.rooms == before.rooms && after.config == before.config && after.app_uuid
                == before.app_uuid && after.trusted == before.trusted
        }),
{
    let peer = a.handshake.app_uuid@;
    let link = a.link(nonce, at);
    first_link_opens_a_session(before.sessions, peer, link, None, fresh);
    assert(after.peers.dom() =~= before.peers.dom().insert(peer));
    let told = event_views(r.events@);
    assert(told.len() == 2);
    assert(told[0] == r.events@[0]@ && told[1] == r.events@[1]@);
}

/// A connected peer that comes over another kind of transport gets a further link, behind the
/// others, and the link is told; one that comes over a kind that it has, or with four links, or
/// names another session, changes nothing, and the connection is to be closed.
pub proof fn known_peer_gets_another_link<C: ?Sized>(
    before: NodeView<C>,
    after: NodeView<C>,
    a: Arrival<C>,
    nonce: u32,
    fresh: [u8; 16],
    at: Instant,
    r: Registration<C>,
)
    requires
        registered(before, after, a, nonce, fresh, at, r),
        before.rooms == Set::<[u8; 8]>::empty() || (a.handshake.room_hash is Some
            && before.rooms.contains(a.handshake.room_hash->0)),
        before.sessions.dom().contains(a.handshake.app_uuid@),
    ensures
        ({
            let peer = a.handshake.app_uuid@;
            let s = before.sessions[peer];
            let kind = kind_or_mock(a.transport_id@);
            let joins = (a.handshake.session_id is None || a.handshake.session_id->0
                == s.session_id) && s.links.len() < 4 && forall|i: int|
                0 <= i < s.links.len() ==> (#[trigger] s.links[i]).kind != kind;
            &&& r.result matches Ok(id) && id@ == peer
            &&& joins ==> {
                let t = after.sessions[peer];
                let n = s.links.len() as int;
                &&& r.close is None
                &&& t == (SessionView { links: t.links, ..s })
                &&& t.links.len() == n + 1
                &&& t.links.take(n) == s.links
                &&& t.links[n].conn == a.conn && t.links[n].kind == kind && t.links[n].caps
                    == a.capabilities && t.links[n].made_at == at
                &&& after.conns == before.conns.insert(peer, a.conn)
                &&& after.held[peer] == t.links[n].id
                &&& after.states[peer].state is Connected
                &&& r.events@.len() == 1
                &&& r.events@[0]@ == (NodeEventView::LinkAdded {
                    peer_id: peer,
                    link_id: t.links[n].id,
                    transport: kind,
                })
                &&& r.session_event is Some
            }
            &&& !joins ==> after == before && r.close == Some(a.conn) && r.events@.len() == 0
                && r.session_event is None
        }),
{
    let peer = a.handshake.app_uuid@;
    let s = before.sessions[peer];
    let link = a.link(nonce, at);
    link_of_a_new_kind_joins(before.sessions, peer, link, a.handshake.session_id, fresh);
    assert(s.links.push(link).take(s.links.len() as int) =~= s.links);
    let told = event_views(r.events@);
    if r.close is None {
        assert(told.len() == 1);
        assert(told[0] == r.events@[0]@);
    }
}

/// A peer is dialled, then greeted over the connection that the transport has made, then
/// registered. Whatever goes wrong is passed on as it is, the connection is to be closed if there
/// is one, and nothing is told.
pub proof fn dialling_goes_step_by_step<C: ?Sized>(
    before: NodeView<C>,
    after: NodeView<C>,
    event: ConnectEvent<C>,
    discovered: DiscoveredPeer,
    transport: TransportInfo,
    nonce: u32,
    fresh: [u8; 16],
    at: Instant,
    next: ConnectAction<C>,
)
    requires
        connect_step(before, after, event, discovered, transport, nonce, fresh, at, next),
    ensures
        event is Start ==> {
            &&& next is Dial
            &&& after == (NodeView { states: after.states, ..before })
            &&& after.states[discovered.id@].state is Connecting
            &&& after.states.dom() == before.states.dom().insert(discovered.id@)
            &&& before.states.dom().contains(discovered.id@) ==> after.states[discovered.id@].key
                == before.states[discovered.id@].key && after.states[discovered.id@].seq
                == before.states[discovered.id@].seq
            &&& forall|p: Seq<char>|
                p != discovered.id@ && before.states.dom().contains(p) ==> #[trigger]
                    after.states[p] == before.states[p]
        },
        event matches ConnectEvent::Dialed(Err(e)) ==> after == before && (next
            matches ConnectAction::Done(r) && r.result == Err::<String, MlinkError>(e) && r.close
            is None && r.events@.len() == 0 && r.session_event is None),
        event matches ConnectEvent::Dialed(Ok(conn)) ==> after == before && (next
            matches ConnectAction::Greet(c, h) && c == conn && h.app_uuid@ == before.app_uuid
            && h.mtu == transport.mtu % 0x1_0000),
        event matches ConnectEvent::Greeted(conn, Err(e)) ==> after == before && (next
            matches ConnectAction::Done(r) && r.result == Err::<String, MlinkError>(e) && r.close
            == Some(conn) && r.events@.len() == 0 && r.session_event is None),
        event matches ConnectEvent::Greeted(conn, Ok(h)) ==> (next matches ConnectAction::Done(r)
            && (r.close is None ==> after.conns.dom().contains(h.app_uuid@)
            && after.conns[h.app_uuid@] == conn && after.peers[h.app_uuid@].name
            == discovered.name@ && after.peers[h.app_uuid@].transport_id == transport.id@) && (
        r.close is Some ==> r.close == Some(conn) && after == before)),
{
    if event is Start {
        assert(after.states.dom() =~= before.states.dom().insert(discovered.id@));
    }
}

/// A peer that dials is greeted over its connection, then registered, as one that was dialled.
pub proof fn accepting_goes_step_by_step<C: ?Sized>(
    before: NodeView<C>,
    after: NodeView<C>,
    event: AcceptEvent<C>,
    wire_id: Seq<char>,
    transport_id: Seq<char>,
    fallback_name: Seq<char>,
    nonce: u32,
    fresh: [u8; 16],
    at: Instant,
    next: ConnectAction<C>,
)
    requires
        accept_step(
            before,
            after,
            event,
            wire_id,
            transport_id,
            fallback_name,
            nonce,
            fresh,
            at,
            next,
        ),
    ensures
        event matches AcceptEvent::Incoming(conn) ==> after == before && (next
            matches ConnectAction::Greet(c, h) && c == conn && h.app_uuid@ == before.app_uuid
            && h.mtu == 512),
        event matches AcceptEvent::Greeted(conn, Err(e)) ==> after == before && (next
            matches ConnectAction::Done(r) && r.result == Err::<String, MlinkError>(e) && r.close
            == Some(conn) && r.events@.len() == 0 && r.session_event is None),
        event matches AcceptEvent::Greeted(conn, Ok(h)) ==> (next matches ConnectAction::Done(r)
            && (r.close is None ==> after.conns.dom().contains(h.app_uuid@)
            && after.conns[h.app_uuid@] == conn && after.peers[h.app_uuid@].name == fallback_name
            && after.peers[h.app_uuid@].transport_id == transport_id) && (r.close is Some
            ==> r.close == Some(conn) && after == before)),
{
}

/// A further link needs a session with fewer than four links and none of its kind. It then stands
/// behind the others and is told; nothing else of the node changes.
pub proof fn further_link_needs_a_session<C: ?Sized>(
    before: NodeView<C>,
    after: NodeView<C>,
    peer: Seq<char>,
    conn: Arc<C>,
    kind: TransportKind,
    nonce: u32,
    at: Instant,
    r: Result<SecondaryLink>,
)
    requires
        secondary_attached(before, after, peer, conn, kind, nonce, at, r),
    ensures
        r is Ok <==> before.sessions.dom().contains(peer) && before.sessions[peer].links.len() < 4
            && forall|i: int|
            0 <= i < before.sessions[peer].links.len() ==> (
            #[trigger] before.sessions[peer].links[i]).kind != kind,
        r is Err ==> after == before,
        r matches Ok(s) ==> {
            let was = before.sessions[peer];
            let now = after.sessions[peer];
            let n = was.links.len() as int;
            &&& now == (SessionView { links: now.links, ..was })
            &&& now.links.len() == n + 1
            &&& now.links.take(n) == was.links
            &&& now.links[n].id == s.link_id@
            &&& now.links[n].conn == conn
            &&& now.links[n].kind == kind
            &&& now.links[n].made_at == at
            &&& after == (NodeView { sessions: after.sessions, ..before })
            &&& after.sessions == before.sessions.insert(peer, now)
            &&& s.event@ == (NodeEventView::LinkAdded {
                peer_id: peer,
                link_id: s.link_id@,
                transport: kind,
            })
        },
{
    if r is Ok {
        let was = before.sessions[peer].links;
        let now = after.sessions[peer].links;
        assert(now.take(was.len() as int) =~= was);
    } else if before.sessions.dom().contains(peer) && has_kind(
        before.sessions[peer].links,
        kind,
    ) {
        let links = before.sessions[peer].links;
        let i = choose|i: int| 0 <= i < links.len() && (#[trigger] links[i]).kind == kind;
        assert(before.sessions[peer].links[i].kind == kind);
    }
}

/// Registering a peer changes nothing of any other peer, and nothing of what the node is.
pub proof fn registration_is_local<C: ?Sized>(
    before: NodeView<C>,
    after: NodeView<C>,
    a: Arrival<C>,
    nonce: u32,
    fresh: [u8; 16],
    at: Instant,
    r: Registration<C>,
    other: Seq<char>,
)
    requires
        registered(before, after, a, nonce, fresh, at, r),
        other != a.handshake.app_uuid@,
    ensures
        after.conns.dom().contains(other) == before.conns.dom().contains(other),
        after.conns[other] == before.conns[other],
        after.peers.dom().contains(other) == before.peers.dom().contains(other),
        after.peers[other] == before.peers[other],
        after.states.dom().contains(other) == before.states.dom().contains(other),
        after.states[other] == before.states[other],
        after.held.dom().contains(other) == before.held.dom().contains(other),
        after.held[other] == before.held[other],
        after.sessions.dom().contains(other) == before.sessions.dom().contains(other),
        after.sessions[other] == before.sessions[other],
        after.rooms == before.rooms,
        after.config == before.config,
        after.app_uuid == before.app_uuid,
        after.trusted == before.trusted,
        r.close is None ==> {
            let peer = a.handshake.app_uuid@;
            let known = before.states.dom().contains(peer);
            &&& after.state is Connected
            &&& after.peers[peer].id == peer && after.peers[peer].name == a.name@
                && after.peers[peer].app_uuid == peer && after.peers[peer].transport_id
                == a.transport_id@ && after.peers[peer].connected_at == at
            &&& after.states[peer].state is Connected && after.states[peer].last_heartbeat == Some(
                at,
            )
            &&& known ==> after.states[peer].key == before.states[peer].key
                && after.states[peer].seq == before.states[peer].seq && after.states[peer].policy
                == before.states[peer].policy
            &&& !known ==> after.states[peer].key is None && after.states[peer].seq == 0
        },
{
    let peer = a.handshake.app_uuid@;
    noting_changes_one_peer(before.states, peer, NodeState::Connected, Seq::empty(), at, other);
    attaching_is_local(
        before.sessions,
        peer,
        a.link(nonce, at),
        a.handshake.session_id,
        fresh,
    );
}

/// A peer that was dialled and has greeted is connected over that connection, where it is let in,
/// was not connected before, and asks for no session: under the name that it was discovered by,
/// with what the transport can do.
pub proof fn dialled_peer_is_connected<C: ?Sized>(
    before: NodeView<C>,
    after: NodeView<C>,
    conn: Arc<C>,
    h: Handshake,
    discovered: DiscoveredPeer,
    transport: TransportInfo,
    nonce: u32,
    fresh: [u8; 16],
    at: Instant,
    next: ConnectAction<C>,
)
    requires
        connect_step(
            before,
            after,
            ConnectEvent::Greeted(conn, Ok(h)),
            discovered,
            transport,
            nonce,
            fresh,
            at,
            next,
        ),
        before.rooms == Set::<[u8; 8]>::empty() || (h.room_hash is Some && before.rooms.contains(
            h.room_hash->0,
        )),
        !before.sessions.dom().contains(h.app_uuid@),
        !before.conns.dom().contains(h.app_uuid@),
        h.session_id is None,
    ensures
        next matches ConnectAction::Done(r) && {
            &&& r.result matches Ok(id) && id@ == h.app_uuid@
            &&& r.close is None
            &&& r.events@.len() == 2
        },
        after.conns == before.conns.insert(h.app_uuid@, conn),
        after.peers[h.app_uuid@].name == discovered.name@,
        after.sessions[h.app_uuid@].links.len() == 1,
        after.sessions[h.app_uuid@].links[0].conn == conn,
        after.sessions[h.app_uuid@].links[0].caps == transport.capabilities,
        after.sessions[h.app_uuid@].links[0].kind == kind_or_mock(transport.id@),
        after.sessions[h.app_uuid@].links[0].id == link_id_of(
            kind_or_mock(transport.id@),
            h.app_uuid@,
            nonce,
        ),
{
    let r = next->Done_0;
    let a = choose|a: Arrival<C>|
        {
            &&& a.handshake == h
            &&& a.conn == conn
            &&& a.name@ == discovered.name@
            &&& a.transport_id@ == transport.id@
            &&& a.capabilities == transport.capabilities
            &&& a.wire_id@ == discovered.id@
            &&& #[trigger] registered(before, after, a, nonce, fresh, at, r)
        };
    new_peer_is_connected(before, after, a, nonce, fresh, at, r);
}

/// A peer that has dialled and greeted is connected in the same way, under the name that stands in
/// for one, with what its kind of transport can do.
pub proof fn accepted_peer_is_connected<C: ?Sized>(
    before: NodeView<C>,
    after: NodeView<C>,
    conn: Arc<C>,
    h: Handshake,
    wire_id: Seq<char>,
    transport_id: Seq<char>,
    fallback_name: Seq<char>,
    nonce: u32,
    fresh: [u8; 16],
    at: Instant,
    next: ConnectAction<C>,
)
    requires
        accept_step(
            before,
            after,
            AcceptEvent::Greeted(conn, Ok(h)),
            wire_id,
            transport_id,
            fallback_name,
            nonce,
            fresh,
            at,
            next,
        ),
        before.rooms == Set::<[u8; 8]>::empty() || (h.room_hash is Some && before.rooms.contains(
            h.room_hash->0,
        )),
        !before.sessions.dom().contains(h.app_uuid@),
        !before.conns.dom().contains(h.app_uuid@),
        h.session_id is None,
    ensures
        next matches ConnectAction::Done(r) && {
            &&& r.result matches Ok(id) && id@ == h.app_uuid@
            &&& r.close is None
            &&& r.events@.len() == 2
        },
        after.conns == before.conns.insert(h.app_uuid@, conn),
        after.peers[h.app_uuid@].name == fallback_name,
        after.sessions[h.app_uuid@].links.len() == 1,
        after.sessions[h.app_uuid@].links[0].conn == conn,
        after.sessions[h.app_uuid@].links[0].caps == default_caps(kind_or_mock(transport_id)),
        after.sessions[h.app_uuid@].links[0].kind == kind_or_mock(transport_id),
{
    let r = next->Done_0;
    let a = choose|a: Arrival<C>|
        {
            &&& a.handshake == h
            &&& a.conn == conn
            &&& a.name@ == fallback_name
            &&& a.transport_id@ == transport_id
            &&& a.capabilities == default_caps(kind_or_mock(transport_id))
            &&& a.wire_id@ == wire_id
            &&& #[trigger] registered(before, after, a, nonce, fresh, at, r)
        };
    new_peer_is_connected(before, after, a, nonce, fresh, at, r);
}

/// A peer of another room is refused however it came, by the name that it has on the wire.
pub proof fn stranger_is_refused_at_the_door<C: ?Sized>(
    before: NodeView<C>,
    after: NodeView<C>,
    conn: Arc<C>,
    h: Handshake,
    discovered: DiscoveredPeer,
    transport: TransportInfo,
    fallback_name: Seq<char>,
    nonce: u32,
    fresh: [u8; 16],
    at: Instant,
    next: ConnectAction<C>,
    room: [u8; 8],
)
    requires
        connect_step(
            before,
            after,
            ConnectEvent::Greeted(conn, Ok(h)),
            discovered,
            transport,
            nonce,
            fresh,
            at,
            next,
        ) || accept_step(
            before,
            after,
            AcceptEvent::Greeted(conn, Ok(h)),
            discovered.id@,
            transport.id@,
            fallback_name,
            nonce,
            fresh,
            at,
            next,
        ),
        before.rooms.contains(room),
        h.room_hash is None || !before.rooms.contains(h.room_hash->0),
    ensures
        after == before,
        next matches ConnectAction::Done(r) && {
            &&& r.result matches Err(MlinkError::RoomMismatch { peer_id }) && peer_id@
                == discovered.id@
            &&& r.close == Some(conn)
            &&& r.events@.len() == 0
        },
{
    let r = next->Done_0;
    let a = choose|a: Arrival<C>|
        {
            &&& a.handshake == h
            &&& a.conn == conn
            &&& a.wire_id@ == discovered.id@
            &&& #[trigger] registered(before, after, a, nonce, fresh, at, r)
        };
    peer_of_another_room_is_refused(before, after, a, nonce, fresh, at, r, room);
}

/// Why a further link is refused: for want of a session, then of room, then for its kind.
pub proof fn refusal_of_a_further_link_is_told<C: ?Sized>(
    n: NodeView<C>,
    peer: Seq<char>,
    kind: TransportKind,
    i: int,
)
    ensures
        !n.sessions.dom().contains(peer) ==> secondary_fault(n, peer, kind) == Some(
            "no session for peer "@ + peer + "; cannot attach secondary"@,
        ),
        n.sessions.dom().contains(peer) && n.sessions[peer].links.len() >= 4 ==> secondary_fault(
            n,
            peer,
            kind,
        ) == Some("peer "@ + peer + " reached MAX_LINKS_PER_PEER"@),
        n.sessions.dom().contains(peer) && n.sessions[peer].links.len() < 4 && 0 <= i
            < n.sessions[peer].links.len() && n.sessions[peer].links[i].kind == kind
            ==> secondary_fault(n, peer, kind) == Some(
            "peer "@ + peer + " already has a "@ + kind_name(kind) + " link"@,
        ),
{
}

/// A peer without a session that asks for one, or has a connection, gets no other: nothing changes,
/// nobody is told, and the new connection is to be closed.
pub proof fn lost_session_is_not_joined<C: ?Sized>(
    before: NodeView<C>,
    after: NodeView<C>,
    a: Arrival<C>,
    nonce: u32,
    fresh: [u8; 16],
    at: Instant,
    r: Registration<C>,
)
    requires
        registered(before, after, a, nonce, fresh, at, r),
        before.rooms == Set::<[u8; 8]>::empty() || (a.handshake.room_hash is Some
            && before.rooms.contains(a.handshake.room_hash->0)),
        !before.sessions.dom().contains(a.handshake.app_uuid@),
        a.handshake.session_id is Some || before.conns.dom().contains(a.handshake.app_uuid@),
    ensures
        after == before,
        r.result matches Ok(id) && id@ == a.handshake.app_uuid@,
        r.close == Some(a.conn),
        r.events@.len() == 0,
        r.session_event is None,
{
    first_link_opens_a_session(
        before.sessions,
        a.handshake.app_uuid@,
        a.link(nonce, at),
        a.handshake.session_id,
        fresh,
    );
}

} // verus!
