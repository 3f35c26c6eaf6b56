//! A node: everything that one endpoint knows of its peers.
//!
//! Nothing here reads or writes a connection. Each operation changes the node's records and
//! says what is to be written, closed or told to listeners.

use std::sync::Arc;

use vstd::prelude::*;

use crate::mesh::connection::{negotiate_role, role_of, ConnectionManager, Role};
use crate::mesh::link::{wire_name, LinkView};
use crate::mesh::node::lifecycle::{closing, held_link, without_peer};
use crate::mesh::node::types::{state_name, NodeConfig, NodeState, PeerState, PeerStateView};
use crate::mesh::peer::{PeerManager, PeerView};
use crate::mesh::security::TrustStore;
use crate::mesh::session::io::link_place;
use crate::mesh::session::manager::statuses_of;
use crate::mesh::session::types::LinkStatus;
use crate::mesh::session::SessionView;
use crate::protocol::errors::{joined, MlinkError, Result};
use crate::strmap::StrMap;

pub mod connect;
pub mod io;
pub mod lifecycle;
pub mod rooms;
pub mod types;

verus! {

/// The top-level endpoint.
pub struct Node<C: ?Sized> {
    config: NodeConfig,
    app_uuid: String,
    peer_manager: PeerManager,
    peer_states: StrMap<PeerState>,
    connections: ConnectionManager<C>,
    held_links: StrMap<String>,
    trust_store: TrustStore,
    state: NodeState,
    room_hashes: Vec<[u8; 8]>,
}

/// What a node is, as far as decisions depend on it.
pub struct NodeView<C: ?Sized> {
    pub config: NodeConfig,
    pub app_uuid: Seq<char>,
    /// The peers whom the node trusts.
    pub trusted: TrustStore,
    pub peers: Map<Seq<char>, PeerView>,
    pub states: Map<Seq<char>, PeerStateView>,
    pub conns: Map<Seq<char>, Arc<C>>,
    /// For each connection that became a link of the peer's session, the id of that link.
    pub held: Map<Seq<char>, Seq<char>>,
    pub sessions: Map<Seq<char>, SessionView<C>>,
    pub state: NodeState,
    /// The rooms that the node is in.
    pub rooms: Set<[u8; 8]>,
}

/// A node that knows no peers.
pub open spec fn new_node<C: ?Sized>(
    config: NodeConfig,
    app_uuid: Seq<char>,
    trusted: TrustStore,
) -> NodeView<C> {
    NodeView {
        config,
        app_uuid,
        trusted,
        peers: Map::empty(),
        states: Map::empty(),
        conns: Map::empty(),
        held: Map::empty(),
        sessions: Map::empty(),
        state: NodeState::Idle,
        rooms: Set::empty(),
    }
}

/// A new node is idle, is in no room and knows nobody.
pub proof fn new_node_knows_nobody<C: ?Sized>(
    config: NodeConfig,
    app_uuid: Seq<char>,
    trusted: TrustStore,
    peer: Seq<char>,
    room: [u8; 8],
)
    ensures
        ({
            let n = new_node::<C>(config, app_uuid, trusted);
            &&& n.config == config && n.app_uuid == app_uuid && n.trusted == trusted
            &&& n.state is Idle
            &&& !n.rooms.contains(room)
            &&& !n.conns.dom().contains(peer) && !n.peers.dom().contains(peer)
                && !n.states.dom().contains(peer) && !n.sessions.dom().contains(peer)
                && !n.held.dom().contains(peer)
        }),
{
}

/// Every link that a connection is said to have become is in the peer's session, and runs over
/// that connection.
pub open spec fn held_sound<C: ?Sized>(
    held: Map<Seq<char>, Seq<char>>,
    conns: Map<Seq<char>, Arc<C>>,
    sessions: Map<Seq<char>, SessionView<C>>,
) -> bool {
    forall|p: Seq<char>| #[trigger]
        held.dom().contains(p) ==> {
            &&& conns.dom().contains(p)
            &&& sessions.dom().contains(p)
            &&& link_place(sessions[p].links, held[p]) matches Some(i) && sessions[p].links[i].conn
                == conns[p]
        }
}

/// The id of every link starts like the name of its kind.
pub open spec fn ids_tell_kinds<C: ?Sized>(sessions: Map<Seq<char>, SessionView<C>>) -> bool {
    forall|p: Seq<char>, i: int|
        sessions.dom().contains(p) && 0 <= i < sessions[p].links.len() ==> id_tells_kind(
            #[trigger] sessions[p].links[i],
        )
}

/// The id of a link starts like the name of its kind.
pub open spec fn id_tells_kind<C: ?Sized>(l: LinkView<C>) -> bool {
    l.id.len() > 0 && l.id[0] == wire_name(l.kind)[0]
}

impl<C: ?Sized> Node<C> {
    pub closed spec fn view(&self) -> NodeView<C> {
        NodeView {
            config: self.config,
            app_uuid: self.app_uuid@,
            trusted: self.trust_store,
            peers: self.peer_manager@,
            states: self.peer_states@.map_values(|s: PeerState| s@),
            conns: self.connections.conns(),
            held: self.held_links@.map_values(|id: String| id@),
            sessions: self.connections.sessions(),
            state: self.state,
            rooms: self.room_hashes@.to_set(),
        }
    }

    pub closed spec fn wf(&self) -> bool {
        &&& self.peer_manager.wf()
        &&& self.peer_states.wf()
        &&& self.connections.wf()
        &&& self.held_links.wf()
        &&& held_sound(self@.held, self@.conns, self@.sessions)
        &&& ids_tell_kinds(self@.sessions)
        &&& self@.conns.dom().subset_of(self@.states.dom())
        &&& self.room_hashes@.no_duplicates()
    }

    /// The peers with a connection, each once.
    pub closed spec fn conn_order(&self) -> Seq<Seq<char>> {
        self.connections.id_order()
    }

    /// Every peer with a connection stands in the order once.
    pub proof fn lemma_conn_order(&self)
        requires
            self.wf(),
        ensures
            self.conn_order().no_duplicates(),
            forall|p: Seq<char>| self@.conns.dom().contains(p) <==> self.conn_order().contains(p),
    {
        self.connections.lemma_id_order();
    }

    /// The link that goes with a lost connection is the one that runs over it.
    pub proof fn held_link_runs_over_the_connection(&self, peer: Seq<char>)
        requires
            self.wf(),
            self@.held.dom().contains(peer),
        ensures
            held_link(self@, peer) matches Some(i) && closing(self@, peer)
                == seq![self@.sessions[peer].links[i].conn],
    {
    }

    /// A connected peer has a state, and a lost one is in the state `Disconnected`.
    pub proof fn lost_peer_is_disconnected(&self, peer: Seq<char>)
        requires
            self.wf(),
            self@.conns.dom().contains(peer),
        ensures
            self@.states.dom().contains(peer),
            !without_peer(self@, peer).conns.dom().contains(peer),
            without_peer(self@, peer).states.dom().contains(peer),
            without_peer(self@, peer).states[peer].state is Disconnected,
    {
    }

    /// A node with the id and the trusted peers that were read from its files.
    pub fn new(config: NodeConfig, app_uuid: String, trust_store: TrustStore) -> (n: Self)
        ensures
            n.wf(),
            n@ == new_node::<C>(config, app_uuid@, trust_store),
    {
        let n = Node {
            config,
            app_uuid,
            peer_manager: PeerManager::new(),
            peer_states: StrMap::new(),
            connections: ConnectionManager::new(),
            held_links: StrMap::new(),
            trust_store,
            state: NodeState::Idle,
            room_hashes: Vec::new(),
        };
        assert(n@.states =~= Map::<Seq<char>, PeerStateView>::empty());
        assert(n@.held =~= Map::<Seq<char>, Seq<char>>::empty());
        assert(n@.rooms =~= Set::<[u8; 8]>::empty());
        n
    }

    pub fn state(&self) -> (s: NodeState)
        ensures
            s == self@.state,
    {
        self.state
    }

    pub fn app_uuid(&self) -> (s: &str)
        ensures
            s@ == self@.app_uuid,
    {
        self.app_uuid.as_str()
    }

    pub fn config(&self) -> (c: &NodeConfig)
        ensures
            *c == self@.config,
    {
        &self.config
    }

    pub fn trust_store(&self) -> (t: &TrustStore)
        ensures
            *t == self@.trusted,
    {
        &self.trust_store
    }

    /// The trusted peers, to be changed.
    pub fn trust_store_mut(&mut self) -> (t: &mut TrustStore)
        ensures
            *t == old(self)@.trusted,
            final(self)@ == (NodeView { trusted: *final(t), ..old(self)@ }),
            old(self).wf() ==> final(self).wf(),
    {
        &mut self.trust_store
    }

    /// Starts to look for peers. Only an idle node can be started.
    pub fn start(&mut self) -> (r: Result<()>)
        requires
            old(self).wf(),
        ensures
            final(self).wf(),
            if old(self)@.state is Idle {
                r is Ok && final(self)@ == (NodeView {
                    state: NodeState::Discovering,
                    ..old(self)@
                })
            } else {
                &&& final(self)@ == old(self)@
                &&& r matches Err(MlinkError::HandlerError(m))
                &&& m@ == "cannot start from state "@ + state_name(old(self)@.state)
            },
    {
        if self.state != NodeState::Idle {
            return Err(
                MlinkError::HandlerError(joined("cannot start from state ", self.state.name())),
            );
        }
        self.state = NodeState::Discovering;
        Ok(())
    }

    pub fn role_for(&self, peer_app_uuid: &str) -> (r: Role)
        ensures
            r == role_of(self@.app_uuid, peer_app_uuid@),
    {
        negotiate_role(self.app_uuid.as_str(), peer_app_uuid)
    }

    pub fn connection_count(&self) -> (n: usize)
        requires
            self.wf(),
        ensures
            n == self@.conns.dom().len(),
    {
        self.connections.count()
    }

    /// A snapshot of every link of one peer.
    pub fn peer_link_status(&self, peer_id: &str) -> (r: Vec<LinkStatus>)
        requires
            self.wf(),
        ensures
            if self@.sessions.dom().contains(peer_id@) {
                statuses_of(r@, self@.sessions[peer_id@])
            } else {
                r@.len() == 0
            },
    {
        self.connections.peer_link_status(peer_id)
    }
}

} // verus!
