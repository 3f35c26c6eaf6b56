//! How peers come and go.

use std::sync::Arc;
use std::time::Instant;

use vstd::prelude::*;

use crate::clock::now;
use crate::mesh::node::types::{
    new_peer_state, NodeEvent, NodeEventView, NodeState, PeerState, PeerStateView,
};
use crate::mesh::node::{held_sound, id_tells_kind, ids_tell_kinds, Node, NodeView};
use crate::mesh::peer::{lists_all, Peer};
use crate::mesh::reconnect::fresh_policy;
use crate::mesh::session::io::{lemma_link_at_place, lemma_link_place, link_place};
use crate::mesh::session::manager::detached;

verus! {

/// The state of a peer, or that of a new one at `at`.
pub open spec fn entry_or_new(
    states: Map<Seq<char>, PeerStateView>,
    peer: Seq<char>,
    at: Instant,
) -> PeerStateView {
    if states.dom().contains(peer) {
        states[peer]
    } else {
        new_peer_state(at)
    }
}

/// The states after a peer was put into a state at `at`.
pub open spec fn state_set(
    states: Map<Seq<char>, PeerStateView>,
    peer: Seq<char>,
    state: NodeState,
    at: Instant,
) -> Map<Seq<char>, PeerStateView> {
    states.insert(peer, PeerStateView { state, ..entry_or_new(states, peer, at) })
}

/// The states after a peer got a key at `at`.
pub open spec fn key_set(
    states: Map<Seq<char>, PeerStateView>,
    peer: Seq<char>,
    key: Seq<u8>,
    at: Instant,
) -> Map<Seq<char>, PeerStateView> {
    states.insert(peer, PeerStateView { key: Some(key), ..entry_or_new(states, peer, at) })
}

/// The states after a peer was connected at `at`: that counts as a sign of life.
pub open spec fn state_connected(
    states: Map<Seq<char>, PeerStateView>,
    peer: Seq<char>,
    at: Instant,
) -> Map<Seq<char>, PeerStateView> {
    states.insert(
        peer,
        PeerStateView {
            state: NodeState::Connected,
            last_heartbeat: Some(at),
            ..entry_or_new(states, peer, at)
        },
    )
}

/// The states after a peer was lost.
pub open spec fn state_disconnected(
    states: Map<Seq<char>, PeerStateView>,
    peer: Seq<char>,
) -> Map<Seq<char>, PeerStateView> {
    if states.dom().contains(peer) {
        states.insert(peer, PeerStateView { state: NodeState::Disconnected, ..states[peer] })
    } else {
        states
    }
}

/// The node after a connection was put in place at `at`.
pub open spec fn with_connection<C: ?Sized>(
    n: NodeView<C>,
    peer: Seq<char>,
    conn: Arc<C>,
    at: Instant,
) -> NodeView<C> {
    NodeView {
        conns: n.conns.insert(peer, conn),
        held: n.held.remove(peer),
        states: state_connected(n.states, peer, at),
        state: NodeState::Connected,
        ..n
    }
}

/// The place, in the peer's session, of the link whose connection the node holds.
pub open spec fn held_link<C: ?Sized>(n: NodeView<C>, peer: Seq<char>) -> Option<int> {
    if n.held.dom().contains(peer) && n.sessions.dom().contains(peer) {
        link_place(n.sessions[peer].links, n.held[peer])
    } else {
        None
    }
}

/// The node after it has lost a peer: no connection, no record, a state that says so, and no
/// link over that connection. The session goes on over its other links, and goes with the last.
pub open spec fn without_peer<C: ?Sized>(n: NodeView<C>, peer: Seq<char>) -> NodeView<C> {
    NodeView {
        conns: n.conns.remove(peer),
        held: n.held.remove(peer),
        sessions: match held_link(n, peer) {
            Some(i) => detached(n.sessions, peer, i),
            None => n.sessions,
        },
        peers: n.peers.remove(peer),
        states: state_disconnected(n.states, peer),
        ..n
    }
}

/// The connection to close when a peer goes.
pub open spec fn closing<C: ?Sized>(n: NodeView<C>, peer: Seq<char>) -> Seq<Arc<C>> {
    if n.conns.dom().contains(peer) {
        seq![n.conns[peer]]
    } else {
        Seq::empty()
    }
}

/// The node without any of these peers.
pub open spec fn without_peers<C: ?Sized>(n: NodeView<C>, peers: Seq<Seq<char>>) -> NodeView<C>
    decreases peers.len(),
{
    if peers.len() == 0 {
        n
    } else {
        without_peer(without_peers(n, peers.drop_last()), peers.last())
    }
}

/// The connections to close when these peers go, one after the other.
pub open spec fn closing_all<C: ?Sized>(n: NodeView<C>, peers: Seq<Seq<char>>) -> Seq<Arc<C>>
    decreases peers.len(),
{
    if peers.len() == 0 {
        Seq::empty()
    } else {
        closing_all(n, peers.drop_last()) + closing(n, peers.last())
    }
}

/// Removing some peers takes away exactly their connections, and leaves those of the others.
pub proof fn lemma_without_peers<C: ?Sized>(n: NodeView<C>, peers: Seq<Seq<char>>)
    ensures
        ({
            let m = without_peers(n, peers);
            &&& m.state == n.state
            &&& forall|p: Seq<char>|
                #![trigger m.conns.dom().contains(p)]
                m.conns.dom().contains(p) == (n.conns.dom().contains(p) && !peers.contains(p))
            &&& forall|p: Seq<char>|
                !peers.contains(p) ==> #[trigger] closing(m, p) == closing(n, p)
        }),
    decreases peers.len(),
{
    if peers.len() > 0 {
        let rest = peers.drop_last();
        lemma_without_peers(n, rest);
        assert forall|p: Seq<char>| #[trigger] peers.contains(p) == (rest.contains(p) || p
            == peers.last()) by {
            if peers.contains(p) {
                let i = peers.index_of(p);
                if i < rest.len() {
                    assert(rest[i] == p);
                }
            }
            if rest.contains(p) {
                let i = rest.index_of(p);
                assert(peers[i] == p);
            }
            assert(peers[peers.len() - 1] == peers.last());
        }
        let m = without_peers(n, peers);
        let k = without_peers(n, rest);
        assert forall|p: Seq<char>| !peers.contains(p) implies #[trigger] closing(m, p) == closing(
            n,
            p,
        ) by {
            assert(closing(k, p) == closing(n, p));
        }
    }
}

/// What holds of the links that a node holds still holds after it has lost a peer.
proof fn lemma_peer_lost<C: ?Sized>(n: NodeView<C>, peer: Seq<char>)
    requires
        held_sound(n.held, n.conns, n.sessions),
        ids_tell_kinds(n.sessions),
    ensures
        ({
            let m = without_peer(n, peer);
            held_sound(m.held, m.conns, m.sessions) && ids_tell_kinds(m.sessions)
        }),
{
    let m = without_peer(n, peer);
    match held_link(n, peer) {
        Some(i) => {
            lemma_link_at_place(n.sessions[peer].links, n.held[peer]);
            assert forall|p: Seq<char>, k: int|
                m.sessions.dom().contains(p) && 0 <= k
                    < m.sessions[p].links.len() implies id_tells_kind(
                #[trigger] m.sessions[p].links[k],
            ) by {
                let was = if p == peer && k >= i {
                    k + 1
                } else {
                    k
                };
                assert(m.sessions[p].links[k] == n.sessions[p].links[was]);
            }
        },
        None => {},
    }
}

/// Replacing one state.
proof fn lemma_state_replaced(
    held: Map<Seq<char>, PeerState>,
    before: Map<Seq<char>, PeerStateView>,
    peer: Seq<char>,
    entry: PeerStateView,
    s: PeerState,
)
    requires
        held.map_values(|s: PeerState| s@) == before.insert(peer, entry),
    ensures
        held.insert(peer, s).map_values(|s: PeerState| s@) == before.insert(peer, s@),
        held.dom().contains(peer),
        held[peer]@ == entry,
{
    let views = held.map_values(|s: PeerState| s@);
    assert(views.dom().contains(peer));
    assert(views[peer] == entry);
    assert forall|p: Seq<char>| p != peer && held.dom().contains(p) implies held[p]@
        == before[p] by {
        assert(views[p] == held[p]@);
    }
    assert forall|p: Seq<char>| held.dom().contains(p) == (before.dom().contains(p) || p
        == peer) by {
        assert(views.dom().contains(p) == held.dom().contains(p));
    }
    assert(held.insert(peer, s).map_values(|s: PeerState| s@) =~= before.insert(peer, s@));
}

/// A peer that has left.
pub struct Departure<C: ?Sized> {
    /// The connection that is to be closed, if there is one.
    pub conns: Vec<Arc<C>>,
    pub event: NodeEvent,
}

/// The peers that have left.
pub struct Shutdown<C: ?Sized> {
    /// The connections that are to be closed.
    pub conns: Vec<Arc<C>>,
    pub events: Vec<NodeEvent>,
}

impl<C: ?Sized> Node<C> {
    /// Sees to it that there is a state for a peer.
    fn ensure_state(&mut self, peer_id: &str, at: Instant)
        requires
            old(self).wf(),
        ensures
            final(self).wf(),
            final(self)@ == (NodeView {
                states: old(self)@.states.insert(
                    peer_id@,
                    entry_or_new(old(self)@.states, peer_id@, at),
                ),
                ..old(self)@
            }),
            final(self).conn_order() == old(self).conn_order(),
    {
        let ghost before = self@;
        if !self.peer_states.contains(peer_id) {
            let _ = self.peer_states.insert(peer_id.to_owned(), PeerState::new_at(at));
        }
        assert(self@.states =~= before.states.insert(
            peer_id@,
            entry_or_new(before.states, peer_id@, at),
        ));
    }

    /// Puts a peer into a state at `at`.
    pub fn set_peer_state_at(&mut self, peer_id: &str, new_state: NodeState, at: Instant)
        requires
            old(self).wf(),
        ensures
            final(self).wf(),
            final(self)@ == (NodeView {
                states: state_set(old(self)@.states, peer_id@, new_state, at),
                ..old(self)@
            }),
    {
        let ghost before = self@;
        self.ensure_state(peer_id, at);
        let ghost held = self.peer_states@;
        let ghost entry = entry_or_new(before.states, peer_id@, at);
        proof {
            lemma_state_replaced(held, before.states, peer_id@, entry, held[peer_id@]);
        }
        if let Some(s) = self.peer_states.get_mut(peer_id) {
            s.state = new_state;
        }
        proof {
            let now = self.peer_states@[peer_id@];
            lemma_state_replaced(held, before.states, peer_id@, entry, now);
            assert(self.peer_states@ =~= held.insert(peer_id@, now));
        }
    }

    /// Gives a peer a key at `at`.
    pub fn set_peer_aes_key_at(&mut self, peer_id: &str, key: Vec<u8>, at: Instant)
        requires
            old(self).wf(),
        ensures
            final(self).wf(),
            final(self)@ == (NodeView {
                states: key_set(old(self)@.states, peer_id@, key@, at),
                ..old(self)@
            }),
    {
        let ghost before = self@;
        self.ensure_state(peer_id, at);
        let ghost held = self.peer_states@;
        let ghost entry = entry_or_new(before.states, peer_id@, at);
        proof {
            lemma_state_replaced(held, before.states, peer_id@, entry, held[peer_id@]);
        }
        if let Some(s) = self.peer_states.get_mut(peer_id) {
            s.aes_key = Some(key);
        }
        proof {
            let now = self.peer_states@[peer_id@];
            lemma_state_replaced(held, before.states, peer_id@, entry, now);
            assert(self.peer_states@ =~= held.insert(peer_id@, now));
        }
    }

    /// Gives a peer a key.
    pub fn set_peer_aes_key(&mut self, peer_id: &str, key: Vec<u8>)
        requires
            old(self).wf(),
        ensures
            final(self).wf(),
            exists|at: Instant|
                final(self)@ == (NodeView {
                    states: #[trigger] key_set(old(self)@.states, peer_id@, key@, at),
                    ..old(self)@
                }),
    {
        let at = now();
        self.set_peer_aes_key_at(peer_id, key, at);
    }

    /// Marks a peer as connected at `at`.
    pub(crate) fn mark_connected(&mut self, peer_id: &str, at: Instant)
        requires
            old(self).wf(),
        ensures
            final(self).wf(),
            final(self)@ == (NodeView {
                states: state_connected(old(self)@.states, peer_id@, at),
                ..old(self)@
            }),
    {
        let ghost before = self@;
        self.ensure_state(peer_id, at);
        let ghost held = self.peer_states@;
        let ghost entry = entry_or_new(before.states, peer_id@, at);
        proof {
            lemma_state_replaced(held, before.states, peer_id@, entry, held[peer_id@]);
        }
        if let Some(s) = self.peer_states.get_mut(peer_id) {
            s.state = NodeState::Connected;
            s.last_heartbeat = Some(at);
        }
        proof {
            let now = self.peer_states@[peer_id@];
            lemma_state_replaced(held, before.states, peer_id@, entry, now);
            assert(self.peer_states@ =~= held.insert(peer_id@, now));
        }
    }

    /// Puts a connection in place at `at`, without a handshake.
    pub fn attach_connection_at(&mut self, peer_id: String, conn: Arc<C>, at: Instant) -> (event:
        NodeEvent)
        requires
            old(self).wf(),
        ensures
            final(self).wf(),
            final(self)@ == with_connection(old(self)@, peer_id@, conn, at),
            event@ == (NodeEventView::PeerConnected { peer_id: peer_id@ }),
    {
        let ghost before = self@;
        self.mark_connected(peer_id.as_str(), at);
        self.connections.add(peer_id.clone(), conn);
        let _ = self.held_links.remove(peer_id.as_str());
        assert(self@.held =~= before.held.remove(peer_id@));
        self.state = NodeState::Connected;
        NodeEvent::PeerConnected { peer_id }
    }

    /// Puts a connection in place, without a handshake.
    pub fn attach_connection(&mut self, peer_id: String, conn: Arc<C>) -> (event: NodeEvent)
        requires
            old(self).wf(),
        ensures
            final(self).wf(),
            exists|at: Instant|
                final(self)@ == #[trigger] with_connection(old(self)@, peer_id@, conn, at),
            event@ == (NodeEventView::PeerConnected { peer_id: peer_id@ }),
    {
        let at = now();
        self.attach_connection_at(peer_id, conn, at)
    }

    /// Lets a peer go: its connection is to be closed, and the link over it leaves the session.
    pub fn disconnect_peer(&mut self, peer_id: &str) -> (r: Departure<C>)
        requires
            old(self).wf(),
        ensures
            final(self).wf(),
            final(self)@ == without_peer(old(self)@, peer_id@),
            r.conns@ == closing(old(self)@, peer_id@),
            r.event@ == (NodeEventView::PeerDisconnected { peer_id: peer_id@ }),
    {
        let ghost before = self@;
        let mut conns: Vec<Arc<C>> = Vec::new();
        if let Some(conn) = self.connections.remove(peer_id) {
            conns.push(conn);
        }
        if let Some(link_id) = self.held_links.remove(peer_id) {
            let _ = self.connections.session_manager_mut().detach_link(peer_id, link_id.as_str());
        }
        assert(self@.held =~= before.held.remove(peer_id@));
        let _ = self.peer_manager.remove(peer_id);
        if let Some(s) = self.peer_states.get_mut(peer_id) {
            s.state = NodeState::Disconnected;
        }
        assert(self@.states =~= state_disconnected(before.states, peer_id@));
        assert(conns@ =~= closing(before, peer_id@));
        proof {
            lemma_peer_lost(before, peer_id@);
        }
        Departure { conns, event: NodeEvent::PeerDisconnected { peer_id: peer_id.to_owned() } }
    }

    /// Lets every peer go. The node can then be started again.
    pub fn stop(&mut self) -> (r: Shutdown<C>)
        requires
            old(self).wf(),
        ensures
            final(self).wf(),
            final(self)@ == (NodeView {
                state: NodeState::Idle,
                ..without_peers(old(self)@, old(self).conn_order())
            }),
            final(self)@.conns == Map::<Seq<char>, Arc<C>>::empty(),
            r.conns@ == closing_all(old(self)@, old(self).conn_order()),
            r.events@.len() == old(self).conn_order().len(),
            forall|i: int|
                0 <= i < r.events@.len() ==> (#[trigger] r.events@[i])@
                    == (NodeEventView::PeerDisconnected { peer_id: old(self).conn_order()[i] }),
    {
        let ghost before = self@;
        let ghost order = self.conn_order();
        proof {
            self.lemma_conn_order();
        }
        let ids = self.connections.list_ids();
        let mut conns: Vec<Arc<C>> = Vec::new();
        let mut events: Vec<NodeEvent> = Vec::new();
        let mut i: usize = 0;
        assert(order.take(0) =~= Seq::<Seq<char>>::empty());
        while i < ids.len()
            invariant
                i <= ids@.len(),
                crate::names::texts(ids@) == order,
                order.no_duplicates(),
                self.wf(),
                self@ == without_peers(before, order.take(i as int)),
                conns@ == closing_all(before, order.take(i as int)),
                events@.len() == i,
                forall|j: int|
                    0 <= j < i ==> (#[trigger] events@[j])@ == (NodeEventView::PeerDisconnected {
                        peer_id: order[j],
                    }),
            decreases ids@.len() - i,
        {
            let ghost gone = order.take(i as int);
            proof {
                assert(order.take(i + 1).drop_last() =~= gone);
                assert(order.take(i + 1).last() == order[i as int]);
                assert(crate::names::texts(ids@)[i as int] == ids@[i as int]@);
                lemma_without_peers(before, gone);
                assert(!gone.contains(order[i as int])) by {
                    if gone.contains(order[i as int]) {
                        let k = gone.index_of(order[i as int]);
                        assert(order[k] == order[i as int]);
                    }
                }
                assert(closing(self@, order[i as int]) == closing(before, order[i as int]));
            }
            let d = self.disconnect_peer(ids[i].as_str());
            let mut c = d.conns;
            conns.append(&mut c);
            events.push(d.event);
            i = i + 1;
        }
        assert(order.take(i as int) =~= order);
        proof {
            lemma_without_peers(before, order);
            assert forall|p: Seq<char>| !self@.conns.dom().contains(p) by {
                if self@.conns.dom().contains(p) {
                    assert(before.conns.dom().contains(p));
                }
            }
            assert(self@.conns =~= Map::<Seq<char>, Arc<C>>::empty());
        }
        self.state = NodeState::Idle;
        Shutdown { conns, events }
    }

    /// All known peers, each once.
    pub fn peers(&self) -> (r: Vec<Peer>)
        requires
            self.wf(),
        ensures
            lists_all(r@, self@.peers),
    {
        self.peer_manager.list()
    }

    pub fn get_peer(&self, id: &str) -> (r: Option<Peer>)
        requires
            self.wf(),
        ensures
            match r {
                Some(p) => self@.peers.dom().contains(id@) && p@ == self@.peers[id@],
                None => !self@.peers.dom().contains(id@),
            },
    {
        self.peer_manager.get(id)
    }

    pub fn peer_state(&self, id: &str) -> (r: Option<NodeState>)
        requires
            self.wf(),
        ensures
            r == if self@.states.dom().contains(id@) {
                Some(self@.states[id@].state)
            } else {
                None
            },
    {
        match self.peer_states.get(id) {
            Some(s) => Some(s.state),
            None => None,
        }
    }

    /// Whether there is a connection to a peer.
    pub fn has_peer(&self, app_uuid: &str) -> (r: bool)
        requires
            self.wf(),
        ensures
            r == self@.conns.dom().contains(app_uuid@),
    {
        self.connections.contains(app_uuid)
    }

    /// Tells that a peer was given up.
    pub fn mark_lost(&self, peer_id: &str) -> (event: NodeEvent)
        ensures
            event@ == (NodeEventView::PeerLost { peer_id: peer_id@ }),
    {
        NodeEvent::PeerLost { peer_id: peer_id.to_owned() }
    }

    /// Marks a peer as being dialled again at `at`.
    pub fn mark_reconnecting_at(&mut self, peer_id: &str, attempt: u32, at: Instant) -> (event:
        NodeEvent)
        requires
            old(self).wf(),
        ensures
            final(self).wf(),
            final(self)@ == (NodeView {
                states: state_set(old(self)@.states, peer_id@, NodeState::Reconnecting, at),
                ..old(self)@
            }),
            event@ == (NodeEventView::Reconnecting { peer_id: peer_id@, attempt }),
    {
        self.set_peer_state_at(peer_id, NodeState::Reconnecting, at);
        NodeEvent::Reconnecting { peer_id: peer_id.to_owned(), attempt }
    }

    /// Marks a peer as being dialled again.
    pub fn mark_reconnecting(&mut self, peer_id: &str, attempt: u32) -> (event: NodeEvent)
        requires
            old(self).wf(),
        ensures
            final(self).wf(),
            exists|at: Instant|
                final(self)@ == (NodeView {
                    states: #[trigger] state_set(
                        old(self)@.states,
                        peer_id@,
                        NodeState::Reconnecting,
                        at,
                    ),
                    ..old(self)@
                }),
            event@ == (NodeEventView::Reconnecting { peer_id: peer_id@, attempt }),
    {
        let at = now();
        self.mark_reconnecting_at(peer_id, attempt, at)
    }
}

/// Whatever is noted of a peer leaves the other peers alone, and of that peer everything else. A
/// peer of which nothing was known starts out connecting, without a key, with number 0.
pub proof fn noting_changes_one_peer(
    states: Map<Seq<char>, PeerStateView>,
    peer: Seq<char>,
    state: NodeState,
    key: Seq<u8>,
    at: Instant,
    other: Seq<char>,
)
    requires
        other != peer,
    ensures
        ({
            let was = entry_or_new(states, peer, at);
            let put = state_set(states, peer, state, at);
            let keyed = key_set(states, peer, key, at);
            let up = state_connected(states, peer, at);
            let down = state_disconnected(states, peer);
            &&& states.dom().contains(peer) ==> was == states[peer]
            &&& !states.dom().contains(peer) ==> was.seq == 0 && was.key is None
                && was.last_heartbeat is None && was.state is Connecting && was.policy
                == fresh_policy(at)
            &&& put[peer] == (PeerStateView { state, ..was })
            &&& keyed[peer] == (PeerStateView { key: Some(key), ..was })
            &&& up[peer] == (PeerStateView {
                state: NodeState::Connected,
                last_heartbeat: Some(at),
                ..was
            })
            &&& states.dom().contains(peer) ==> down[peer] == (PeerStateView {
                state: NodeState::Disconnected,
                ..states[peer]
            })
            &&& put.dom() == states.dom().insert(peer)
            &&& keyed.dom() == states.dom().insert(peer)
            &&& up.dom() == states.dom().insert(peer)
            &&& down.dom() == states.dom()
            &&& states.dom().contains(other) ==> put[other] == states[other] && keyed[other]
                == states[other] && up[other] == states[other] && down[other] == states[other]
        }),
{
    assert(state_set(states, peer, state, at).dom() =~= states.dom().insert(peer));
    assert(key_set(states, peer, key, at).dom() =~= states.dom().insert(peer));
    assert(state_connected(states, peer, at).dom() =~= states.dom().insert(peer));
    assert(state_disconnected(states, peer).dom() =~= states.dom());
}

/// A connection that is put in place is the peer's from then on, the node and the peer count as
/// connected, and no other peer, session or record changes.
pub proof fn attached_connection_is_the_peers<C: ?Sized>(
    n: NodeView<C>,
    peer: Seq<char>,
    conn: Arc<C>,
    at: Instant,
)
    ensures
        ({
            let m = with_connection(n, peer, conn, at);
            &&& m.conns == n.conns.insert(peer, conn)
            &&& m.held == n.held.remove(peer)
            &&& m.states[peer].state is Connected
            &&& m.states[peer].last_heartbeat == Some(at)
            &&& m.state is Connected
            &&& m == (NodeView {
                conns: m.conns,
                held: m.held,
                states: m.states,
                state: m.state,
                ..n
            })
        }),
{
}

/// A peer that goes takes with it its connection, its record, and the link over that connection.
/// Its state says so, and keeps its key and numbers. Nothing of any other peer changes, and
/// nothing of the node itself.
pub proof fn departure_takes_one_peer<C: ?Sized>(n: NodeView<C>, peer: Seq<char>, other: Seq<char>)
    requires
        other != peer,
    ensures
        ({
            let m = without_peer(n, peer);
            &&& m.conns == n.conns.remove(peer)
            &&& m.peers == n.peers.remove(peer)
            &&& !m.held.dom().contains(peer)
            &&& m.states.dom() == n.states.dom()
            &&& n.states.dom().contains(peer) ==> m.states[peer] == (PeerStateView {
                state: NodeState::Disconnected,
                ..n.states[peer]
            })
            &&& n.states.dom().contains(other) ==> m.states[other] == n.states[other]
            &&& m.sessions.dom().contains(other) <==> n.sessions.dom().contains(other)
            &&& n.sessions.dom().contains(other) ==> m.sessions[other] == n.sessions[other]
            &&& m.held.dom().contains(other) <==> n.held.dom().contains(other)
            &&& n.held.dom().contains(other) ==> m.held[other] == n.held[other]
            &&& !n.held.dom().contains(peer) ==> m.sessions == n.sessions
            &&& m == (NodeView {
                conns: m.conns,
                peers: m.peers,
                held: m.held,
                states: m.states,
                sessions: m.sessions,
                ..n
            })
        }),
        closing(n, peer) == if n.conns.dom().contains(peer) {
            seq![n.conns[peer]]
        } else {
            Seq::empty()
        },
{
    assert(state_disconnected(n.states, peer).dom() =~= n.states.dom());
}

/// When a node stops, the connection of every peer is handed out to be closed, in order, and all
/// of those peers are gone. What is known of the others stays.
pub proof fn stopping_closes_every_connection<C: ?Sized>(
    n: NodeView<C>,
    peers: Seq<Seq<char>>,
    other: Seq<char>,
)
    requires
        forall|i: int| 0 <= i < peers.len() ==> n.conns.dom().contains(#[trigger] peers[i]),
    ensures
        closing_all(n, peers).len() == peers.len(),
        forall|i: int|
            0 <= i < peers.len() ==> #[trigger] closing_all(n, peers)[i] == n.conns[peers[i]],
        ({
            let m = without_peers(n, peers);
            &&& forall|i: int|
                0 <= i < peers.len() ==> {
                    &&& !m.conns.dom().contains(#[trigger] peers[i])
                    &&& !m.peers.dom().contains(peers[i])
                    &&& !m.held.dom().contains(peers[i])
                    &&& n.states.dom().contains(peers[i]) ==> m.states.dom().contains(peers[i])
                        && m.states[peers[i]].state is Disconnected && m.states[peers[i]].key
                        == n.states[peers[i]].key
                }
            &&& !peers.contains(other) ==> {
                &&& m.conns.dom().contains(other) == n.conns.dom().contains(other)
                &&& m.peers.dom().contains(other) == n.peers.dom().contains(other)
                &&& m.states.dom().contains(other) == n.states.dom().contains(other)
                &&& m.states[other] == n.states[other]
                &&& m.sessions.dom().contains(other) == n.sessions.dom().contains(other)
                &&& m.sessions[other] == n.sessions[other]
            }
            &&& m.rooms == n.rooms && m.config == n.config && m.app_uuid == n.app_uuid && m.trusted
                == n.trusted
        }),
    decreases peers.len(),
{
    if peers.len() > 0 {
        let rest = peers.drop_last();
        let last = peers.last();
        assert forall|i: int| 0 <= i < rest.len() implies n.conns.dom().contains(
            #[trigger] rest[i],
        ) by {
            assert(rest[i] == peers[i]);
        }
        stopping_closes_every_connection(n, rest, other);
        let k = without_peers(n, rest);
        let m = without_peers(n, peers);
        assert(n.conns.dom().contains(peers[peers.len() - 1]));
        if !peers.contains(other) {
            assert(peers[peers.len() - 1] == last);
            assert(other != last);
            assert(!rest.contains(other)) by {
                if rest.contains(other) {
                    let i = rest.index_of(other);
                    assert(peers[i] == other);
                }
            }
            departure_takes_one_peer(k, last, other);
        }
        stopping_closes_every_connection(n, rest, last);
        assert forall|i: int| 0 <= i < peers.len() implies {
            &&& !m.conns.dom().contains(#[trigger] peers[i])
            &&& !m.peers.dom().contains(peers[i])
            &&& !m.held.dom().contains(peers[i])
            &&& n.states.dom().contains(peers[i]) ==> m.states.dom().contains(peers[i])
                && m.states[peers[i]].state is Disconnected && m.states[peers[i]].key
                == n.states[peers[i]].key
        } by {
            if i < rest.len() {
                assert(rest[i] == peers[i]);
            }
            if rest.contains(peers[i]) {
                let j = rest.index_of(peers[i]);
                assert(rest[j] == peers[i]);
            } else {
                assert(peers[i] == last);
            }
        }
    }
}

/// The link over a lost connection leaves the peer's session: it is the first one with the id under
/// which the node holds it. The others stay, in their order, and the session goes with the last.
pub proof fn link_of_a_lost_connection_leaves<C: ?Sized>(n: NodeView<C>, peer: Seq<char>, i: int)
    requires
        n.held.dom().contains(peer),
        n.sessions.dom().contains(peer),
        0 <= i < n.sessions[peer].links.len(),
        n.sessions[peer].links[i].id == n.held[peer],
        forall|j: int|
            0 <= j < i ==> (#[trigger] n.sessions[peer].links[j]).id != n.held[peer],
    ensures
        held_link(n, peer) == Some(i),
        ({
            let links = n.sessions[peer].links;
            let m = without_peer(n, peer);
            &&& links.len() == 1 ==> m.sessions == n.sessions.remove(peer)
            &&& links.len() > 1 ==> m.sessions.dom() == n.sessions.dom() && m.sessions[peer].links
                == links.remove(i) && m.sessions[peer].session_id == n.sessions[peer].session_id
                && m.sessions[peer].unacked == n.sessions[peer].unacked && m.sessions[peer].window
                == n.sessions[peer].window && m.sessions[peer].next_seq
                == n.sessions[peer].next_seq
        }),
{
    lemma_link_place(n.sessions[peer].links, n.held[peer], i);
    let m = without_peer(n, peer);
    if n.sessions[peer].links.len() > 1 {
        assert(m.sessions.dom() =~= n.sessions.dom());
    }
}

} // verus!
