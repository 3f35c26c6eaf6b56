//! The sessions of all peers.

use std::sync::Arc;

use vstd::prelude::*;

use crate::mesh::link::{Link, LinkView, TransportKind};
use crate::mesh::session::io::{
    link_place, snapshot_tells_the_active_link, status_matches,
};
use crate::mesh::session::types::{
    AckPending, LinkStatus, SessionEvent, MAX_LINKS_PER_PEER,
};
use crate::mesh::session::{has_link, within_limits, Session, SessionView};
use crate::names::texts;
use crate::protocol::seq::WindowView;
use crate::random::random_bytes;
use crate::strmap::StrMap;
use crate::text::{bytes_eq, str_eq};

verus! {

/// What came of attaching a link to a peer.
#[derive(Debug, Clone, Copy, PartialEq, Eq)]
pub enum AttachOutcome {
    CreatedNew { session_id: [u8; 16] },
    AttachedExisting,
    RejectedDuplicateKind,
    RejectedCapacity,
    RejectedSessionMismatch,
}

/// A link that was taken out of its session.
pub struct Detached<C: ?Sized> {
    /// The connection, which is to be closed.
    pub conn: Arc<C>,
    pub event: SessionEvent,
    /// Whether that was the last link, and the session went with it.
    pub peer_dropped: bool,
}

/// One session for each peer.
pub struct SessionManager<C: ?Sized> {
    peers: StrMap<Session<C>>,
}

/// Whether some link is of this kind.
pub open spec fn has_kind<C: ?Sized>(links: Seq<LinkView<C>>, kind: TransportKind) -> bool {
    exists|i: int| 0 <= i < links.len() && (#[trigger] links[i]).kind == kind
}

/// What comes of attaching a link of this kind. Only the first link of a peer opens a session,
/// under the id `fresh`; a link that names a session must name the right one.
pub open spec fn attach_outcome<C: ?Sized>(
    sessions: Map<Seq<char>, SessionView<C>>,
    peer: Seq<char>,
    kind: TransportKind,
    hint: Option<[u8; 16]>,
    fresh: [u8; 16],
) -> AttachOutcome {
    if sessions.dom().contains(peer) {
        let s = sessions[peer];
        if hint is Some && hint->0 != s.session_id {
            AttachOutcome::RejectedSessionMismatch
        } else if s.links.len() >= MAX_LINKS_PER_PEER {
            AttachOutcome::RejectedCapacity
        } else if has_kind(s.links, kind) {
            AttachOutcome::RejectedDuplicateKind
        } else {
            AttachOutcome::AttachedExisting
        }
    } else if hint is Some {
        AttachOutcome::RejectedSessionMismatch
    } else {
        AttachOutcome::CreatedNew { session_id: fresh }
    }
}

/// A session with one link, which is active.
pub open spec fn opened<C: ?Sized>(peer: Seq<char>, id: [u8; 16], link: LinkView<C>) -> SessionView<
    C,
> {
    SessionView {
        peer_id: peer,
        session_id: id,
        links: seq![link],
        active: Some(link.id),
        next_seq: 0,
        window: WindowView { last: None, marks: Set::empty() },
        unacked: Seq::empty(),
        streaks: Map::empty(),
        ack_pending: AckPending { count: 0, first_pending_at: None },
    }
}

/// The sessions after a link was attached, or refused.
pub open spec fn attached<C: ?Sized>(
    sessions: Map<Seq<char>, SessionView<C>>,
    peer: Seq<char>,
    link: LinkView<C>,
    outcome: AttachOutcome,
) -> Map<Seq<char>, SessionView<C>> {
    match outcome {
        AttachOutcome::CreatedNew { session_id } => sessions.insert(
            peer,
            opened(peer, session_id, link),
        ),
        AttachOutcome::AttachedExisting => sessions.insert(
            peer,
            SessionView { links: sessions[peer].links.push(link), ..sessions[peer] },
        ),
        _ => sessions,
    }
}

/// The event that tells of an attached link.
pub open spec fn attach_event<C: ?Sized>(
    event: Option<SessionEvent>,
    peer: Seq<char>,
    link: LinkView<C>,
    outcome: AttachOutcome,
) -> bool {
    match outcome {
        AttachOutcome::CreatedNew { .. } | AttachOutcome::AttachedExisting => event matches Some(ev)
            && ev.is_added(peer, link.id, link.kind),
        _ => event is None,
    }
}

/// A session without one of its links. Where that was the active one, none is active.
pub open spec fn without_link<C: ?Sized>(s: SessionView<C>, i: int) -> SessionView<C> {
    SessionView {
        links: s.links.remove(i),
        active: if s.active == Some(s.links[i].id) {
            None
        } else {
            s.active
        },
        ..s
    }
}

/// The sessions after a link was detached. A session goes with its last link.
pub open spec fn detached<C: ?Sized>(
    sessions: Map<Seq<char>, SessionView<C>>,
    peer: Seq<char>,
    i: int,
) -> Map<Seq<char>, SessionView<C>> {
    if sessions[peer].links.len() == 1 {
        sessions.remove(peer)
    } else {
        sessions.insert(peer, without_link(sessions[peer], i))
    }
}

impl<C: ?Sized> View for SessionManager<C> {
    type V = Map<Seq<char>, SessionView<C>>;

    closed spec fn view(&self) -> Map<Seq<char>, SessionView<C>> {
        self.peers@.map_values(|s: Session<C>| s@)
    }
}

impl<C: ?Sized> SessionManager<C> {
    /// Every session is well-formed and stands under its own peer.
    pub closed spec fn wf(&self) -> bool {
        &&& self.peers.wf()
        &&& forall|p: Seq<char>|
            self.peers@.dom().contains(p) ==> (#[trigger] self.peers@[p]).wf()
                && self.peers@[p]@.peer_id == p
    }

    /// The peers, in the order in which their sessions were opened.
    pub closed spec fn peer_order(&self) -> Seq<Seq<char>> {
        self.peers.key_seq()
    }

    /// Every peer stands in the order once.
    pub proof fn each_peer_stands_once(&self)
        requires
            self.wf(),
        ensures
            self.peer_order().no_duplicates(),
            forall|p: Seq<char>| self@.dom().contains(p) <==> self.peer_order().contains(p),
    {
        self.peers.lemma_key_seq();
    }

    pub fn new() -> (m: Self)
        ensures
            m.wf(),
            m@ == Map::<Seq<char>, SessionView<C>>::empty(),
    {
        let m = SessionManager { peers: StrMap::new() };
        assert(m@ =~= Map::<Seq<char>, SessionView<C>>::empty());
        m
    }

    /// [`SessionManager::attach_link`], where a new session gets the id `fresh`.
    pub fn attach_link_as(
        &mut self,
        peer_id: &str,
        link: Link<C>,
        session_id_hint: Option<[u8; 16]>,
        fresh: [u8; 16],
    ) -> (r: (AttachOutcome, Option<SessionEvent>))
        requires
            old(self).wf(),
            link.wf(),
        ensures
            final(self).wf(),
            r.0 == attach_outcome(old(self)@, peer_id@, link@.kind, session_id_hint, fresh),
            final(self)@ == attached(old(self)@, peer_id@, link@, r.0),
            attach_event(r.1, peer_id@, link@, r.0),
    {
        let ghost before = self@;
        let event = SessionEvent::LinkAdded {
            peer_id: peer_id.to_owned(),
            link_id: link.id().to_owned(),
            kind: link.kind(),
        };
        let ghost was = self.peers@;
        match self.peers.get_mut(peer_id) {
            Some(session) => {
                if let Some(h) = session_id_hint {
                    if !bytes_eq(&h, &session.session_id) {
                        assert(h != session.session_id);
                        assert(was.insert(peer_id@, *session) =~= was);
                        return (AttachOutcome::RejectedSessionMismatch, None);
                    }
                    assert(h =~= session.session_id);
                }
                if session.links.len() >= MAX_LINKS_PER_PEER {
                    assert(was.insert(peer_id@, *session) =~= was);
                    return (AttachOutcome::RejectedCapacity, None);
                }
                if session.has_kind_of(link.kind()) {
                    assert(was.insert(peer_id@, *session) =~= was);
                    return (AttachOutcome::RejectedDuplicateKind, None);
                }
                session.push_link(link);
                assert(after_borrow(self.peers)@ == was.insert(peer_id@, *session));
                assert(after_borrow(self.peers)@.map_values(|s: Session<C>| s@) =~= before.insert(
                    peer_id@,
                    session@,
                ));
                (AttachOutcome::AttachedExisting, Some(event))
            },
            None => {
                if session_id_hint.is_some() {
                    return (AttachOutcome::RejectedSessionMismatch, None);
                }
                let session = Session::opened_with(peer_id, fresh, link);
                let _ = self.peers.insert(peer_id.to_owned(), session);
                assert(self@ =~= before.insert(peer_id@, session@));
                (AttachOutcome::CreatedNew { session_id: fresh }, Some(event))
            },
        }
    }

    /// Attaches a link to a peer. The first link opens a session, under a random id.
    pub fn attach_link(
        &mut self,
        peer_id: &str,
        link: Link<C>,
        session_id_hint: Option<[u8; 16]>,
    ) -> (r: (AttachOutcome, Option<SessionEvent>))
        requires
            old(self).wf(),
            link.wf(),
        ensures
            final(self).wf(),
            exists|fresh: [u8; 16]|
                r.0 == #[trigger] attach_outcome(
                    old(self)@,
                    peer_id@,
                    link@.kind,
                    session_id_hint,
                    fresh,
                ),
            final(self)@ == attached(old(self)@, peer_id@, link@, r.0),
            attach_event(r.1, peer_id@, link@, r.0),
    {
        let fresh: [u8; 16] = random_bytes();
        self.attach_link_as(peer_id, link, session_id_hint, fresh)
    }

    /// The session of a peer.
    pub fn get(&self, peer_id: &str) -> (r: Option<&Session<C>>)
        requires
            self.wf(),
        ensures
            match r {
                Some(s) => s.wf() && self@.dom().contains(peer_id@) && s@ == self@[peer_id@],
                None => !self@.dom().contains(peer_id@),
            },
    {
        self.peers.get(peer_id)
    }

    /// The session of a peer, to be worked on. It must stay well-formed and that peer's.
    pub fn get_mut(&mut self, peer_id: &str) -> (r: Option<&mut Session<C>>)
        requires
            old(self).wf(),
        ensures
            match r {
                Some(s) => {
                    &&& s.wf()
                    &&& old(self)@.dom().contains(peer_id@)
                    &&& s@ == old(self)@[peer_id@]
                    &&& s@.peer_id == peer_id@
                    &&& final(s).wf() && final(s)@.peer_id == peer_id@ ==> final(self).wf()
                    &&& final(self)@ == old(self)@.insert(peer_id@, final(s)@)
                },
                None => !old(self)@.dom().contains(peer_id@) && final(self)@ == old(self)@
                    && final(self).wf(),
            },
    {
        let ghost was = self.peers@;
        let r = self.peers.get_mut(peer_id);
        proof {
            if r is Some {
                let now = *final(r->0);
                assert(after_borrow(self.peers)@.map_values(|s: Session<C>| s@)
                    =~= was.map_values(|s: Session<C>| s@).insert(peer_id@, now@));
            }
        }
        r
    }

    pub fn contains(&self, peer_id: &str) -> (r: bool)
        requires
            self.wf(),
        ensures
            r == self@.dom().contains(peer_id@),
    {
        self.peers.contains(peer_id)
    }

    /// Takes a whole session out. The connections of its links are to be closed.
    pub fn drop_peer(&mut self, peer_id: &str) -> (r: Option<Session<C>>)
        requires
            old(self).wf(),
        ensures
            final(self).wf(),
            final(self)@ == old(self)@.remove(peer_id@),
            match r {
                Some(s) => s.wf() && old(self)@.dom().contains(peer_id@) && s@
                    == old(self)@[peer_id@],
                None => !old(self)@.dom().contains(peer_id@),
            },
    {
        let ghost before = self@;
        let r = self.peers.remove(peer_id);
        assert(self@ =~= before.remove(peer_id@));
        r
    }

    /// Takes one link out of a session, if it is there.
    pub fn detach_link(&mut self, peer_id: &str, link_id: &str) -> (r: Option<Detached<C>>)
        requires
            old(self).wf(),
        ensures
            final(self).wf(),
            if old(self)@.dom().contains(peer_id@) && has_link(
                old(self)@[peer_id@].links,
                link_id@,
            ) {
                let s = old(self)@[peer_id@];
                &&& link_place(s.links, link_id@) matches Some(i)
                &&& final(self)@ == detached(old(self)@, peer_id@, i)
                &&& r matches Some(d)
                &&& d.conn == s.links[i].conn
                &&& d.event.is_removed(peer_id@, link_id@, "detach"@)
                &&& d.peer_dropped == !final(self)@.dom().contains(peer_id@)
            } else {
                r is None && final(self)@ == old(self)@
            },
    {
        let ghost before = self@;
        let taken = match self.get_mut(peer_id) {
            None => {
                return None;
            },
            Some(session) => match session.take_link(link_id) {
                None => None,
                Some(conn) => Some((conn, session.links.len() == 0)),
            },
        };
        let (conn, peer_dropped) = match taken {
            None => {
                assert(self@ =~= before);
                return None;
            },
            Some(t) => t,
        };
        if peer_dropped {
            let _ = self.drop_peer(peer_id);
            assert(self@ =~= before.remove(peer_id@));
        }
        let event = SessionEvent::LinkRemoved {
            peer_id: peer_id.to_owned(),
            link_id: link_id.to_owned(),
            reason: "detach".to_owned(),
        };
        Some(Detached { conn, event, peer_dropped })
    }

    /// A snapshot of every link of every peer.
    pub fn list_status(&self) -> (r: Vec<(String, Vec<LinkStatus>)>)
        requires
            self.wf(),
        ensures
            r@.len() == self.peer_order().len(),
            forall|i: int|
                0 <= i < r@.len() ==> (#[trigger] r@[i]).0@ == self.peer_order()[i] && statuses_of(
                    r@[i].1@,
                    self@[self.peer_order()[i]],
                ),
    {
        let n: usize = self.peers.len();
        let mut r: Vec<(String, Vec<LinkStatus>)> = Vec::new();
        let mut i: usize = 0;
        while i < n
            invariant
                i <= n,
                n == self.peer_order().len(),
                self.wf(),
                r@.len() == i,
                forall|j: int|
                    0 <= j < i ==> (#[trigger] r@[j]).0@ == self.peer_order()[j] && statuses_of(
                        r@[j].1@,
                        self@[self.peer_order()[j]],
                    ),
            decreases n - i,
        {
            let id = self.peers.key_at(i).clone();
            let status = self.peers.value_at(i).status();
            r.push((id, status));
            i = i + 1;
        }
        r
    }

    /// A snapshot of every link of one peer.
    pub fn peer_link_status(&self, peer_id: &str) -> (r: Vec<LinkStatus>)
        requires
            self.wf(),
        ensures
            if self@.dom().contains(peer_id@) {
                statuses_of(r@, self@[peer_id@])
            } else {
                r@.len() == 0
            },
    {
        match self.get(peer_id) {
            Some(s) => s.status(),
            None => Vec::new(),
        }
    }

    pub fn peers(&self) -> (r: Vec<String>)
        requires
            self.wf(),
        ensures
            texts(r@) == self.peer_order(),
    {
        let r = self.peers.keys();
        assert(texts(r@) =~= self.peer_order());
        r
    }

    pub fn count(&self) -> (n: usize)
        requires
            self.wf(),
        ensures
            n == self@.dom().len(),
            n == self.peer_order().len(),
    {
        let n: usize = self.peers.len();
        assert(self@.dom() =~= self.peers@.dom());
        n
    }
}

impl<C: ?Sized> Default for SessionManager<C> {
    fn default() -> (m: Self)
        ensures
            m.wf(),
            m@ == Map::<Seq<char>, SessionView<C>>::empty(),
    {
        Self::new()
    }
}

/// Whether these are the snapshots of the links of a session, in order.
pub open spec fn statuses_of<C: ?Sized>(r: Seq<LinkStatus>, s: SessionView<C>) -> bool {
    &&& r.len() == s.links.len()
    &&& forall|i: int| 0 <= i < r.len() ==> status_matches(#[trigger] r[i], s.links[i], s.active)
}

/// Whether every session keeps to its limits.
pub open spec fn all_within_limits<C: ?Sized>(sessions: Map<Seq<char>, SessionView<C>>) -> bool {
    forall|p: Seq<char>| sessions.dom().contains(p) ==> within_limits(#[trigger] sessions[p])
}

/// Attaching a link never takes a session beyond its limits: at most four links, and no two of
/// them of a kind.
pub proof fn attaching_keeps_limits<C: ?Sized>(
    sessions: Map<Seq<char>, SessionView<C>>,
    peer: Seq<char>,
    link: LinkView<C>,
    hint: Option<[u8; 16]>,
    fresh: [u8; 16],
)
    requires
        all_within_limits(sessions),
    ensures
        all_within_limits(
            attached(
                sessions,
                peer,
                link,
                attach_outcome(sessions, peer, link.kind, hint, fresh),
            ),
        ),
{
    let after = attached(
        sessions,
        peer,
        link,
        attach_outcome(sessions, peer, link.kind, hint, fresh),
    );
    assert forall|p: Seq<char>| after.dom().contains(p) implies within_limits(
        #[trigger] after[p],
    ) by {
        if p != peer {
            assert(after[p] == sessions[p]);
        } else if sessions.dom().contains(peer) {
            assert(within_limits(sessions[peer]));
        }
    }
}

/// Detaching a link keeps every session within its limits.
pub proof fn detaching_keeps_limits<C: ?Sized>(
    sessions: Map<Seq<char>, SessionView<C>>,
    peer: Seq<char>,
    i: int,
)
    requires
        all_within_limits(sessions),
        sessions.dom().contains(peer),
        0 <= i < sessions[peer].links.len(),
    ensures
        all_within_limits(detached(sessions, peer, i)),
{
    let after = detached(sessions, peer, i);
    assert forall|p: Seq<char>| after.dom().contains(p) implies within_limits(
        #[trigger] after[p],
    ) by {
        if p != peer {
            assert(after[p] == sessions[p]);
        } else {
            let links = sessions[peer].links;
            assert(within_limits(sessions[peer]));
            assert forall|a: int, b: int|
                0 <= a < after[p].links.len() && 0 <= b < after[p].links.len()
                    && #[trigger] after[p].links[a].kind
                    == #[trigger] after[p].links[b].kind implies a == b by {
                let a1 = if a < i {
                    a
                } else {
                    a + 1
                };
                let b1 = if b < i {
                    b
                } else {
                    b + 1
                };
                assert(links[a1].kind == links[b1].kind);
            }
        }
    }
}

/// A link joins the session of a peer where it is the first of its kind there and one of at most
/// four, and names that session or none. It stands behind the others, and the active link stays.
/// Else it is refused: for another session's id, then for lack of room, then for its kind.
pub proof fn link_of_a_new_kind_joins<C: ?Sized>(
    sessions: Map<Seq<char>, SessionView<C>>,
    peer: Seq<char>,
    link: LinkView<C>,
    hint: Option<[u8; 16]>,
    fresh: [u8; 16],
)
    requires
        sessions.dom().contains(peer),
    ensures
        ({
            let s = sessions[peer];
            let outcome = attach_outcome(sessions, peer, link.kind, hint, fresh);
            let after = attached(sessions, peer, link, outcome);
            let right = hint is None || hint->0 == s.session_id;
            let taken = exists|i: int|
                0 <= i < s.links.len() && (#[trigger] s.links[i]).kind == link.kind;
            &&& outcome is RejectedSessionMismatch <==> !right
            &&& outcome is RejectedCapacity <==> right && s.links.len() >= 4
            &&& outcome is RejectedDuplicateKind <==> right && s.links.len() < 4 && taken
            &&& outcome is AttachedExisting <==> right && s.links.len() < 4 && !taken
            &&& outcome is AttachedExisting ==> after == sessions.insert(
                peer,
                SessionView { links: s.links.push(link), ..s },
            )
            &&& !(outcome is AttachedExisting) ==> after == sessions
        }),
{
}

/// The first link of a peer opens a session under the fresh id, with nothing sent, received or
/// waiting, and carries the traffic; unless it names a session, of which there is none.
pub proof fn first_link_opens_a_session<C: ?Sized>(
    sessions: Map<Seq<char>, SessionView<C>>,
    peer: Seq<char>,
    link: LinkView<C>,
    hint: Option<[u8; 16]>,
    fresh: [u8; 16],
)
    requires
        !sessions.dom().contains(peer),
    ensures
        ({
            let outcome = attach_outcome(sessions, peer, link.kind, hint, fresh);
            let after = attached(sessions, peer, link, outcome);
            &&& hint is Some ==> outcome is RejectedSessionMismatch && after == sessions
            &&& hint is None ==> {
                &&& outcome == AttachOutcome::CreatedNew { session_id: fresh }
                &&& after.dom() == sessions.dom().insert(peer)
                &&& after[peer].peer_id == peer
                &&& after[peer].session_id == fresh
                &&& after[peer].links == seq![link]
                &&& after[peer].active == Some(link.id)
                &&& after[peer].next_seq == 0
                &&& after[peer].window.last is None
                &&& after[peer].window.marks == Set::<u32>::empty()
                &&& after[peer].unacked.len() == 0
                &&& after[peer].ack_pending.count == 0
                &&& after[peer].ack_pending.first_pending_at is None
                &&& after[peer].streaks.dom() == Set::<Seq<char>>::empty()
            }
        }),
{
    let outcome = attach_outcome(sessions, peer, link.kind, hint, fresh);
    assert(attached(sessions, peer, link, AttachOutcome::CreatedNew { session_id: fresh }).dom()
        =~= sessions.dom().insert(peer));
}

/// What is attached is told, and what is refused is not.
pub proof fn attached_link_is_told<C: ?Sized>(
    event: Option<SessionEvent>,
    peer: Seq<char>,
    link: LinkView<C>,
    outcome: AttachOutcome,
)
    requires
        attach_event(event, peer, link, outcome),
    ensures
        event is Some <==> outcome is CreatedNew || outcome is AttachedExisting,
        event matches Some(ev) ==> (ev matches SessionEvent::LinkAdded { peer_id, link_id, kind }
            && peer_id@ == peer && link_id@ == link.id && kind == link.kind),
{
}

/// A session that loses one of several links keeps everything else, but for the active link where
/// that was the one.
pub proof fn session_outlives_a_link<C: ?Sized>(
    sessions: Map<Seq<char>, SessionView<C>>,
    peer: Seq<char>,
    i: int,
)
    requires
        sessions.dom().contains(peer),
        0 <= i < sessions[peer].links.len(),
        sessions[peer].links.len() > 1,
    ensures
        ({
            let s = sessions[peer];
            let t = detached(sessions, peer, i)[peer];
            &&& t == (SessionView { links: t.links, active: t.active, ..s })
            &&& t.active is None <==> s.active is None || s.active->0 == s.links[i].id
            &&& t.active is Some ==> t.active == s.active
            &&& t.links.len() == s.links.len() - 1
            &&& forall|k: int|
                0 <= k < s.links.len() && k != i ==> #[trigger] s.links[k] == t.links[if k < i {
                    k
                } else {
                    k - 1
                }]
        }),
{
}

/// A peer's snapshot covers each of its links, in order.
pub proof fn snapshot_covers_every_link<C: ?Sized>(r: Seq<LinkStatus>, s: SessionView<C>, i: int)
    requires
        statuses_of(r, s),
        0 <= i < s.links.len(),
    ensures
        r.len() == s.links.len(),
        r[i].link_id@ == s.links[i].id,
        r[i].kind == s.links[i].kind,
        r[i].health == s.links[i].health,
        r[i].role is Active <==> s.active is Some && s.active->0 == s.links[i].id,
{
    snapshot_tells_the_active_link(r[i], s.links[i], s.active);
}

/// Attaching a link to one peer leaves the sessions of all others as they were, and the links
/// that the peer has; a refused link changes nothing.
pub proof fn attaching_is_local<C: ?Sized>(
    sessions: Map<Seq<char>, SessionView<C>>,
    peer: Seq<char>,
    link: LinkView<C>,
    hint: Option<[u8; 16]>,
    fresh: [u8; 16],
)
    ensures
        ({
            let outcome = attach_outcome(sessions, peer, link.kind, hint, fresh);
            let after = attached(sessions, peer, link, outcome);
            &&& forall|p: Seq<char>|
                p != peer ==> after.dom().contains(p) == sessions.dom().contains(p)
                    && #[trigger] after[p] == sessions[p]
            &&& !(outcome is CreatedNew || outcome is AttachedExisting) ==> after == sessions
            &&& sessions.dom().contains(peer) ==> forall|i: int|
                0 <= i < sessions[peer].links.len() ==> #[trigger] after[peer].links[i]
                    == sessions[peer].links[i]
        }),
{
}

/// Detaching a link leaves the sessions of all other peers as they were, and the peer's other
/// links in their order.
pub proof fn detaching_is_local<C: ?Sized>(
    sessions: Map<Seq<char>, SessionView<C>>,
    peer: Seq<char>,
    i: int,
)
    requires
        sessions.dom().contains(peer),
        0 <= i < sessions[peer].links.len(),
    ensures
        ({
            let after = detached(sessions, peer, i);
            &&& forall|p: Seq<char>|
                p != peer ==> after.dom().contains(p) == sessions.dom().contains(p)
                    && #[trigger] after[p] == sessions[p]
            &&& after.dom().contains(peer) <==> sessions[peer].links.len() > 1
            &&& after.dom().contains(peer) ==> after[peer].links == sessions[peer].links.take(i)
                + sessions[peer].links.skip(i + 1)
        }),
{
    let after = detached(sessions, peer, i);
    if after.dom().contains(peer) {
        assert(after[peer].links =~= sessions[peer].links.take(i) + sessions[peer].links.skip(
            i + 1,
        ));
    }
}

impl<C: ?Sized> Session<C> {
    fn has_kind_of(&self, kind: TransportKind) -> (r: bool)
        ensures
            r == has_kind(self@.links, kind),
    {
        let mut i: usize = 0;
        while i < self.links.len()
            invariant
                i <= self.links.len(),
                forall|j: int| 0 <= j < i ==> (#[trigger] self@.links[j]).kind != kind,
            decreases self.links.len() - i,
        {
            let k = self.links[i].kind();
            assert(self.links@[i as int]@ == self@.links[i as int]);
            if k == kind {
                return true;
            }
            i = i + 1;
        }
        false
    }

    /// Takes the first link with this id out.
    fn take_link(&mut self, link_id: &str) -> (r: Option<Arc<C>>)
        requires
            old(self).wf(),
        ensures
            final(self).wf(),
            match r {
                Some(conn) => {
                    &&& has_link(old(self)@.links, link_id@)
                    &&& link_place(old(self)@.links, link_id@) matches Some(i)
                    &&& conn == old(self)@.links[i].conn
                    &&& final(self)@ == without_link(old(self)@, i)
                    &&& final(self).links@.len() == old(self)@.links.len() - 1
                },
                None => !has_link(old(self)@.links, link_id@) && final(self)@ == old(self)@,
            },
    {
        let ghost before = self@;
        let i: usize = match self.position(link_id) {
            None => {
                return None;
            },
            Some(i) => i,
        };
        let link = self.links.remove(i);
        assert(link@ == before.links[i as int]);
        assert(self@.links =~= before.links.remove(i as int));
        let was_active = match &self.active {
            Some(id) => str_eq(id.as_str(), link_id),
            None => false,
        };
        if was_active {
            self.active = None;
        }
        Some(link.conn().clone())
    }

    fn opened_with(peer_id: &str, session_id: [u8; 16], link: Link<C>) -> (s: Self)
        requires
            link.wf(),
        ensures
            s.wf(),
            s@ == opened(peer_id@, session_id, link@),
    {
        let mut s = Session::new(peer_id.to_owned(), session_id);
        s.active = Some(link.id().to_owned());
        s.push_link(link);
        assert(s@.links =~= seq![link@]);
        assert(s@.unacked =~= Seq::empty());
        s
    }
}

} // verus!
