//! A session: everything that two peers share across the links between them.

use std::sync::Arc;

use vstd::prelude::*;

use crate::mesh::link::{Link, LinkView};
use crate::protocol::ack::{UnackedRing, UNACKED_RING_CAP};
use crate::protocol::seq::{window_ok, DedupWindow, SeqGen, WindowView};
use crate::mesh::session::types::{AckPending, PendingFrame, SchedulerState, MAX_LINKS_PER_PEER};

pub mod io;
pub mod manager;
pub mod reader;
pub mod types;

verus! {

/// The state that is shared by all links to one peer.
pub struct Session<C: ?Sized> {
    pub(crate) peer_id: String,
    pub(crate) session_id: [u8; 16],
    pub(crate) links: Vec<Link<C>>,
    pub(crate) active: Option<String>,
    pub(crate) send_seq: SeqGen,
    pub(crate) dedup: DedupWindow,
    pub(crate) unacked: UnackedRing<PendingFrame>,
    pub(crate) sched_state: SchedulerState,
    pub(crate) ack_pending: AckPending,
}

/// What a session is, as far as decisions depend on it.
pub struct SessionView<C: ?Sized> {
    pub peer_id: Seq<char>,
    pub session_id: [u8; 16],
    pub links: Seq<LinkView<C>>,
    /// The link that carries the traffic.
    pub active: Option<Seq<char>>,
    /// The sequence number of the next message.
    pub next_seq: u32,
    /// The received sequence numbers.
    pub window: WindowView,
    /// The sent frames that wait for their acknowledgement, oldest first.
    pub unacked: Seq<(u32, PendingFrame)>,
    /// How often in a row each link has been the better one.
    pub streaks: Map<Seq<char>, u8>,
    /// The received messages that have not been acknowledged yet.
    pub ack_pending: AckPending,
}

/// The views of a list of links.
pub open spec fn link_views<C: ?Sized>(links: Seq<Link<C>>) -> Seq<LinkView<C>> {
    Seq::new(links.len(), |i: int| links[i]@)
}

/// The view of an optional text.
pub open spec fn text_view(t: Option<String>) -> Option<Seq<char>> {
    match t {
        Some(s) => Some(s@),
        None => None,
    }
}

/// Whether link `i` is the first one with this id.
pub open spec fn first_link<C: ?Sized>(links: Seq<LinkView<C>>, id: Seq<char>, i: int) -> bool {
    &&& 0 <= i < links.len()
    &&& links[i].id == id
    &&& forall|j: int| 0 <= j < i ==> (#[trigger] links[j]).id != id
}

/// Whether some link has this id.
pub open spec fn has_link<C: ?Sized>(links: Seq<LinkView<C>>, id: Seq<char>) -> bool {
    exists|i: int| 0 <= i < links.len() && (#[trigger] links[i]).id == id
}

/// No two links are of the same kind.
pub open spec fn kinds_distinct<C: ?Sized>(links: Seq<LinkView<C>>) -> bool {
    forall|i: int, j: int|
        0 <= i < links.len() && 0 <= j < links.len() && #[trigger] links[i].kind
            == #[trigger] links[j].kind ==> i == j
}

impl<C: ?Sized> Session<C> {
    pub closed spec fn view(&self) -> SessionView<C> {
        SessionView {
            peer_id: self.peer_id@,
            session_id: self.session_id,
            links: link_views(self.links@),
            active: text_view(self.active),
            next_seq: self.send_seq.next,
            window: self.dedup@,
            unacked: self.unacked@,
            streaks: self.sched_state.better_streak@,
            ack_pending: self.ack_pending,
        }
    }

    /// What holds of every session: its parts are well-formed.
    pub closed spec fn wf(&self) -> bool {
        &&& forall|i: int| 0 <= i < self.links@.len() ==> (#[trigger] self.links@[i]).wf()
        &&& self.dedup.wf()
        &&& self.unacked.wf()
        &&& self.sched_state.better_streak.wf()
    }

    /// What holds of every session: its window is as it should be, a bounded number of frames
    /// waits, and failure rates are rates.
    pub proof fn every_session_is_sound(&self)
        requires
            self.wf(),
        ensures
            window_ok(self@.window),
            self@.unacked.len() <= UNACKED_RING_CAP,
            forall|i: int|
                0 <= i < self@.links.len() ==> (#[trigger] self@.links[i]).health.err_rate_milli
                    <= 1000,
    {
        self.dedup.every_window_is_ok();
        self.unacked.every_ring_is_bounded();
        assert forall|i: int| 0 <= i < self@.links.len() implies (
        #[trigger] self@.links[i]).health.err_rate_milli <= 1000 by {
            assert(self.links@[i].wf());
        }
    }

    /// A session without links.
    pub fn new(peer_id: String, session_id: [u8; 16]) -> (s: Self)
        ensures
            s.wf(),
            s@.peer_id == peer_id@,
            s@.session_id == session_id,
            s@.links.len() == 0,
            s@.active is None,
            s@.next_seq == 0,
            s@.window == (WindowView { last: None, marks: Set::empty() }),
            s@.unacked.len() == 0,
            s@.streaks == Map::<Seq<char>, u8>::empty(),
            s@.ack_pending.count == 0,
            s@.ack_pending.first_pending_at is None,
    {
        Session {
            peer_id,
            session_id,
            links: Vec::new(),
            active: None,
            send_seq: SeqGen::new(),
            dedup: DedupWindow::new(),
            unacked: UnackedRing::new(),
            sched_state: SchedulerState::default(),
            ack_pending: AckPending::default(),
        }
    }

    /// Adds a link behind the others.
    pub fn push_link(&mut self, link: Link<C>)
        requires
            old(self).wf(),
            link.wf(),
        ensures
            final(self).wf(),
            final(self)@ == (SessionView { links: old(self)@.links.push(link@), ..old(self)@ }),
    {
        self.links.push(link);
        assert(link_views(self.links@) =~= old(self)@.links.push(link@));
    }

    /// The connections of the links, in order.
    pub fn conns(&self) -> (r: Vec<Arc<C>>)
        ensures
            r@.len() == self@.links.len(),
            forall|i: int| 0 <= i < r@.len() ==> #[trigger] r@[i] == self@.links[i].conn,
    {
        let mut r: Vec<Arc<C>> = Vec::new();
        let mut i: usize = 0;
        while i < self.links.len()
            invariant
                i <= self.links.len(),
                r@.len() == i,
                forall|j: int| 0 <= j < i ==> #[trigger] r@[j] == self@.links[j].conn,
            decreases self.links.len() - i,
        {
            let conn = self.links[i].conn().clone();
            assert(self.links@[i as int]@ == self@.links[i as int]);
            r.push(conn);
            i = i + 1;
        }
        r
    }
}

/// What a manager promises of a session: at most four links, no two of a kind.
pub open spec fn within_limits<C: ?Sized>(s: SessionView<C>) -> bool {
    &&& s.links.len() <= MAX_LINKS_PER_PEER
    &&& kinds_distinct(s.links)
}

} // verus!
