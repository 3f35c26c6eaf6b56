//! Sending over a session: which link carries a message, and what happens when it fails.

use std::sync::Arc;

use vstd::prelude::*;

use crate::clock::elapsed_reading;
use crate::mesh::link::{
    after_outcome, healthy_at, link_is_usable_while_it_works,
    outcomes_move_the_health_by_an_eighth, score_of, LinkView,
};
use crate::mesh::payload::{
    frame_body, key_view, pack_payload, packed, payload_is_compressed_then_encrypted,
    plain_payload_is_never_refused, reports, PackFault, MAX_FRAME_PAYLOAD,
};
use crate::mesh::session::types::{
    LinkRole, LinkStatus, PendingFrame, SessionEvent, SwitchCause, SWITCHBACK_HYSTERESIS,
};
use crate::mesh::session::{first_link, has_link, Session, SessionView};
use crate::protocol::ack::{after_cumulative, after_selective, AckFrame, UNACKED_RING_CAP};
use crate::protocol::errors::{MlinkError, Result};
use crate::protocol::frame::{frame_bytes, frame_layout};
use crate::protocol::types::{
    flags_parts, flags_round_trip, flags_value, marks_are_the_two_high_bits,
    message_type_code_round_trip, message_types_on_the_wire, MessageType,
};
use crate::protocol::wire::{
    be_bytes, most_significant_byte_comes_first, push_be, push_bytes,
};
use crate::text::str_eq;

verus! {

/// Whether `usable` is what a reading of the clock says of a link: the time counts from when the
/// link was made.
pub open spec fn health_reading<C: ?Sized>(l: LinkView<C>, usable: bool) -> bool {
    exists|now_ms: u64|
        elapsed_reading(l.made_at, now_ms) && usable == #[trigger] healthy_at(l.health, now_ms)
}

/// Whether `ms` is how long ago the link with this id was made, at some reading of the clock; 0
/// where there is no such link.
pub open spec fn age_reading<C: ?Sized>(
    links: Seq<LinkView<C>>,
    id: Seq<char>,
    ms: u64,
) -> bool {
    match link_place(links, id) {
        Some(i) => elapsed_reading(links[i].made_at, ms),
        None => ms == 0,
    }
}

/// The place of the first link with this id.
pub open spec fn link_place<C: ?Sized>(links: Seq<LinkView<C>>, id: Seq<char>) -> Option<int> {
    if has_link(links, id) {
        Some(choose|i: int| first_link(links, id, i))
    } else {
        None
    }
}

/// The place of the first link with an id.
pub proof fn lemma_link_place<C: ?Sized>(links: Seq<LinkView<C>>, id: Seq<char>, i: int)
    requires
        first_link(links, id, i),
    ensures
        link_place(links, id) == Some(i),
{
    assert(links[i].id == id);
    let j = link_place(links, id)->0;
    assert(first_link(links, id, j));
    if j < i {
        assert(links[j].id != id);
    } else if i < j {
        assert(links[i].id != id);
    }
}

/// Whether link `i` may carry traffic: it is usable, and not the excluded one.
pub open spec fn candidate<C: ?Sized>(
    links: Seq<LinkView<C>>,
    healthy: Seq<bool>,
    exclude: Seq<char>,
    i: int,
) -> bool {
    0 <= i < links.len() && links[i].id != exclude && healthy[i]
}

/// The score of a link.
pub open spec fn link_score<C: ?Sized>(l: LinkView<C>) -> int {
    score_of(l.caps.throughput_bps, l.health)
}

/// Whether link `i` is the candidate with the highest score; of equals the last.
pub open spec fn is_best<C: ?Sized>(
    links: Seq<LinkView<C>>,
    healthy: Seq<bool>,
    exclude: Seq<char>,
    i: int,
) -> bool {
    &&& candidate(links, healthy, exclude, i)
    &&& forall|j: int| #[trigger]
        candidate(links, healthy, exclude, j) ==> link_score(links[j]) <= link_score(links[i]) && (
        j > i ==> link_score(links[j]) < link_score(links[i]))
}

/// The best candidate, if there is one.
pub open spec fn best_link<C: ?Sized>(
    links: Seq<LinkView<C>>,
    healthy: Seq<bool>,
    exclude: Seq<char>,
) -> Option<int> {
    if exists|i: int| candidate(links, healthy, exclude, i) {
        Some(choose|i: int| is_best(links, healthy, exclude, i))
    } else {
        None
    }
}

proof fn lemma_best_link<C: ?Sized>(
    links: Seq<LinkView<C>>,
    healthy: Seq<bool>,
    exclude: Seq<char>,
    i: int,
)
    requires
        is_best(links, healthy, exclude, i),
    ensures
        best_link(links, healthy, exclude) == Some(i),
{
    let j = best_link(links, healthy, exclude)->0;
    assert(candidate(links, healthy, exclude, i));
    assert(is_best(links, healthy, exclude, j));
    assert(candidate(links, healthy, exclude, j));
}

/// The active link, if it is there and usable.
pub open spec fn usable_active<C: ?Sized>(s: SessionView<C>, healthy: Seq<bool>) -> Option<int> {
    match s.active {
        None => None,
        Some(id) => match link_place(s.links, id) {
            None => None,
            Some(i) => if healthy[i] {
                Some(i)
            } else {
                None
            },
        },
    }
}

/// The link that carries the next message: the active one while it is usable, else the best.
pub open spec fn carrier<C: ?Sized>(s: SessionView<C>, healthy: Seq<bool>) -> Option<int> {
    match usable_active(s, healthy) {
        Some(i) => Some(i),
        None => match best_link(s.links, healthy, Seq::empty()) {
            None => None,
            Some(i) => link_place(s.links, s.links[i].id),
        },
    }
}

/// The active link once a carrier has been chosen: a session without one takes the carrier.
pub open spec fn active_after<C: ?Sized>(s: SessionView<C>, healthy: Seq<bool>) -> Option<
    Seq<char>,
> {
    match s.active {
        Some(id) => Some(id),
        None => match best_link(s.links, healthy, Seq::empty()) {
            None => None,
            Some(i) => Some(s.links[i].id),
        },
    }
}

/// The links after an attempt over the link with this id.
pub open spec fn links_after<C: ?Sized>(
    links: Seq<LinkView<C>>,
    id: Seq<char>,
    ok: bool,
    now_ms: u64,
) -> Seq<LinkView<C>> {
    match link_place(links, id) {
        None => links,
        Some(i) => links.update(
            i,
            LinkView { health: after_outcome(links[i].health, ok, now_ms), ..links[i] },
        ),
    }
}

/// The text of an optional name; empty where there is none.
pub open spec fn or_empty(t: Option<Seq<char>>) -> Seq<char> {
    match t {
        Some(s) => s,
        None => Seq::empty(),
    }
}

/// The low sixteen bits of a session sequence number: what the frame header and the cipher see.
pub open spec fn low_seq(seq: u32) -> u16 {
    (seq % 0x1_0000) as u16
}

/// What a session puts into a frame: a message starts with its sequence number.
pub open spec fn session_body(msg_type: MessageType, seq: u32, body: Seq<u8>) -> Seq<u8> {
    if msg_type is Message {
        be_bytes(seq as nat, 4) + body
    } else {
        body
    }
}

/// The frame of a session message, or why there is none.
pub open spec fn session_frame_of(
    seq: u32,
    msg_type: MessageType,
    payload: Seq<u8>,
    key: Option<Seq<u8>>,
    allow: bool,
) -> std::result::Result<Seq<u8>, PackFault> {
    match packed(payload, allow, key, low_seq(seq)) {
        Err(fault) => Err(fault),
        Ok((sealed, compressed, encrypted)) => {
            let body = session_body(msg_type, seq, sealed);
            if body.len() <= MAX_FRAME_PAYLOAD {
                Ok(
                    frame_bytes(
                        flags_value(compressed, encrypted, msg_type) as u8,
                        low_seq(seq),
                        body,
                    ),
                )
            } else {
                Err(PackFault::TooLarge(body.len()))
            }
        },
    }
}

/// Builds the frame of a session message.
pub fn session_frame(
    seq: u32,
    msg_type: MessageType,
    payload: &[u8],
    key: Option<&[u8]>,
    compress: bool,
) -> (r: Result<Vec<u8>>)
    ensures
        match session_frame_of(seq, msg_type, payload@, key_view(key), compress) {
            Ok(bytes) => r matches Ok(b) && b@ == bytes,
            Err(fault) => r matches Err(e) && reports(e, fault),
        },
{
    let low: u16 = (seq % 0x1_0000) as u16;
    match pack_payload(payload, compress, key, low) {
        Err(e) => Err(e),
        Ok(p) => {
            let mut body: Vec<u8> = Vec::new();
            if let MessageType::Message = msg_type {
                push_be(&mut body, seq as u128, 4);
            }
            push_bytes(&mut body, p.body.as_slice());
            proof {
                assert(body@ =~= session_body(msg_type, seq, p.body@));
            }
            frame_body(p.compressed, p.encrypted, msg_type, low, body)
        },
    }
}

/// A frame that is to be written to a connection.
pub struct Transmit<C: ?Sized> {
    pub seq: u32,
    pub msg_type: MessageType,
    pub bytes: Vec<u8>,
    pub link_id: String,
    pub conn: Arc<C>,
    /// Whether this is the second attempt.
    pub retry: bool,
}

/// What follows after a frame was written, or was not.
pub enum SendOutcome<C: ?Sized> {
    /// The message is on its way under this sequence number.
    Sent(u32),
    /// The link failed, and the same frame is to be written to the next one.
    Retry(Transmit<C>, SessionEvent),
    /// No link is left to try.
    Failed(MlinkError),
}

impl<C: ?Sized> Session<C> {
    /// The peer at the other end.
    pub fn peer_id(&self) -> (s: &str)
        ensures
            s@ == self@.peer_id,
    {
        self.peer_id.as_str()
    }

    pub fn session_id(&self) -> (id: [u8; 16])
        ensures
            id == self@.session_id,
    {
        self.session_id
    }

    /// The place of the first link with this id.
    pub fn position(&self, id: &str) -> (r: Option<usize>)
        ensures
            match r {
                Some(i) => link_place(self@.links, id@) == Some(i as int) && first_link(
                    self@.links,
                    id@,
                    i as int,
                ),
                None => link_place(self@.links, id@) is None,
            },
    {
        let mut i: usize = 0;
        while i < self.links.len()
            invariant
                i <= self.links.len(),
                forall|j: int| 0 <= j < i ==> (#[trigger] self@.links[j]).id != id@,
            decreases self.links.len() - i,
        {
            if str_eq(self.links[i].id(), id) {
                proof {
                    assert(self@.links[i as int].id == id@);
                    lemma_link_place(self@.links, id@, i as int);
                }
                return Some(i);
            }
            i = i + 1;
        }
        None
    }

    /// For each link, whether it is usable now.
    pub fn health_flags(&self) -> (r: Vec<bool>)
        ensures
            r@.len() == self@.links.len(),
            forall|i: int|
                0 <= i < r@.len() ==> health_reading(self@.links[i], #[trigger] r@[i]),
    {
        let mut r: Vec<bool> = Vec::new();
        let mut i: usize = 0;
        while i < self.links.len()
            invariant
                i <= self.links.len(),
                r@.len() == i,
                forall|j: int|
                    0 <= j < i ==> health_reading(self@.links[j], #[trigger] r@[j]),
            decreases self.links.len() - i,
        {
            let h = self.links[i].is_healthy();
            assert(self.links@[i as int]@ == self@.links[i as int]);
            assert(health_reading(self@.links[i as int], h));
            r.push(h);
            i = i + 1;
        }
        r
    }

    /// How long ago the link at place `i` was made, in milliseconds.
    pub fn link_age_ms(&self, i: usize) -> (ms: u64)
        requires
            i < self@.links.len(),
        ensures
            elapsed_reading(self@.links[i as int].made_at, ms),
    {
        let ms: u64 = self.links[i].now_ms();
        assert(self.links@[i as int]@ == self@.links[i as int]);
        ms
    }

    /// How long ago the link with this id was made, in milliseconds; 0 where there is no such
    /// link.
    pub(crate) fn age_of(&self, link_id: &str) -> (ms: u64)
        ensures
            age_reading(self@.links, link_id@, ms),
    {
        match self.position(link_id) {
            Some(i) => self.link_age_ms(i),
            None => 0,
        }
    }

    /// The best usable link other than `exclude_id`.
    pub fn best_excluding(&self, exclude_id: &str, healthy: &Vec<bool>) -> (r: Option<usize>)
        requires
            healthy@.len() == self@.links.len(),
        ensures
            match r {
                Some(i) => best_link(self@.links, healthy@, exclude_id@) == Some(i as int)
                    && is_best(self@.links, healthy@, exclude_id@, i as int),
                None => best_link(self@.links, healthy@, exclude_id@) is None,
            },
    {
        let ghost links = self@.links;
        let ghost ex = exclude_id@;
        let mut best: Option<usize> = None;
        let mut best_score: i64 = 0;
        let mut i: usize = 0;
        while i < self.links.len()
            invariant
                i <= self.links.len() == links.len(),
                links == self@.links,
                ex == exclude_id@,
                healthy@.len() == links.len(),
                match best {
                    None => forall|j: int| 0 <= j < i ==> !#[trigger] candidate(links, healthy@, ex, j),
                    Some(b) => {
                        &&& b < i
                        &&& candidate(links, healthy@, ex, b as int)
                        &&& best_score == link_score(links[b as int])
                        &&& forall|j: int|
                            0 <= j < i && #[trigger] candidate(links, healthy@, ex, j) ==> {
                                &&& link_score(links[j]) <= best_score
                                &&& j > b ==> link_score(links[j]) < best_score
                            }
                    },
                },
            decreases self.links.len() - i,
        {
            if healthy[i] && !str_eq(self.links[i].id(), exclude_id) {
                let score: i64 = self.links[i].score();
                let better = match best {
                    None => true,
                    Some(_) => score >= best_score,
                };
                assert(candidate(links, healthy@, ex, i as int));
                assert(score == link_score(links[i as int]));
                if better {
                    best = Some(i);
                    best_score = score;
                }
            }
            i = i + 1;
        }
        proof {
            if let Some(b) = best {
                assert(is_best(links, healthy@, ex, b as int));
                lemma_best_link(links, healthy@, ex, b as int);
            }
        }
        best
    }

    /// The best usable link.
    pub fn pick_best(&self, healthy: &Vec<bool>) -> (r: Option<usize>)
        requires
            healthy@.len() == self@.links.len(),
        ensures
            match r {
                Some(i) => best_link(self@.links, healthy@, Seq::empty()) == Some(i as int)
                    && is_best(self@.links, healthy@, Seq::empty(), i as int),
                None => best_link(self@.links, healthy@, Seq::empty()) is None,
            },
    {
        proof {
            reveal_strlit("");
            assert(""@ =~= Seq::<char>::empty());
        }
        self.best_excluding("", healthy)
    }

    /// The link that carries the next message. A session without an active link takes it.
    pub fn current_or_pick(&mut self, healthy: &Vec<bool>) -> (r: Option<usize>)
        requires
            old(self).wf(),
            healthy@.len() == old(self)@.links.len(),
        ensures
            final(self).wf(),
            final(self)@ == (SessionView {
                active: if usable_active(old(self)@, healthy@) is Some {
                    old(self)@.active
                } else {
                    active_after(old(self)@, healthy@)
                },
                ..old(self)@
            }),
            match r {
                Some(i) => carrier(old(self)@, healthy@) == Some(i as int) && i
                    < old(self)@.links.len(),
                None => carrier(old(self)@, healthy@) is None && final(self)@ == old(self)@,
            },
    {
        if let Some(id) = &self.active {
            if let Some(i) = self.position(id.as_str()) {
                if healthy[i] {
                    return Some(i);
                }
            }
        }
        match self.pick_best(healthy) {
            None => None,
            Some(i) => {
                let id: String = self.links[i].id().to_owned();
                if self.active.is_none() {
                    self.active = Some(id.clone());
                }
                proof {
                    assert(self@.links[i as int].id == id@);
                    assert(has_link(self@.links, id@));
                }
                self.position(id.as_str())
            },
        }
    }

    /// Takes the next sequence number, builds the frame, and chooses the link that is to carry
    /// it. The caller writes the frame and reports to [`Session::finish_send`].
    pub fn begin_send(
        &mut self,
        msg_type: MessageType,
        payload: &[u8],
        encrypt_key: Option<&[u8]>,
        compress: bool,
        healthy: &Vec<bool>,
    ) -> (r: Result<Transmit<C>>)
        requires
            old(self).wf(),
            healthy@.len() == old(self)@.links.len(),
        ensures
            final(self).wf(),
            send_begun(
                old(self)@,
                final(self)@,
                msg_type,
                payload@,
                key_view(encrypt_key),
                compress,
                healthy@,
                r,
            ),
    {
        let seq: u32 = self.send_seq.next();
        let bytes: Vec<u8> = match session_frame(seq, msg_type, payload, encrypt_key, compress) {
            Ok(b) => b,
            Err(e) => {
                return Err(e);
            },
        };
        let ghost mid = self@;
        match self.current_or_pick(healthy) {
            None => Err(MlinkError::NoHealthyLink { peer_id: self.peer_id.clone() }),
            Some(i) => {
                let link = &self.links[i];
                proof {
                    assert(link@ == self@.links[i as int]);
                }
                Ok(
                    Transmit {
                        seq,
                        msg_type,
                        bytes,
                        link_id: link.id().to_owned(),
                        conn: link.conn().clone(),
                        retry: false,
                    },
                )
            },
        }
    }

    /// [`Session::begin_send`], with the links' health as it is now.
    pub fn send(
        &mut self,
        msg_type: MessageType,
        payload: &[u8],
        encrypt_key: Option<&[u8]>,
        compress: bool,
    ) -> (r: Result<Transmit<C>>)
        requires
            old(self).wf(),
        ensures
            final(self).wf(),
            exists|healthy: Seq<bool>|
                health_readings(old(self)@.links, healthy) && #[trigger] send_begun(
                    old(self)@,
                    final(self)@,
                    msg_type,
                    payload@,
                    key_view(encrypt_key),
                    compress,
                    healthy,
                    r,
                ),
    {
        let healthy = self.health_flags();
        assert(health_readings(self@.links, healthy@));
        self.begin_send(msg_type, payload, encrypt_key, compress, &healthy)
    }

    /// Moves the traffic away from a failing link, to the best usable one that is left.
    pub fn promote_on_failure(&mut self, failing_id: &str, healthy: &Vec<bool>) -> (r: Option<
        (usize, SessionEvent),
    >)
        requires
            old(self).wf(),
            healthy@.len() == old(self)@.links.len(),
        ensures
            final(self).wf(),
            match best_link(old(self)@.links, healthy@, failing_id@) {
                None => r is None && final(self)@ == old(self)@,
                Some(i) => {
                    &&& r matches Some((place, event)) && {
                        &&& place == i
                        &&& event.is_switched(
                            old(self)@.peer_id,
                            or_empty(old(self)@.active),
                            old(self)@.links[i].id,
                            SwitchCause::ActiveFailed,
                        )
                    }
                    &&& 0 <= i < old(self)@.links.len()
                    &&& final(self)@ == (SessionView {
                        active: Some(old(self)@.links[i].id),
                        ..old(self)@
                    })
                },
            },
    {
        match self.best_excluding(failing_id, healthy) {
            None => None,
            Some(i) => {
                let next: String = self.links[i].id().to_owned();
                assert(next@ == self@.links[i as int].id);
                let from: String = self.active_or_empty();
                self.active = Some(next.clone());
                Some(
                    (
                        i,
                        SessionEvent::Switched {
                            peer_id: self.peer_id.clone(),
                            from,
                            to: next,
                            cause: SwitchCause::ActiveFailed,
                        },
                    ),
                )
            },
        }
    }

    fn active_or_empty(&self) -> (s: String)
        ensures
            s@ == or_empty(self@.active),
    {
        match &self.active {
            Some(id) => id.clone(),
            None => String::new(),
        }
    }

    /// Takes note of how the write of a frame went. A frame that was written waits for its
    /// acknowledgement. One that was not is tried once more, over the next best link.
    pub fn settle_send(&mut self, t: Transmit<C>, ok: bool, now_ms: u64, healthy: &Vec<bool>) -> (r:
        SendOutcome<C>)
        requires
            old(self).wf(),
            healthy@.len() == old(self)@.links.len(),
        ensures
            final(self).wf(),
            send_settled(old(self)@, final(self)@, t, ok, now_ms, healthy@, r),
    {
        let ghost before = self@;
        if let Some(i) = self.position(t.link_id.as_str()) {
            self.links[i].record_outcome_at(ok, now_ms);
            proof {
                assert(self@.links =~= links_after(before.links, t.link_id@, ok, now_ms));
            }
        }
        let ghost mid = self@;
        assert(mid == (SessionView {
            links: links_after(before.links, t.link_id@, ok, now_ms),
            ..before
        }));
        if ok {
            let _ = self.unacked.push(
                t.seq,
                PendingFrame { bytes: t.bytes, msg_type: t.msg_type },
            );
            proof {
                assert(self@.unacked.drop_last() =~= if before.unacked.len() < UNACKED_RING_CAP {
                    before.unacked
                } else {
                    before.unacked.drop_first()
                });
            }
            return SendOutcome::Sent(t.seq);
        }
        if t.retry {
            return SendOutcome::Failed(
                MlinkError::NoHealthyLink { peer_id: self.peer_id.clone() },
            );
        }
        match self.promote_on_failure(t.link_id.as_str(), healthy) {
            None => SendOutcome::Failed(
                MlinkError::NoHealthyLink { peer_id: self.peer_id.clone() },
            ),
            Some((i, event)) => {
                let id: String = self.links[i].id().to_owned();
                proof {
                    assert(self@.links[i as int].id == id@);
                    assert(has_link(self@.links, id@));
                }
                match self.position(id.as_str()) {
                    None => SendOutcome::Failed(
                        MlinkError::NoHealthyLink { peer_id: self.peer_id.clone() },
                    ),
                    Some(k) => {
                        let conn = self.links[k].conn().clone();
                        assert(conn == self@.links[k as int].conn);
                        SendOutcome::Retry(
                            Transmit {
                                seq: t.seq,
                                msg_type: t.msg_type,
                                bytes: t.bytes,
                                link_id: id,
                                conn,
                                retry: true,
                            },
                            event,
                        )
                    },
                }
            },
        }
    }

    /// [`Session::settle_send`], with the clock and the links' health as they are now.
    pub fn finish_send(&mut self, t: Transmit<C>, ok: bool) -> (r: SendOutcome<C>)
        requires
            old(self).wf(),
        ensures
            final(self).wf(),
            exists|now_ms: u64, healthy: Seq<bool>|
                age_reading(old(self)@.links, t.link_id@, now_ms) && health_readings(
                    old(self)@.links,
                    healthy,
                ) && #[trigger] send_settled(
                    old(self)@,
                    final(self)@,
                    t,
                    ok,
                    now_ms,
                    healthy,
                    r,
                ),
    {
        let healthy = self.health_flags();
        assert(health_readings(self@.links, healthy@));
        let now_ms: u64 = self.age_of(t.link_id.as_str());
        self.settle_send(t, ok, now_ms, &healthy)
    }

    /// Takes note of an acknowledgement: the frames that it names no longer wait.
    pub fn on_ack(&mut self, ack: &AckFrame)
        requires
            old(self).wf(),
        ensures
            final(self).wf(),
            final(self)@ == (SessionView { unacked: released(old(self)@.unacked, *ack), ..old(self)@ }),
    {
        self.unacked.ack_cum(ack.ack);
        self.unacked.sack(ack.ack, ack.bitmap);
    }

    /// Every frame that waits for its acknowledgement, to be written again to one link.
    pub fn flush_unacked_over(&self, link_id: &str) -> (r: Result<(Arc<C>, Vec<Vec<u8>>)>)
        ensures
            match link_place(self@.links, link_id@) {
                None => r matches Err(MlinkError::NoHealthyLink { peer_id }) && peer_id@
                    == self@.peer_id,
                Some(i) => r matches Ok((conn, frames)) && {
                    &&& conn == self@.links[i].conn
                    &&& frames@.len() == self@.unacked.len()
                    &&& forall|j: int|
                        0 <= j < frames@.len() ==> (#[trigger] frames@[j])@
                            == self@.unacked[j].1.bytes@
                },
            },
            unacked_flushed(self@, link_id@, r),
    {
        match self.position(link_id) {
            None => Err(MlinkError::NoHealthyLink { peer_id: self.peer_id.clone() }),
            Some(i) => {
                let mut frames: Vec<Vec<u8>> = Vec::new();
                let n: usize = self.unacked.len();
                let mut j: usize = 0;
                while j < n
                    invariant
                        j <= n == self@.unacked.len(),
                        frames@.len() == j,
                        forall|k: int|
                            0 <= k < j ==> (#[trigger] frames@[k])@ == self@.unacked[k].1.bytes@,
                    decreases n - j,
                {
                    let e = self.unacked.entry(j);
                    frames.push(vstd::slice::slice_to_vec(e.1.bytes.as_slice()));
                    j = j + 1;
                }
                let conn = self.links[i].conn().clone();
                assert(conn == self@.links[i as int].conn);
                Ok((conn, frames))
            },
        }
    }

    /// A snapshot of every link.
    pub fn status(&self) -> (r: Vec<LinkStatus>)
        ensures
            r@.len() == self@.links.len(),
            forall|i: int|
                0 <= i < r@.len() ==> status_matches(#[trigger] r@[i], self@.links[i], self@.active),
    {
        let mut r: Vec<LinkStatus> = Vec::new();
        let mut i: usize = 0;
        while i < self.links.len()
            invariant
                i <= self.links.len(),
                r@.len() == i,
                forall|j: int|
                    0 <= j < i ==> status_matches(#[trigger] r@[j], self@.links[j], self@.active),
            decreases self.links.len() - i,
        {
            let l = &self.links[i];
            assert(l@ == self@.links[i as int]);
            let is_active = match &self.active {
                Some(id) => str_eq(id.as_str(), l.id()),
                None => false,
            };
            let role = if is_active {
                LinkRole::Active
            } else {
                LinkRole::Standby
            };
            r.push(
                LinkStatus { link_id: l.id().to_owned(), kind: l.kind(), role, health: l.health() },
            );
            i = i + 1;
        }
        r
    }

    /// A score for display, from a snapshot alone.
    pub fn score(status: &LinkStatus) -> (r: i64)
        ensures
            r == (1000 - status.health.err_rate_milli) * 1000 - status.health.rtt_ema_us as int / 10,
    {
        let success: i64 = 1000 - status.health.err_rate_milli as i64;
        success * 1000 - (status.health.rtt_ema_us / 10) as i64
    }

    /// Whether the traffic should move from `current` to `best`: only once `best` has won
    /// often enough. The count starts anew when `best` carries the traffic itself.
    pub fn should_switchback(&mut self, current: &str, best: &str) -> (r: bool)
        requires
            old(self).wf(),
        ensures
            final(self).wf(),
            if current@ == best@ {
                !r && final(self)@ == (SessionView {
                    streaks: old(self)@.streaks.remove(best@),
                    ..old(self)@
                })
            } else {
                let n = next_streak(old(self)@.streaks, best@);
                r == (n >= SWITCHBACK_HYSTERESIS) && final(self)@ == (SessionView {
                    streaks: old(self)@.streaks.insert(best@, n),
                    ..old(self)@
                })
            },
            switchback_asked(old(self)@, final(self)@, current@, best@, r),
    {
        if str_eq(current, best) {
            let _ = self.sched_state.better_streak.remove(best);
            return false;
        }
        let was: u8 = match self.sched_state.better_streak.get(best) {
            Some(n) => *n,
            None => 0,
        };
        let n: u8 = was.saturating_add(1);
        let _ = self.sched_state.better_streak.insert(best.to_owned(), n);
        n >= SWITCHBACK_HYSTERESIS
    }

    /// Makes a link the active one, on the user's word.
    pub fn switch_active(&mut self, link_id: &str) -> (r: Result<Option<SessionEvent>>)
        requires
            old(self).wf(),
        ensures
            final(self).wf(),
            if has_link(old(self)@.links, link_id@) {
                &&& final(self)@ == (SessionView { active: Some(link_id@), ..old(self)@ })
                &&& r matches Ok(event)
                &&& if old(self)@.active == Some(link_id@) {
                    event is None
                } else {
                    event matches Some(ev) && ev.is_switched(
                        old(self)@.peer_id,
                        or_empty(old(self)@.active),
                        link_id@,
                        SwitchCause::ManualUserRequest,
                    )
                }
            } else {
                &&& final(self)@ == old(self)@
                &&& r matches Err(MlinkError::NoHealthyLink { peer_id })
                &&& peer_id@ == old(self)@.peer_id
            },
    {
        if self.position(link_id).is_none() {
            return Err(MlinkError::NoHealthyLink { peer_id: self.peer_id.clone() });
        }
        let same = match &self.active {
            Some(id) => str_eq(id.as_str(), link_id),
            None => false,
        };
        let from: String = self.active_or_empty();
        self.active = Some(link_id.to_owned());
        if same {
            Ok(None)
        } else {
            Ok(
                Some(
                    SessionEvent::Switched {
                        peer_id: self.peer_id.clone(),
                        from,
                        to: link_id.to_owned(),
                        cause: SwitchCause::ManualUserRequest,
                    },
                ),
            )
        }
    }
}

/// Whether `after` and `r` are what the question comes to whether the traffic should move.
pub open spec fn switchback_asked<C: ?Sized>(
    before: SessionView<C>,
    after: SessionView<C>,
    current: Seq<char>,
    best: Seq<char>,
    r: bool,
) -> bool {
    let n = next_streak(before.streaks, best);
    &&& r == (current != best && n >= SWITCHBACK_HYSTERESIS)
    &&& after == (SessionView {
        streaks: if current == best {
            before.streaks.remove(best)
        } else {
            before.streaks.insert(best, n)
        },
        ..before
    })
}

/// Whether `r` is what writing everything again that waits comes to.
pub open spec fn unacked_flushed<C: ?Sized>(
    s: SessionView<C>,
    link_id: Seq<char>,
    r: Result<(Arc<C>, Vec<Vec<u8>>)>,
) -> bool {
    match link_place(s.links, link_id) {
        None => r matches Err(MlinkError::NoHealthyLink { peer_id }) && peer_id@ == s.peer_id,
        Some(i) => r matches Ok((conn, frames)) && {
            &&& conn == s.links[i].conn
            &&& frames@.len() == s.unacked.len()
            &&& forall|j: int|
                0 <= j < frames@.len() ==> (#[trigger] frames@[j])@ == s.unacked[j].1.bytes@
        },
    }
}

/// The traffic moves to a better link the third time in a row that it is asked for, not the first
/// or the second, where the link carried the traffic itself just before; and never to the link that
/// carries it.
pub proof fn traffic_moves_the_third_time<C: ?Sized>(
    s: Seq<SessionView<C>>,
    current: Seq<char>,
    best: Seq<char>,
    r: Seq<bool>,
)
    requires
        s.len() == 5,
        r.len() == 4,
        current != best,
        switchback_asked(s[0], s[1], best, best, r[0]),
        switchback_asked(s[1], s[2], current, best, r[1]),
        switchback_asked(s[2], s[3], current, best, r[2]),
        switchback_asked(s[3], s[4], current, best, r[3]),
    ensures
        !r[0] && !r[1] && !r[2] && r[3],
        s[4].streaks.remove(best) == s[0].streaks.remove(best),
        s[4] == (SessionView { streaks: s[4].streaks, ..s[0] }),
{
    assert(s[4].streaks.remove(best) =~= s[0].streaks.remove(best));
}

/// All frames that wait for their acknowledgement are written again, each as it was and in order,
/// over the link that is named.
pub proof fn everything_unacknowledged_is_sent_again<C: ?Sized>(
    s: SessionView<C>,
    i: int,
    r: Result<(Arc<C>, Vec<Vec<u8>>)>,
    gone: Seq<char>,
    refused: Result<(Arc<C>, Vec<Vec<u8>>)>,
)
    requires
        0 <= i < s.links.len(),
        forall|j: int|
            0 <= j < s.links.len() && j != i ==> (#[trigger] s.links[j]).id != s.links[i].id,
        unacked_flushed(s, s.links[i].id, r),
        forall|j: int| 0 <= j < s.links.len() ==> (#[trigger] s.links[j]).id != gone,
        unacked_flushed(s, gone, refused),
    ensures
        r matches Ok((conn, frames)) && {
            &&& conn == s.links[i].conn
            &&& frames@.len() == s.unacked.len()
            &&& forall|k: int|
                0 <= k < s.unacked.len() ==> (#[trigger] frames@[k])@ == s.unacked[k].1.bytes@
        },
        refused matches Err(MlinkError::NoHealthyLink { peer_id }) && peer_id@ == s.peer_id,
{
    assert(first_link(s.links, s.links[i].id, i));
    lemma_link_place(s.links, s.links[i].id, i);
}

/// How often `best` has won, this time included; the count stops at 255.
pub open spec fn next_streak(streaks: Map<Seq<char>, u8>, best: Seq<char>) -> u8 {
    if !streaks.dom().contains(best) {
        1
    } else if streaks[best] < u8::MAX {
        (streaks[best] + 1) as u8
    } else {
        u8::MAX
    }
}

/// The counts after `best` has won `wins` times over.
pub open spec fn streaks_after(
    streaks: Map<Seq<char>, u8>,
    best: Seq<char>,
    wins: nat,
) -> Map<Seq<char>, u8>
    decreases wins,
{
    if wins == 0 {
        streaks
    } else {
        let before = streaks_after(streaks, best, (wins - 1) as nat);
        before.insert(best, next_streak(before, best))
    }
}

/// A link whose count starts anew moves the traffic at its third win, not before, and at every
/// win after that; wins of one link leave the counts of the others alone.
pub proof fn third_win_moves_the_traffic(
    streaks: Map<Seq<char>, u8>,
    best: Seq<char>,
    wins: nat,
    other: Seq<char>,
)
    requires
        !streaks.dom().contains(best),
        other != best,
    ensures
        next_streak(streaks_after(streaks, best, wins), best) >= SWITCHBACK_HYSTERESIS <==> wins
            >= 2,
        next_streak(streaks_after(streaks, best, wins), other) == next_streak(streaks, other),
    decreases wins,
{
    if wins > 0 {
        third_win_moves_the_traffic(streaks, best, (wins - 1) as nat, other);
        if wins == 2 {
            reveal_with_fuel(streaks_after, 3);
        }
    }
}

/// The frames that still wait after an acknowledgement.
pub open spec fn released(waiting: Seq<(u32, PendingFrame)>, ack: AckFrame) -> Seq<
    (u32, PendingFrame),
> {
    after_selective(after_cumulative(waiting, ack.ack), ack.ack, ack.bitmap)
}

/// Whether `s` is the snapshot of `l`, where `active` is the active link.
pub open spec fn status_matches<C: ?Sized>(
    s: LinkStatus,
    l: LinkView<C>,
    active: Option<Seq<char>>,
) -> bool {
    &&& s.link_id@ == l.id
    &&& s.kind == l.kind
    &&& s.health == l.health
    &&& s.role == if active == Some(l.id) {
        LinkRole::Active
    } else {
        LinkRole::Standby
    }
}

/// Whether `healthy` is what readings of the clock say of these links.
pub open spec fn health_readings<C: ?Sized>(links: Seq<LinkView<C>>, healthy: Seq<bool>) -> bool {
    &&& healthy.len() == links.len()
    &&& forall|i: int|
        0 <= i < links.len() ==> health_reading(links[i], #[trigger] healthy[i])
}

/// What starting to send a message does to a session, and what comes back.
pub open spec fn send_begun<C: ?Sized>(
    before: SessionView<C>,
    after: SessionView<C>,
    msg_type: MessageType,
    payload: Seq<u8>,
    key: Option<Seq<u8>>,
    compress: bool,
    healthy: Seq<bool>,
    r: Result<Transmit<C>>,
) -> bool {
    match session_frame_of(before.next_seq, msg_type, payload, key, compress) {
        Err(fault) => {
            &&& r matches Err(e) && reports(e, fault)
            &&& after == sequenced(before, before.active)
        },
        Ok(bytes) => match carrier(before, healthy) {
            None => {
                &&& r matches Err(MlinkError::NoHealthyLink { peer_id }) && peer_id@
                    == before.peer_id
                &&& after == sequenced(before, before.active)
            },
            Some(i) => {
                &&& r matches Ok(t) && {
                    &&& t.seq == before.next_seq
                    &&& t.msg_type == msg_type
                    &&& t.bytes@ == bytes
                    &&& t.link_id@ == before.links[i].id
                    &&& t.conn == before.links[i].conn
                    &&& !t.retry
                }
                &&& after == sequenced(
                    before,
                    if usable_active(before, healthy) is Some {
                        before.active
                    } else {
                        active_after(before, healthy)
                    },
                )
            },
        },
    }
}

/// What the end of a write does to a session, and what follows.
pub open spec fn send_settled<C: ?Sized>(
    before: SessionView<C>,
    after: SessionView<C>,
    t: Transmit<C>,
    ok: bool,
    now_ms: u64,
    healthy: Seq<bool>,
    r: SendOutcome<C>,
) -> bool {
    let noted = SessionView { links: links_after(before.links, t.link_id@, ok, now_ms), ..before };
    if ok {
        &&& r == SendOutcome::<C>::Sent(t.seq)
        &&& after.unacked.len() > 0
        &&& after.unacked.last().0 == t.seq
        &&& after.unacked.last().1.bytes@ == t.bytes@
        &&& after.unacked.last().1.msg_type == t.msg_type
        &&& after.unacked.drop_last() == if before.unacked.len() < UNACKED_RING_CAP {
            before.unacked
        } else {
            before.unacked.drop_first()
        }
        &&& after == (SessionView { unacked: after.unacked, ..noted })
    } else if t.retry || best_link(noted.links, healthy, t.link_id@) is None {
        &&& r matches SendOutcome::Failed(MlinkError::NoHealthyLink { peer_id }) && peer_id@
            == before.peer_id
        &&& after == noted
    } else {
        let i = best_link(noted.links, healthy, t.link_id@)->0;
        let id = noted.links[i].id;
        &&& r matches SendOutcome::Retry(again, event) && {
            &&& again.seq == t.seq
            &&& again.msg_type == t.msg_type
            &&& again.bytes@ == t.bytes@
            &&& again.link_id@ == id
            &&& link_place(noted.links, id) matches Some(k) && again.conn == noted.links[k].conn
            &&& again.retry
            &&& event.is_switched(
                before.peer_id,
                or_empty(before.active),
                id,
                SwitchCause::ActiveFailed,
            )
        }
        &&& after == (SessionView { active: Some(id), ..noted })
    }
}

/// Whether link `b` is the best candidate among the first `n` links.
spec fn best_below<C: ?Sized>(
    links: Seq<LinkView<C>>,
    healthy: Seq<bool>,
    exclude: Seq<char>,
    n: int,
    b: int,
) -> bool {
    &&& b < n
    &&& candidate(links, healthy, exclude, b)
    &&& forall|j: int|
        j < n && #[trigger] candidate(links, healthy, exclude, j) ==> link_score(links[j])
            <= link_score(links[b]) && (j > b ==> link_score(links[j]) < link_score(links[b]))
}

proof fn lemma_best_below<C: ?Sized>(
    links: Seq<LinkView<C>>,
    healthy: Seq<bool>,
    exclude: Seq<char>,
    n: int,
    i: int,
) -> (b: int)
    requires
        i < n <= links.len(),
        candidate(links, healthy, exclude, i),
    ensures
        best_below(links, healthy, exclude, n, b),
    decreases n,
{
    let m = n - 1;
    if exists|k: int| k < m && #[trigger] candidate(links, healthy, exclude, k) {
        let k = choose|k: int| k < m && #[trigger] candidate(links, healthy, exclude, k);
        let b = lemma_best_below(links, healthy, exclude, m, k);
        if candidate(links, healthy, exclude, m) && link_score(links[m]) >= link_score(links[b]) {
            m
        } else {
            b
        }
    } else {
        i
    }
}

/// Where there is a link with this id, its place is one.
pub proof fn lemma_link_at_place<C: ?Sized>(links: Seq<LinkView<C>>, id: Seq<char>)
    ensures
        link_place(links, id) matches Some(i) ==> first_link(links, id, i),
{
    if has_link(links, id) {
        let i = choose|i: int| 0 <= i < links.len() && (#[trigger] links[i]).id == id;
        lemma_first_link(links, id, i);
    }
}

proof fn lemma_first_link<C: ?Sized>(links: Seq<LinkView<C>>, id: Seq<char>, i: int)
    requires
        0 <= i < links.len(),
        links[i].id == id,
    ensures
        link_place(links, id) matches Some(k) && first_link(links, id, k),
    decreases i,
{
    if exists|j: int| 0 <= j < i && (#[trigger] links[j]).id == id {
        let j = choose|j: int| 0 <= j < i && (#[trigger] links[j]).id == id;
        lemma_first_link(links, id, j);
    } else {
        assert(first_link(links, id, i));
        lemma_link_place(links, id, i);
    }
}

/// Where the write of a frame has failed for the first time and another usable link is there,
/// the same frame goes out again, under the same number, over another link.
pub proof fn failed_write_goes_over_another_link<C: ?Sized>(
    before: SessionView<C>,
    after: SessionView<C>,
    t: Transmit<C>,
    now_ms: u64,
    healthy: Seq<bool>,
    i: int,
    r: SendOutcome<C>,
)
    requires
        send_settled(before, after, t, false, now_ms, healthy, r),
        !t.retry,
        candidate(before.links, healthy, t.link_id@, i),
    ensures
        r matches SendOutcome::Retry(again, _) && again.seq == t.seq && again.bytes@ == t.bytes@
            && again.link_id@ != t.link_id@ && after.active == Some(again.link_id@),
{
    let links = links_after(before.links, t.link_id@, false, now_ms);
    if has_link(before.links, t.link_id@) {
        let j = choose|j: int|
            0 <= j < before.links.len() && (#[trigger] before.links[j]).id == t.link_id@;
        lemma_first_link(before.links, t.link_id@, j);
    }
    assert(candidate(links, healthy, t.link_id@, i));
    let b = lemma_best_below(links, healthy, t.link_id@, links.len() as int, i);
    assert(is_best(links, healthy, t.link_id@, b));
    lemma_best_link(links, healthy, t.link_id@, b);
}

/// A message goes over a link that is usable when it is sent: over the active one if that is
/// usable, else over one that scores highest among the usable ones, the last of equals. Where no
/// link is usable there is no healthy link, and where one is, a message that fits into a frame is
/// handed out. It carries the next number, the following one is one higher, and the active link
/// changes only where there was none.
pub proof fn message_goes_over_a_usable_link<C: ?Sized>(
    before: SessionView<C>,
    after: SessionView<C>,
    msg_type: MessageType,
    payload: Seq<u8>,
    key: Option<Seq<u8>>,
    compress: bool,
    healthy: Seq<bool>,
    r: Result<Transmit<C>>,
)
    requires
        health_readings(before.links, healthy),
        send_begun(before, after, msg_type, payload, key, compress, healthy, r),
        forall|i: int, j: int|
            0 <= i < before.links.len() && 0 <= j < before.links.len()
                && #[trigger] before.links[i].id == #[trigger] before.links[j].id ==> i == j,
        forall|i: int| 0 <= i < before.links.len() ==> (#[trigger] before.links[i]).id.len() > 0,
    ensures
        r matches Ok(t) ==> {
            &&& exists|i: int|
                {
                    &&& 0 <= i < before.links.len()
                    &&& (#[trigger] before.links[i]).id == t.link_id@
                    &&& before.links[i].conn == t.conn
                    &&& healthy[i]
                    &&& before.links[i].health.err_rate_milli < 500
                    &&& exists|now_ms: u64| #[trigger]
                        elapsed_reading(before.links[i].made_at, now_ms) && (
                        before.links[i].health.rtt_ema_us == 0 || now_ms
                            < before.links[i].health.last_ok_at_ms + 5000)
                    &&& before.active == Some(t.link_id@) || forall|j: int|
                        0 <= j < before.links.len() && #[trigger] healthy[j] ==> (link_score(
                            before.links[j],
                        ) < link_score(before.links[i]) || (j <= i && link_score(before.links[j])
                            == link_score(before.links[i])))
                }
            &&& forall|j: int|
                0 <= j < before.links.len() && before.active == Some(
                    (#[trigger] before.links[j]).id,
                ) && healthy[j] ==> t.link_id@ == before.links[j].id
            &&& t.seq == before.next_seq
            &&& t.msg_type == msg_type
            &&& session_frame_of(before.next_seq, msg_type, payload, key, compress) == Ok::<
                Seq<u8>,
                PackFault,
            >(t.bytes@)
            &&& !t.retry
            &&& after.active == match before.active {
                Some(id) => Some(id),
                None => Some(t.link_id@),
            }
        },
        r matches Err(e) ==> after.active == before.active && (e is NoHealthyLink
            || session_frame_of(before.next_seq, msg_type, payload, key, compress) is Err),
        session_frame_of(before.next_seq, msg_type, payload, key, compress) matches Err(fault) ==> (
        r matches Err(e) && reports(e, fault)),
        r is Ok <==> session_frame_of(before.next_seq, msg_type, payload, key, compress) is Ok
            && exists|i: int| 0 <= i < before.links.len() && #[trigger] healthy[i],
        (forall|i: int| 0 <= i < before.links.len() ==> !#[trigger] healthy[i])
            && session_frame_of(before.next_seq, msg_type, payload, key, compress) is Ok ==> (r
            matches Err(MlinkError::NoHealthyLink { peer_id }) && peer_id@ == before.peer_id),
        after.next_seq == (before.next_seq + 1) % 0x1_0000_0000,
        after == (SessionView { next_seq: after.next_seq, active: after.active, ..before }),
{
    let links = before.links;
    if let Some(id) = before.active {
        lemma_link_at_place(links, id);
    }
    if exists|i: int| 0 <= i < links.len() && #[trigger] healthy[i] {
        let i = choose|i: int| 0 <= i < links.len() && #[trigger] healthy[i];
        assert(candidate(links, healthy, Seq::empty(), i));
        let b = lemma_best_below(links, healthy, Seq::empty(), links.len() as int, i);
        assert(is_best(links, healthy, Seq::empty(), b));
        lemma_best_link(links, healthy, Seq::empty(), b);
        assert(first_link(links, links[b].id, b));
        lemma_link_place(links, links[b].id, b);
        assert forall|j: int|
            0 <= j < links.len() && #[trigger] healthy[j] implies candidate(
            links,
            healthy,
            Seq::empty(),
            j,
        ) by {
            assert(links[j].id.len() > 0);
        }
    }
    if r is Ok {
        let k = carrier(before, healthy)->0;
        assert(links[k].id == r->Ok_0.link_id@);
        assert(health_reading(links[k], healthy[k]));
        let now_ms = choose|now_ms: u64|
            elapsed_reading(links[k].made_at, now_ms) && healthy[k] == #[trigger] healthy_at(
                links[k].health,
                now_ms,
            );
        link_is_usable_while_it_works(links[k].health, now_ms);
        assert(elapsed_reading(links[k].made_at, now_ms));
    }
}

/// The best link is a usable one, other than the excluded one, that scores highest among those, and
/// the last of equals; there is none only where no such link is there.
pub proof fn best_link_scores_highest<C: ?Sized>(
    links: Seq<LinkView<C>>,
    healthy: Seq<bool>,
    exclude: Seq<char>,
    j: int,
)
    requires
        healthy.len() == links.len(),
        0 <= j < links.len(),
        healthy[j],
        links[j].id != exclude,
    ensures
        best_link(links, healthy, exclude) matches Some(b) && {
            &&& 0 <= b < links.len()
            &&& healthy[b]
            &&& links[b].id != exclude
            &&& score_of(links[j].caps.throughput_bps, links[j].health) <= score_of(
                links[b].caps.throughput_bps,
                links[b].health,
            )
            &&& j > b ==> score_of(links[j].caps.throughput_bps, links[j].health) < score_of(
                links[b].caps.throughput_bps,
                links[b].health,
            )
        },
{
    assert(candidate(links, healthy, exclude, j));
    let b = lemma_best_below(links, healthy, exclude, links.len() as int, j);
    assert(is_best(links, healthy, exclude, b));
    lemma_best_link(links, healthy, exclude, b);
}

/// Where every other link is unusable there is no best one.
pub proof fn unusable_links_are_never_best<C: ?Sized>(
    links: Seq<LinkView<C>>,
    healthy: Seq<bool>,
    exclude: Seq<char>,
)
    requires
        healthy.len() == links.len(),
        forall|j: int| 0 <= j < links.len() && #[trigger] healthy[j] ==> links[j].id == exclude,
    ensures
        best_link(links, healthy, exclude) is None,
{
    assert forall|j: int| !candidate(links, healthy, exclude, j) by {
        if candidate(links, healthy, exclude, j) {
            assert(healthy[j]);
        }
    }
}

/// A link is found by its id, the first one where several have it, and nothing is found where none
/// has.
pub proof fn link_is_found_by_its_id<C: ?Sized>(links: Seq<LinkView<C>>, id: Seq<char>, i: int)
    ensures
        0 <= i < links.len() && links[i].id == id ==> (link_place(links, id) matches Some(k) && 0
            <= k <= i && links[k].id == id),
        (forall|j: int| 0 <= j < links.len() ==> (#[trigger] links[j]).id != id) ==> link_place(
            links,
            id,
        ) is None,
        has_link(links, id) <==> link_place(links, id) is Some,
        link_place(links, id) matches Some(k) ==> 0 <= k < links.len() && links[k].id == id
            && forall|j: int| 0 <= j < k ==> (#[trigger] links[j]).id != id,
{
    lemma_link_at_place(links, id);
    if 0 <= i < links.len() && links[i].id == id {
        assert(has_link(links, id));
    }
}

/// What is said of a link's health and age is what the clock says, counted from when it was made:
/// usable while fewer than half of the attempts fail and, after a round trip, for five seconds
/// after it last worked.
pub proof fn health_is_read_from_the_clock<C: ?Sized>(
    links: Seq<LinkView<C>>,
    healthy: Seq<bool>,
    i: int,
    id: Seq<char>,
    ms: u64,
)
    requires
        health_readings(links, healthy),
        0 <= i < links.len(),
    ensures
        healthy.len() == links.len(),
        exists|now_ms: u64| #[trigger]
            elapsed_reading(links[i].made_at, now_ms) && healthy[i] == (
            links[i].health.err_rate_milli < 500 && (links[i].health.rtt_ema_us == 0 || now_ms
                < links[i].health.last_ok_at_ms + 5000)),
        age_reading(links, links[i].id, ms) ==> exists|k: int|
            0 <= k <= i && (#[trigger] links[k]).id == links[i].id && elapsed_reading(
                links[k].made_at,
                ms,
            ),
        (forall|j: int| 0 <= j < links.len() ==> (#[trigger] links[j]).id != id) && age_reading(
            links,
            id,
            ms,
        ) ==> ms == 0,
{
    assert(health_reading(links[i], healthy[i]));
    let now_ms = choose|now_ms: u64|
        elapsed_reading(links[i].made_at, now_ms) && healthy[i] == #[trigger] healthy_at(
            links[i].health,
            now_ms,
        );
    link_is_usable_while_it_works(links[i].health, now_ms);
    assert(elapsed_reading(links[i].made_at, now_ms));
    link_is_found_by_its_id(links, links[i].id, i);
    link_is_found_by_its_id(links, id, i);
    let k = link_place(links, links[i].id)->0;
    assert(links[k].id == links[i].id);
}

/// A session frame is built where the payload can be sealed and fits. Its header has the low
/// sixteen bits of the number, the marks say what was done to the payload, and of all types only a
/// message has its whole number in front of the body.
#[verifier::spinoff_prover]
pub proof fn session_frames_on_the_wire(
    seq: u32,
    t: MessageType,
    payload: Seq<u8>,
    key: Option<Seq<u8>>,
    allow: bool,
    body: Seq<u8>,
    compressed: bool,
    encrypted: bool,
)
    requires
        packed(payload, allow, key, (seq % 0x1_0000) as u16) == Ok::<
            (Seq<u8>, bool, bool),
            PackFault,
        >((body, compressed, encrypted)),
    ensures
        ({
            let extra: nat = if t is Message {
                4
            } else {
                0
            };
            let r = session_frame_of(seq, t, payload, key, allow);
            &&& body.len() + extra > 0xFFFF ==> r == Err::<Seq<u8>, PackFault>(
                PackFault::TooLarge(body.len() + extra),
            )
            &&& body.len() + extra <= 0xFFFF ==> {
                let b = r->Ok_0;
                &&& r is Ok
                &&& b.len() == 8 + extra + body.len()
                &&& b[0] == 0x4D && b[1] == 0x4C && b[2] == 1
                &&& flags_parts(b[3]) == (compressed, encrypted, t)
                &&& 256 * b[4] + b[5] == seq % 0x1_0000
                &&& 256 * b[6] + b[7] == extra + body.len()
                &&& b.subrange((8 + extra) as int, b.len() as int) == body
                &&& t is Message ==> 0x100_0000 * b[8] + 0x1_0000 * b[9] + 256 * b[10] + b[11]
                    == seq
            }
        }),
{
    let whole = session_body(t, seq, body);
    let r = session_frame_of(seq, t, payload, key, allow);
    most_significant_byte_comes_first(seq as nat, 0, 0, 0, 0);
    assert(whole.len() == body.len() + if t is Message {
        4nat
    } else {
        0nat
    });
    if whole.len() <= 0xFFFF {
        let flags = flags_value(compressed, encrypted, t) as u8;
        let b = frame_bytes(flags, low_seq(seq), whole);
        assert(r == Ok::<Seq<u8>, PackFault>(b));
        flags_round_trip(compressed, encrypted, t);
        lemma_frame_header(flags, low_seq(seq), whole);
        if t is Message {
            assert(b[8] == whole[0] && b[9] == whole[1] && b[10] == whole[2] && b[11] == whole[3]);
            assert(b.subrange(12, b.len() as int) =~= body);
            lemma_four_bytes(seq);
        } else {
            assert(whole == body);
        }
    }
}

/// A number is the sum of its four bytes.
proof fn lemma_four_bytes(n: u32)
    ensures
        0x100_0000 * ((n / 0x100_0000) as u8) + 0x1_0000 * ((n / 0x1_0000 % 256) as u8) + 256 * ((n
            / 256 % 256) as u8) + ((n % 256) as u8) == n,
{
    assert(n / 0x1_0000 == n / 0x100_0000 * 256 + n / 0x1_0000 % 256);
    assert(n / 256 == n / 0x1_0000 * 256 + n / 256 % 256);
    assert(n == n / 256 * 256 + n % 256);
}

/// The header and the payload of a frame.
proof fn lemma_frame_header(flags: u8, seq: u16, payload: Seq<u8>)
    requires
        payload.len() <= 0xFFFF,
    ensures
        ({
            let b = frame_bytes(flags, seq, payload);
            &&& b.len() == 8 + payload.len()
            &&& b[0] == 0x4D && b[1] == 0x4C && b[2] == 1
            &&& b[3] == flags
            &&& 256 * b[4] + b[5] == seq
            &&& 256 * b[6] + b[7] == payload.len()
            &&& b.subrange(8, b.len() as int) == payload
            &&& forall|i: int| 0 <= i < payload.len() ==> #[trigger] payload[i] == b[8 + i]
        }),
{
    frame_layout(flags, seq, payload);
    let b = frame_bytes(flags, seq, payload);
    assert(b.subrange(8, b.len() as int) =~= payload);
}

/// A payload that cannot be sealed gives no session frame, for the same reason.
pub proof fn unsealed_payload_gives_no_frame(
    seq: u32,
    t: MessageType,
    payload: Seq<u8>,
    key: Option<Seq<u8>>,
    allow: bool,
)
    ensures
        packed(payload, allow, key, (seq % 0x1_0000) as u16) matches Err(fault)
            ==> session_frame_of(seq, t, payload, key, allow) == Err::<Seq<u8>, PackFault>(fault),
        or_empty(None) == Seq::<char>::empty(),
        forall|name: Seq<char>| #[trigger] or_empty(Some(name)) == name,
{
}

/// Messages that are sent one after the other carry numbers that follow one another.
pub proof fn numbers_follow_one_another<C: ?Sized>(
    s: SessionView<C>,
    mid: SessionView<C>,
    settled: SessionView<C>,
    end: SessionView<C>,
    first: Transmit<C>,
    second: Transmit<C>,
    types: (MessageType, MessageType),
    payloads: (Seq<u8>, Seq<u8>),
    keys: (Option<Seq<u8>>, Option<Seq<u8>>),
    compress: (bool, bool),
    healthy: (Seq<bool>, Seq<bool>, Seq<bool>),
    ok: bool,
    now_ms: u64,
    outcome: SendOutcome<C>,
)
    requires
        send_begun(s, mid, types.0, payloads.0, keys.0, compress.0, healthy.0, Ok(first)),
        send_settled(mid, settled, first, ok, now_ms, healthy.1, outcome),
        send_begun(settled, end, types.1, payloads.1, keys.1, compress.1, healthy.2, Ok(second)),
    ensures
        first.seq < u32::MAX ==> second.seq == first.seq + 1,
        first.seq == u32::MAX ==> second.seq == 0,
{
}

/// A frame that was written waits behind the others for its acknowledgement, as it was written.
/// At most 256 frames wait: only where that many do the oldest one gives way.
pub proof fn written_frame_waits<C: ?Sized>(
    before: SessionView<C>,
    after: SessionView<C>,
    t: Transmit<C>,
    now_ms: u64,
    healthy: Seq<bool>,
    r: SendOutcome<C>,
)
    requires
        before.unacked.len() <= 256,
        send_settled(before, after, t, true, now_ms, healthy, r),
    ensures
        r == SendOutcome::<C>::Sent(t.seq),
        ({
            let n = before.unacked.len() as int;
            let gone: int = if n < 256 {
                0
            } else {
                1
            };
            &&& after.unacked.len() == n + 1 - gone
            &&& forall|k: int|
                gone <= k < n ==> #[trigger] before.unacked[k] == after.unacked[k - gone]
            &&& after.unacked[n - gone].0 == t.seq
            &&& after.unacked[n - gone].1.bytes@ == t.bytes@
            &&& after.unacked[n - gone].1.msg_type == t.msg_type
        }),
        after.active == before.active,
        after.next_seq == before.next_seq,
        after.window == before.window,
        after.streaks == before.streaks,
        after.ack_pending == before.ack_pending,
        after.links == links_after(before.links, t.link_id@, true, now_ms),
{
    let n = before.unacked.len() as int;
    let gone: int = if n < 256 {
        0
    } else {
        1
    };
    let kept = after.unacked.drop_last();
    assert(kept.len() == n - gone && after.unacked.len() == kept.len() + 1);
    assert(after.unacked.last() == after.unacked[n - gone]);
    assert forall|k: int| gone <= k < n implies #[trigger] before.unacked[k] == after.unacked[k
        - gone] by {
        assert(kept[k - gone] == after.unacked[k - gone]);
    }
}

/// A frame that could not be written goes once more, under its number and unchanged, over a
/// usable link with another id that scores highest among those after the failure was noted. That
/// link becomes the active one, and the listeners are told. Where there is none, or the frame was
/// already on its second attempt, sending has failed and the active link stays.
pub proof fn failed_write_goes_over_the_best_other_link<C: ?Sized>(
    before: SessionView<C>,
    after: SessionView<C>,
    t: Transmit<C>,
    now_ms: u64,
    healthy: Seq<bool>,
    r: SendOutcome<C>,
)
    requires
        healthy.len() == before.links.len(),
        send_settled(before, after, t, false, now_ms, healthy, r),
        forall|i: int, j: int|
            0 <= i < before.links.len() && 0 <= j < before.links.len()
                && #[trigger] before.links[i].id == #[trigger] before.links[j].id ==> i == j,
    ensures
        after.links == links_after(before.links, t.link_id@, false, now_ms),
        after == (SessionView { links: after.links, active: after.active, ..before }),
        r is Retry || r is Failed,
        r is Retry <==> !t.retry && exists|i: int|
            0 <= i < before.links.len() && #[trigger] healthy[i] && before.links[i].id
                != t.link_id@,
        r is Failed ==> after.active == before.active,
        r matches SendOutcome::Failed(e) ==> (e matches MlinkError::NoHealthyLink { peer_id }
            && peer_id@ == before.peer_id),
        r matches SendOutcome::Retry(again, event) ==> {
            &&& again.retry
            &&& again.seq == t.seq
            &&& again.msg_type == t.msg_type
            &&& again.bytes@ == t.bytes@
            &&& after.active == Some(again.link_id@)
            &&& event matches SessionEvent::Switched { peer_id, from, to, cause } && peer_id@
                == before.peer_id && to@ == again.link_id@ && cause is ActiveFailed && (
            match before.active {
                Some(id) => from@ == id,
                None => from@.len() == 0,
            })
            &&& exists|i: int|
                {
                    &&& 0 <= i < before.links.len()
                    &&& (#[trigger] before.links[i]).id == again.link_id@
                    &&& again.link_id@ != t.link_id@
                    &&& again.conn == before.links[i].conn
                    &&& healthy[i]
                    &&& forall|j: int|
                        0 <= j < before.links.len() && #[trigger] healthy[j] && before.links[j].id
                            != t.link_id@ ==> link_score(before.links[j]) <= link_score(
                            before.links[i],
                        )
                }
        },
{
    let links = links_after(before.links, t.link_id@, false, now_ms);
    let ex = t.link_id@;
    if exists|i: int|
        0 <= i < before.links.len() && #[trigger] healthy[i] && before.links[i].id != ex {
        let i = choose|i: int|
            0 <= i < before.links.len() && #[trigger] healthy[i] && before.links[i].id != ex;
        let b = lemma_best_after_failure(before.links, healthy, ex, now_ms, i);
        assert(before.links[b].id == links[b].id);
    } else {
        assert forall|i: int| !candidate(links, healthy, ex, i) by {
            if candidate(links, healthy, ex, i) {
                lemma_after_failure(before.links, ex, now_ms, i);
                assert(healthy[i]);
            }
        }
    }
}

/// A failure over one link leaves the others as they were.
proof fn lemma_after_failure<C: ?Sized>(
    links: Seq<LinkView<C>>,
    ex: Seq<char>,
    now_ms: u64,
    i: int,
)
    requires
        0 <= i < links_after(links, ex, false, now_ms).len(),
    ensures
        links_after(links, ex, false, now_ms).len() == links.len(),
        ({
            let l = links_after(links, ex, false, now_ms)[i];
            &&& l.id == links[i].id
            &&& l.conn == links[i].conn
            &&& l.id != ex ==> l == links[i]
        }),
{
    lemma_link_at_place(links, ex);
}

/// The best link with another id, after a failure.
proof fn lemma_best_after_failure<C: ?Sized>(
    links: Seq<LinkView<C>>,
    healthy: Seq<bool>,
    ex: Seq<char>,
    now_ms: u64,
    i: int,
) -> (b: int)
    requires
        healthy.len() == links.len(),
        0 <= i < links.len(),
        healthy[i],
        links[i].id != ex,
        forall|i: int, j: int|
            0 <= i < links.len() && 0 <= j < links.len() && #[trigger] links[i].id
                == #[trigger] links[j].id ==> i == j,
    ensures
        ({
            let after = links_after(links, ex, false, now_ms);
            &&& best_link(after, healthy, ex) == Some(b)
            &&& 0 <= b < links.len()
            &&& healthy[b]
            &&& after[b].id == links[b].id
            &&& links[b].id != ex
            &&& link_place(after, links[b].id) == Some(b)
            &&& after[b].conn == links[b].conn
        }),
        forall|j: int|
            0 <= j < links.len() && #[trigger] healthy[j] && links[j].id != ex ==> link_score(
                links[j],
            ) <= link_score(links[b]),
{
    let after = links_after(links, ex, false, now_ms);
    lemma_links_after(links, ex, false, now_ms);
    lemma_after_failure(links, ex, now_ms, i);
    assert(candidate(after, healthy, ex, i));
    let b = lemma_best_below(after, healthy, ex, after.len() as int, i);
    assert(is_best(after, healthy, ex, b));
    lemma_best_link(after, healthy, ex, b);
    lemma_after_failure(links, ex, now_ms, b);
    assert forall|j: int| 0 <= j < b implies (#[trigger] after[j]).id != links[b].id by {
        lemma_after_failure(links, ex, now_ms, j);
        assert(links[j].id != links[b].id);
    }
    lemma_link_place(after, links[b].id, b);
    assert forall|j: int|
        0 <= j < links.len() && #[trigger] healthy[j] && links[j].id != ex implies link_score(
        links[j],
    ) <= link_score(links[b]) by {
        lemma_after_failure(links, ex, now_ms, j);
        assert(candidate(after, healthy, ex, j));
    }
    b
}

/// What went over a link is noted with that link and no other: a success with the time, a failure
/// with a rate that is no lower.
pub proof fn outcome_is_noted_with_its_link<C: ?Sized>(
    links: Seq<LinkView<C>>,
    i: int,
    ok: bool,
    now_ms: u64,
    other: Seq<char>,
)
    requires
        0 <= i < links.len(),
        links[i].health.err_rate_milli <= 1000,
        forall|j: int| 0 <= j < links.len() && j != i ==> (#[trigger] links[j]).id != links[i].id,
    ensures
        ({
            let after = links_after(links, links[i].id, ok, now_ms);
            &&& after.len() == links.len()
            &&& forall|j: int| 0 <= j < links.len() && j != i ==> #[trigger] after[j] == links[j]
            &&& after[i] == (LinkView { health: after[i].health, ..links[i] })
            &&& ok ==> after[i].health.last_ok_at_ms == now_ms && 8
                * after[i].health.err_rate_milli <= 7 * links[i].health.err_rate_milli < 8
                * after[i].health.err_rate_milli + 8
            &&& !ok ==> after[i].health.last_ok_at_ms == links[i].health.last_ok_at_ms && 8
                * after[i].health.err_rate_milli <= 7 * links[i].health.err_rate_milli + 1000 < 8
                * after[i].health.err_rate_milli + 8
            &&& after[i].health.rtt_ema_us == links[i].health.rtt_ema_us
        }),
        (forall|j: int| 0 <= j < links.len() ==> (#[trigger] links[j]).id != other)
            ==> links_after(links, other, ok, now_ms) == links,
{
    assert(first_link(links, links[i].id, i));
    lemma_link_place(links, links[i].id, i);
    outcomes_move_the_health_by_an_eighth(links[i].health, now_ms, 0);
}

/// A snapshot says of each link what it is, and calls active the one whose id is the active one
/// and no other.
pub proof fn snapshot_tells_the_active_link<C: ?Sized>(
    s: LinkStatus,
    l: LinkView<C>,
    active: Option<Seq<char>>,
)
    requires
        status_matches(s, l, active),
    ensures
        s.link_id@ == l.id,
        s.kind == l.kind,
        s.health == l.health,
        s.role is Active <==> active is Some && active->0 == l.id,
{
}

/// On the wire a message that is neither compressed nor encrypted is the header, its number in
/// four bytes, and the payload; the header has the low sixteen bits of the number.
pub proof fn plain_message_on_the_wire(seq: u32, payload: Seq<u8>, allow: bool)
    requires
        payload.len() < 256 || (!allow && payload.len() + 4 <= 0xFFFF),
    ensures
        ({
            let r = session_frame_of(seq, MessageType::Message, payload, None, allow);
            let b = r->Ok_0;
            &&& r is Ok
            &&& b.len() == 12 + payload.len()
            &&& b[0] == 0x4D && b[1] == 0x4C && b[2] == 1 && b[3] == 0x10
            &&& 256 * b[4] + b[5] == seq % 0x1_0000
            &&& 256 * b[6] + b[7] == 4 + payload.len()
            &&& 0x100_0000 * b[8] + 0x1_0000 * b[9] + 256 * b[10] + b[11] == seq
            &&& b.subrange(12, b.len() as int) == payload
        }),
{
    let t = MessageType::Message;
    plain_payload_is_never_refused(payload, allow, Seq::empty(), low_seq(seq));
    let (body, compressed, encrypted) = packed(payload, allow, None, low_seq(seq))->Ok_0;
    payload_is_compressed_then_encrypted(
        payload,
        allow,
        None,
        low_seq(seq),
        body,
        compressed,
        encrypted,
    );
    session_frames_on_the_wire(seq, t, payload, None, allow, body, compressed, encrypted);
    let b = session_frame_of(seq, t, payload, None, allow)->Ok_0;
    assert(b[3] == 0x10) by {
        message_type_code_round_trip(t);
        message_types_on_the_wire();
        marks_are_the_two_high_bits(0, false, false, t);
        lemma_frame_header(
            flags_value(false, false, t) as u8,
            low_seq(seq),
            session_body(t, seq, payload),
        );
    }
}

/// Whether the links of `after` are those of `before`, made when they were made; only their
/// health may differ.
pub open spec fn same_links<C: ?Sized>(
    before: Seq<LinkView<C>>,
    after: Seq<LinkView<C>>,
) -> bool {
    &&& after.len() == before.len()
    &&& forall|i: int|
        0 <= i < before.len() ==> #[trigger] after[i] == (LinkView {
            health: after[i].health,
            ..before[i]
        })
}

/// Sending leaves the links in their places, and none of them gets younger: only their health
/// changes.
pub proof fn sending_keeps_the_links<C: ?Sized>(
    s: SessionView<C>,
    begun: SessionView<C>,
    settled: SessionView<C>,
    msg_type: MessageType,
    payload: Seq<u8>,
    key: Option<Seq<u8>>,
    compress: bool,
    healthy: Seq<bool>,
    r: Result<Transmit<C>>,
    t: Transmit<C>,
    ok: bool,
    now_ms: u64,
    later: Seq<bool>,
    outcome: SendOutcome<C>,
)
    requires
        send_begun(s, begun, msg_type, payload, key, compress, healthy, r),
        send_settled(begun, settled, t, ok, now_ms, later, outcome),
    ensures
        begun.links == s.links,
        same_links(s.links, settled.links),
{
    lemma_links_after(begun.links, t.link_id@, ok, now_ms);
}

/// An attempt over a link changes that link's health alone.
pub proof fn lemma_links_after<C: ?Sized>(
    links: Seq<LinkView<C>>,
    id: Seq<char>,
    ok: bool,
    now_ms: u64,
)
    ensures
        same_links(links, links_after(links, id, ok, now_ms)),
{
    lemma_link_at_place(links, id);
}

/// A session that has handed out one more sequence number.
pub open spec fn sequenced<C: ?Sized>(s: SessionView<C>, active: Option<Seq<char>>) -> SessionView<
    C,
> {
    SessionView { next_seq: ((s.next_seq + 1) % 0x1_0000_0000) as u32, active, ..s }
}

} // verus!
