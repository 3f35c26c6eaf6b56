//! Receiving over a session: duplicates are dropped, and acknowledgements are sent late and
//! together.
//!
//! The payload of a `Message` frame starts with four bytes of session sequence number; what
//! follows is the application's. The payload of an `Ack` frame is an acknowledgement. Frames of
//! other types are not the session's business.

use std::sync::Arc;
use std::time::Instant;

use vstd::prelude::*;

use crate::clock::{elapsed_reading, millis_between, millis_since, millis_until, now};
use crate::mesh::link::LinkView;
use crate::mesh::payload::{packed, payload_is_compressed_then_encrypted};
use crate::mesh::session::io::{
    age_reading, lemma_link_at_place, lemma_link_place, lemma_links_after, link_place,
    links_after, low_seq, released, same_links, send_begun, session_body, session_frame_of,
    Transmit,
};
use crate::mesh::session::types::{
    AckPending, PendingFrame, SessionEvent, ACK_MAX_DELAY_MS, ACK_MAX_PENDING,
};
use crate::mesh::session::{first_link, has_link, Session, SessionView};
use crate::protocol::ack::{
    ack_bytes, ack_round_trip, acknowledgement_is_exact, after_cumulative, decode_ack, encode_ack,
    sack_names, seq_at_or_after, AckFrame, ACK_FRAME_BYTES,
};
use crate::protocol::errors::{MlinkError, Result};
use crate::protocol::frame::{
    decode_frame, encode_frame, frame_bytes, frame_fault, frame_layout, frame_round_trip,
    frames_are_recognised,
};
use crate::protocol::seq::{
    counts_as_seen, in_window, observation, observed, observed_number_is_duplicate,
    seen_number_stays_seen, seen_or_old_number_is_refused, seq_distance,
    unseen_number_is_accepted, window_holds_the_last_128, window_ok, Observation, WindowView,
    SEQ_HALF,
};
use crate::protocol::types::{
    decode_flags, encode_flags, flags_parts, flags_round_trip, flags_value,
    marks_are_the_two_high_bits, message_type_code_round_trip, message_types_on_the_wire, Frame,
    MessageType, HEADER_SIZE, MAGIC, PROTOCOL_VERSION,
};
use crate::protocol::wire::{
    be_bytes, be_value, copy_range, lemma_be_round_trip, lemma_byte_ranges,
    most_significant_byte_comes_first, read_be,
};
use crate::text::str_eq;

verus! {

/// The width of the sequence number in front of a message.
pub const SESSION_SEQ_HEADER: usize = 4;

/// How long a read waits when nothing is to be acknowledged.
pub const IDLE_WAIT_MS: u64 = 60_000;

/// Whether an acknowledgement is due: enough messages wait for it, or one has waited long
/// enough.
pub open spec fn ack_due(count: u32, waited_ms: Option<u64>) -> bool {
    count >= ACK_MAX_PENDING || (waited_ms matches Some(w) && w >= ACK_MAX_DELAY_MS)
}

/// [`ack_should_flush`], for a message that has waited `waited_ms`.
pub fn ack_is_due(count: u32, waited_ms: Option<u64>) -> (r: bool)
    ensures
        r == ack_due(count, waited_ms),
{
    if count >= ACK_MAX_PENDING as u32 {
        return true;
    }
    match waited_ms {
        Some(w) => w >= ACK_MAX_DELAY_MS,
        None => false,
    }
}

/// Whether `w` is how long the first unacknowledged message has waited, at some reading of the
/// clock; `None` where none waits.
pub open spec fn waited_reading(p: AckPending, w: Option<u64>) -> bool {
    match p.first_pending_at {
        Some(t) => w matches Some(ms) && elapsed_reading(t, ms),
        None => w is None,
    }
}

/// How long the first unacknowledged message has waited.
fn waited(p: &AckPending) -> (r: Option<u64>)
    ensures
        waited_reading(*p, r),
{
    match &p.first_pending_at {
        Some(t) => Some(millis_since(t)),
        None => None,
    }
}

/// Whether an acknowledgement is due now.
pub fn ack_should_flush(p: &AckPending) -> (r: bool)
    ensures
        exists|w: Option<u64>|
            waited_reading(*p, w) && r == #[trigger] ack_due(p.count, w),
{
    let w = waited(p);
    ack_is_due(p.count, w)
}

/// One more message waits to be acknowledged.
pub open spec fn one_more(p: AckPending, at: Instant) -> AckPending {
    AckPending {
        count: if p.count < u32::MAX {
            (p.count + 1) as u32
        } else {
            u32::MAX
        },
        first_pending_at: match p.first_pending_at {
            Some(t) => Some(t),
            None => Some(at),
        },
    }
}

/// Nothing waits to be acknowledged.
pub open spec fn none_pending() -> AckPending {
    AckPending { count: 0, first_pending_at: None }
}

/// The acknowledgement of a window whose newest number is `last`: everything up to it. Bits stand
/// for newer numbers, and none of those has come.
pub open spec fn ack_of(last: u32) -> AckFrame {
    AckFrame { ack: last, bitmap: 0 }
}

/// The frame that carries an acknowledgement.
pub open spec fn ack_frame_of(a: AckFrame) -> Seq<u8> {
    frame_bytes(flags_value(false, false, MessageType::Ack) as u8, 0, ack_bytes(a))
}

/// Puts an acknowledgement into a frame.
pub fn encode_ack_frame(ack: &AckFrame) -> (bytes: Vec<u8>)
    ensures
        bytes@ == ack_frame_of(*ack),
{
    let body = encode_ack(ack);
    let frame = Frame {
        magic: MAGIC,
        version: PROTOCOL_VERSION,
        flags: encode_flags(false, false, MessageType::Ack),
        seq: 0,
        length: body.len() as u16,
        payload: body,
    };
    encode_frame(&frame)
}

/// An acknowledgement that is to be written to a connection.
pub struct AckToSend<C: ?Sized> {
    pub link_id: String,
    pub conn: Arc<C>,
    pub bytes: Vec<u8>,
}

/// What a read has brought.
pub enum ReadOutcome {
    /// A message, under its sequence number.
    Msg(u32, Vec<u8>),
    /// Nothing for the application; read on.
    Continue,
    /// No link is left to read from.
    AllLinksGone,
}

/// What a read asks for: a link to read from.
pub struct ReadSource<C: ?Sized> {
    pub link_id: String,
    pub conn: Arc<C>,
}

/// What the next read needs: an acknowledgement to write first, and the links to read from. How
/// long the read may wait, [`Session::read_wait`] says once the acknowledgement is written.
pub struct RecvPlan<C: ?Sized> {
    pub ack: Option<AckToSend<C>>,
    pub sources: Vec<ReadSource<C>>,
}

/// Whether `out` is what flushing the acknowledgements of `s` sends: nothing where nothing
/// waits, where nothing has come, or where the active link is gone.
pub open spec fn ack_sent<C: ?Sized>(s: SessionView<C>, out: Option<AckToSend<C>>) -> bool {
    if s.ack_pending.count == 0 || s.window.last is None || s.active is None || !has_link(
        s.links,
        s.active->0,
    ) {
        out is None
    } else {
        &&& out matches Some(a)
        &&& a.link_id@ == s.active->0
        &&& link_place(s.links, s.active->0) matches Some(i) && a.conn == s.links[i].conn
        &&& a.bytes@ == ack_frame_of(ack_of(s.window.last->0))
    }
}

/// The session after its acknowledgements were flushed.
pub open spec fn ack_flushed<C: ?Sized>(s: SessionView<C>) -> SessionView<C> {
    if s.ack_pending.count == 0 {
        s
    } else {
        SessionView { ack_pending: none_pending(), ..s }
    }
}

/// The session after an attempt to write an acknowledgement to a link.
pub open spec fn ack_settled<C: ?Sized>(
    s: SessionView<C>,
    link_id: Seq<char>,
    ok: bool,
    now_ms: u64,
    at: Instant,
) -> SessionView<C> {
    SessionView {
        links: links_after(s.links, link_id, ok, now_ms),
        ack_pending: if ok {
            s.ack_pending
        } else {
            one_more(s.ack_pending, at)
        },
        ..s
    }
}

/// The session after a read over a link that went well at `now_ms`.
pub open spec fn read_noted<C: ?Sized>(
    s: SessionView<C>,
    link_id: Seq<char>,
    now_ms: u64,
) -> SessionView<C> {
    SessionView { links: links_after(s.links, link_id, true, now_ms), ..s }
}

/// How long a read that starts at `at` may wait: until the first unacknowledged message has waited
/// long enough.
pub open spec fn wait_of(p: AckPending, at: Instant) -> u64 {
    match p.first_pending_at {
        None => IDLE_WAIT_MS,
        Some(t) => if millis_between(t, at) >= ACK_MAX_DELAY_MS {
            0
        } else {
            (ACK_MAX_DELAY_MS - millis_between(t, at)) as u64
        },
    }
}

/// The payload of the frame at the start of `bytes`.
pub open spec fn payload_of(bytes: Seq<u8>) -> Seq<u8> {
    bytes.subrange(HEADER_SIZE as int, HEADER_SIZE + be_value(bytes.subrange(6, 8)))
}

/// The sequence number and the body of a message, where `bytes` is a frame that holds one.
pub open spec fn message_in(bytes: Seq<u8>) -> Option<(u32, Seq<u8>)> {
    if frame_fault(bytes) is None && flags_parts(bytes[3]).2 is Message && payload_of(bytes).len()
        >= SESSION_SEQ_HEADER {
        let p = payload_of(bytes);
        Some((be_value(p.subrange(0, 4)) as u32, p.subrange(4, p.len() as int)))
    } else {
        None
    }
}

/// The acknowledgement in `bytes`, where it is a frame that holds one.
pub open spec fn ack_in(bytes: Seq<u8>) -> Option<AckFrame> {
    if frame_fault(bytes) is None && flags_parts(bytes[3]).2 is Ack && payload_of(bytes).len()
        >= ACK_FRAME_BYTES {
        let p = payload_of(bytes);
        Some(
            AckFrame {
                ack: be_value(p.subrange(0, 4)) as u32,
                bitmap: be_value(p.subrange(4, 20)) as u128,
            },
        )
    } else {
        None
    }
}

/// What a session makes of bytes that arrived at `at`: a new message is marked, counted and
/// handed on; enough of them are acknowledged at once; an acknowledgement releases what it
/// names; everything else is ignored.
pub open spec fn bytes_handled<C: ?Sized>(
    before: SessionView<C>,
    after: SessionView<C>,
    bytes: Seq<u8>,
    at: Instant,
    r: ReadOutcome,
    out: Option<AckToSend<C>>,
) -> bool {
    match (message_in(bytes), ack_in(bytes)) {
        (Some((seq, body)), _) => if observation(before.window, seq) is Accept {
            let marked = SessionView {
                window: observed(before.window, seq),
                ack_pending: one_more(before.ack_pending, at),
                ..before
            };
            &&& r matches ReadOutcome::Msg(s, b) && s == seq && b@ == body
            &&& if marked.ack_pending.count >= ACK_MAX_PENDING {
                after == ack_flushed(marked) && ack_sent(marked, out)
            } else {
                after == marked && out is None
            }
        } else {
            r is Continue && after == before && out is None
        },
        (None, Some(ack)) => {
            &&& r is Continue
            &&& after == (SessionView { unacked: released(before.unacked, ack), ..before })
            &&& out is None
        },
        (None, None) => r is Continue && after == before && out is None,
    }
}

impl<C: ?Sized> Session<C> {
    /// Takes the waiting acknowledgements together, as one frame for the active link.
    pub fn flush_ack_now(&mut self) -> (out: Option<AckToSend<C>>)
        requires
            old(self).wf(),
        ensures
            final(self).wf(),
            final(self)@ == ack_flushed(old(self)@),
            ack_sent(old(self)@, out),
    {
        if self.ack_pending.count == 0 {
            return None;
        }
        self.ack_pending = AckPending::default();
        let last: u32 = match self.dedup.newest() {
            Some(last) => last,
            None => {
                return None;
            },
        };
        let frame = AckFrame { ack: last, bitmap: 0 };
        let bytes = encode_ack_frame(&frame);
        match &self.active {
            None => None,
            Some(id) => match self.position(id.as_str()) {
                None => None,
                Some(i) => {
                    let conn = self.links[i].conn().clone();
                    assert(conn == self@.links[i as int].conn);
                    assert(self@.links[i as int].id == id@);
                    Some(AckToSend { link_id: id.clone(), conn, bytes })
                },
            },
        }
    }

    /// Takes note of the attempt, which ended at `at`, to write an acknowledgement to a link.
    /// Where it failed the acknowledgement waits for the next time.
    pub fn settle_ack(&mut self, link_id: &str, ok: bool, now_ms: u64, at: Instant)
        requires
            old(self).wf(),
        ensures
            final(self).wf(),
            final(self)@ == ack_settled(old(self)@, link_id@, ok, now_ms, at),
    {
        self.note_outcome(link_id, ok, now_ms);
        if !ok {
            self.ack_pending.count = self.ack_pending.count.saturating_add(1);
            if self.ack_pending.first_pending_at.is_none() {
                self.ack_pending.first_pending_at = Some(at);
            }
        }
    }

    /// [`Session::settle_ack`], with the clock as it is now.
    pub fn finish_ack(&mut self, link_id: &str, ok: bool)
        requires
            old(self).wf(),
        ensures
            final(self).wf(),
            exists|now_ms: u64, at: Instant|
                age_reading(old(self)@.links, link_id@, now_ms) && final(self)@
                    == #[trigger] ack_settled(old(self)@, link_id@, ok, now_ms, at),
    {
        let now_ms: u64 = self.age_of(link_id);
        let at = now();
        self.settle_ack(link_id, ok, now_ms, at);
    }

    /// What the next read needs, when the first unacknowledged message has waited `waited_ms`.
    pub fn plan_recv(&mut self, waited_ms: Option<u64>) -> (r: Result<RecvPlan<C>>)
        requires
            old(self).wf(),
        ensures
            final(self).wf(),
            recv_planned(old(self)@, final(self)@, waited_ms, r),
    {
        if self.links.len() == 0 {
            return Err(MlinkError::NoHealthyLink { peer_id: self.peer_id.clone() });
        }
        let due = ack_is_due(self.ack_pending.count, waited_ms);
        let ack = if due {
            self.flush_ack_now()
        } else {
            None
        };
        let mut sources: Vec<ReadSource<C>> = Vec::new();
        let mut i: usize = 0;
        while i < self.links.len()
            invariant
                i <= self.links.len(),
                sources@.len() == i,
                forall|j: int|
                    0 <= j < i ==> (#[trigger] sources@[j]).link_id@ == self@.links[j].id
                        && sources@[j].conn == self@.links[j].conn,
            decreases self.links.len() - i,
        {
            let l = &self.links[i];
            assert(l@ == self@.links[i as int]);
            sources.push(ReadSource { link_id: l.id().to_owned(), conn: l.conn().clone() });
            i = i + 1;
        }
        Ok(RecvPlan { ack, sources })
    }

    /// [`Session::plan_recv`], with the clock as it is now.
    pub fn recv(&mut self) -> (r: Result<RecvPlan<C>>)
        requires
            old(self).wf(),
        ensures
            final(self).wf(),
            exists|w: Option<u64>|
                waited_reading(old(self)@.ack_pending, w) && #[trigger] recv_planned(
                    old(self)@,
                    final(self)@,
                    w,
                    r,
                ),
    {
        let w = waited(&self.ack_pending);
        self.plan_recv(w)
    }

    /// How long a read that starts at `at` may wait, in milliseconds, before the acknowledgements
    /// are looked at again.
    pub fn read_wait_at(&self, at: Instant) -> (ms: u64)
        ensures
            ms == wait_of(self@.ack_pending, at),
    {
        match &self.ack_pending.first_pending_at {
            None => IDLE_WAIT_MS,
            Some(t) => {
                let w: u64 = millis_until(t, &at);
                if w >= ACK_MAX_DELAY_MS {
                    0
                } else {
                    ACK_MAX_DELAY_MS - w
                }
            },
        }
    }

    /// [`Session::read_wait_at`], with the clock as it is now.
    pub fn read_wait(&self) -> (ms: u64)
        ensures
            exists|at: Instant| ms == #[trigger] wait_of(self@.ack_pending, at),
    {
        let at = now();
        self.read_wait_at(at)
    }

    /// Takes in bytes that arrived at `at`.
    pub fn handle_bytes(&mut self, bytes: &[u8], at: Instant) -> (r: (
        ReadOutcome,
        Option<AckToSend<C>>,
    ))
        requires
            old(self).wf(),
        ensures
            final(self).wf(),
            bytes_handled(old(self)@, final(self)@, bytes@, at, r.0, r.1),
    {
        let frame = match decode_frame(bytes) {
            Ok(f) => f,
            Err(_) => {
                return (ReadOutcome::Continue, None);
            },
        };
        assert(frame.payload@ == payload_of(bytes@));
        let (_, _, msg_type) = decode_flags(frame.flags);
        match msg_type {
            MessageType::Ack => {
                if let Ok(ack) = decode_ack(frame.payload.as_slice()) {
                    assert(ack_in(bytes@) == Some(ack));
                    self.on_ack(&ack);
                }
                (ReadOutcome::Continue, None)
            },
            MessageType::Message => self.consume_message(frame.payload, bytes, at),
            _ => (ReadOutcome::Continue, None),
        }
    }

    fn consume_message(&mut self, payload: Vec<u8>, bytes: &[u8], at: Instant) -> (r: (
        ReadOutcome,
        Option<AckToSend<C>>,
    ))
        requires
            old(self).wf(),
            frame_fault(bytes@) is None,
            flags_parts(bytes@[3]).2 is Message,
            payload@ == payload_of(bytes@),
        ensures
            final(self).wf(),
            bytes_handled(old(self)@, final(self)@, bytes@, at, r.0, r.1),
    {
        if payload.len() < SESSION_SEQ_HEADER {
            return (ReadOutcome::Continue, None);
        }
        proof {
            lemma_byte_ranges();
        }
        let seq: u32 = read_be(payload.as_slice(), 0, 4) as u32;
        let body = copy_range(payload.as_slice(), SESSION_SEQ_HEADER, payload.len());
        assert(message_in(bytes@) == Some((seq, body@)));
        match self.dedup.observe(seq) {
            Observation::Duplicate | Observation::Stale => (ReadOutcome::Continue, None),
            Observation::Accept => {
                self.ack_pending.count = self.ack_pending.count.saturating_add(1);
                if self.ack_pending.first_pending_at.is_none() {
                    self.ack_pending.first_pending_at = Some(at);
                }
                let out = if self.ack_pending.count >= ACK_MAX_PENDING as u32 {
                    self.flush_ack_now()
                } else {
                    None
                };
                (ReadOutcome::Msg(seq, body), out)
            },
        }
    }

    /// Takes in what a read over a link has brought at `at`.
    pub fn handle_read(&mut self, link_id: &str, bytes: &[u8], now_ms: u64, at: Instant) -> (r: (
        ReadOutcome,
        Option<AckToSend<C>>,
    ))
        requires
            old(self).wf(),
        ensures
            final(self).wf(),
            bytes_handled(
                read_noted(old(self)@, link_id@, now_ms),
                final(self)@,
                bytes@,
                at,
                r.0,
                r.1,
            ),
    {
        self.note_outcome(link_id, true, now_ms);
        self.handle_bytes(bytes, at)
    }

    /// [`Session::handle_read`], with the clock as it is now.
    pub fn on_read(&mut self, link_id: &str, bytes: &[u8]) -> (r: (
        ReadOutcome,
        Option<AckToSend<C>>,
    ))
        requires
            old(self).wf(),
        ensures
            final(self).wf(),
            exists|now_ms: u64, at: Instant|
                age_reading(old(self)@.links, link_id@, now_ms) && #[trigger] bytes_handled(
                    read_noted(old(self)@, link_id@, now_ms),
                    final(self)@,
                    bytes@,
                    at,
                    r.0,
                    r.1,
                ),
    {
        let now_ms: u64 = self.age_of(link_id);
        let at = now();
        self.handle_read(link_id, bytes, now_ms, at)
    }

    fn note_outcome(&mut self, link_id: &str, ok: bool, now_ms: u64)
        requires
            old(self).wf(),
        ensures
            final(self).wf(),
            final(self)@ == (SessionView {
                links: links_after(old(self)@.links, link_id@, ok, now_ms),
                ..old(self)@
            }),
    {
        let ghost before = self@;
        if let Some(i) = self.position(link_id) {
            self.links[i].record_outcome_at(ok, now_ms);
            proof {
                assert(self@.links =~= links_after(before.links, link_id@, ok, now_ms));
            }
        }
    }

    /// Takes note of a read over a link that failed. The session goes on as long as there is
    /// another link.
    pub fn read_failed(&mut self, link_id: &str) -> (r: (ReadOutcome, SessionEvent))
        requires
            old(self).wf(),
        ensures
            final(self).wf(),
            final(self)@ == (SessionView {
                links: links_after(old(self)@.links, link_id@, false, 0),
                ..old(self)@
            }),
            r.1.is_removed(old(self)@.peer_id, link_id@, "recv_error"@),
            if has_other_link(old(self)@.links, link_id@) {
                r.0 is Continue
            } else {
                r.0 is AllLinksGone
            },
    {
        let ghost before = self@;
        let event = SessionEvent::LinkRemoved {
            peer_id: self.peer_id.clone(),
            link_id: link_id.to_owned(),
            reason: "recv_error".to_owned(),
        };
        let mut other = false;
        let mut i: usize = 0;
        while i < self.links.len()
            invariant
                i <= self.links.len(),
                other <==> exists|j: int|
                    0 <= j < i && (#[trigger] self@.links[j]).id != link_id@,
            decreases self.links.len() - i,
        {
            if !str_eq(self.links[i].id(), link_id) {
                assert(self@.links[i as int].id != link_id@);
                other = true;
            }
            i = i + 1;
        }
        self.note_outcome(link_id, false, 0);
        if other {
            (ReadOutcome::Continue, event)
        } else {
            (ReadOutcome::AllLinksGone, event)
        }
    }
}

/// A message that a session has put into a frame is read under the number that it was sent
/// under, with the body that was sealed; that is the payload itself where it was neither
/// compressed nor encrypted.
#[verifier::spinoff_prover]
pub proof fn sent_message_is_received(
    seq: u32,
    payload: Seq<u8>,
    key: Option<Seq<u8>>,
    allow: bool,
)
    requires
        session_frame_of(seq, MessageType::Message, payload, key, allow) is Ok,
    ensures
        ({
            let bytes = session_frame_of(seq, MessageType::Message, payload, key, allow)->Ok_0;
            let sealed = packed(payload, allow, key, low_seq(seq))->Ok_0;
            &&& message_in(bytes) == Some((seq, sealed.0))
            &&& flags_parts(bytes[3]) == (sealed.1, sealed.2, MessageType::Message)
            &&& !sealed.1 && !sealed.2 ==> sealed.0 == payload
        }),
{
    let bytes = session_frame_of(seq, MessageType::Message, payload, key, allow)->Ok_0;
    let (sealed, compressed, encrypted) = packed(payload, allow, key, low_seq(seq))->Ok_0;
    let body = session_body(MessageType::Message, seq, sealed);
    let flags = flags_value(compressed, encrypted, MessageType::Message) as u8;
    assert(body.len() == 4 + sealed.len() && be_value(body.subrange(0, 4)) == seq
        && body.subrange(4, body.len() as int) == sealed) by {
        lemma_byte_ranges();
        lemma_be_round_trip(seq as nat, 4);
        assert(body.subrange(0, 4) =~= be_bytes(seq as nat, 4));
        assert(body.subrange(4, body.len() as int) =~= sealed);
    }
    assert(frame_fault(bytes) is None && bytes[3] == flags && payload_of(bytes) == body) by {
        frame_round_trip(flags, low_seq(seq), body, Seq::empty());
        assert(bytes + Seq::empty() =~= bytes);
    }
    flags_round_trip(compressed, encrypted, MessageType::Message);
}

/// An acknowledgement that a session has put into a frame is read as it was.
pub proof fn sent_ack_is_received(a: AckFrame)
    ensures
        ack_in(ack_frame_of(a)) == Some(a),
{
    ack_round_trip(a);
    flags_round_trip(false, false, MessageType::Ack);
    let flags = flags_value(false, false, MessageType::Ack) as u8;
    frame_round_trip(flags, 0, ack_bytes(a), Seq::empty());
    assert(ack_frame_of(a) + Seq::empty() =~= ack_frame_of(a));
}

/// What stands in a frame that holds a message: four bytes of sequence number, then the body.
proof fn lemma_message_in(bytes: Seq<u8>, seq: u32)
    requires
        bytes.len() >= 12,
        bytes.len() >= 8 + 256 * bytes[6] + bytes[7],
        bytes[0] == 0x4D && bytes[1] == 0x4C && bytes[2] == 1,
        bytes[3] & 0x3F == 0x10,
        256 * bytes[6] + bytes[7] >= 4,
        seq == 0x100_0000 * bytes[8] + 0x1_0000 * bytes[9] + 256 * bytes[10] + bytes[11],
    ensures
        message_in(bytes) == Some((seq, bytes.subrange(12, 8 + 256 * bytes[6] + bytes[7]))),
        ack_in(bytes) is None,
{
    lemma_frame_payload(bytes);
    let p = payload_of(bytes);
    message_types_on_the_wire();
    marks_are_the_two_high_bits(bytes[3], false, false, MessageType::Message);
    assert(p.subrange(0, 4) =~= seq![bytes[8], bytes[9], bytes[10], bytes[11]]);
    most_significant_byte_comes_first(0, bytes[8], bytes[9], bytes[10], bytes[11]);
    assert(p.subrange(4, p.len() as int) =~= bytes.subrange(
        12,
        8 + 256 * bytes[6] + bytes[7],
    ));
}

/// The payload of a frame stands behind its header.
proof fn lemma_frame_payload(bytes: Seq<u8>)
    requires
        bytes.len() >= 8,
        bytes.len() >= 8 + 256 * bytes[6] + bytes[7],
        bytes[0] == 0x4D && bytes[1] == 0x4C && bytes[2] == 1,
    ensures
        frame_fault(bytes) is None,
        payload_of(bytes) == bytes.subrange(8, 8 + 256 * bytes[6] + bytes[7]),
{
    let f = Frame {
        magic: MAGIC,
        version: PROTOCOL_VERSION,
        flags: bytes[3],
        seq: 0,
        length: 0,
        payload: arbitrary(),
    };
    frames_are_recognised(bytes, f);
    assert(bytes.subrange(6, 8) =~= seq![bytes[6], bytes[7]]);
    most_significant_byte_comes_first(0, bytes[6], bytes[7], 0, 0);
}

/// A message whose number was not seen reaches the application, with the bytes that follow its
/// number, and is marked: whether it is newer than the newest one or up to 127 older, so that
/// messages that overtake one another on different links all arrive. What was seen before stays
/// marked while it is less than 128 behind the newest. The links, what was sent and the next
/// number are left alone.
pub proof fn unseen_message_is_delivered<C: ?Sized>(
    before: SessionView<C>,
    after: SessionView<C>,
    bytes: Seq<u8>,
    at: Instant,
    r: ReadOutcome,
    out: Option<AckToSend<C>>,
    seq: u32,
)
    requires
        before.window.last is None ==> before.window.marks == Set::<u32>::empty(),
        before.window.last matches Some(last) ==> forall|n: u32| #[trigger]
            before.window.marks.contains(n) ==> (last as int - n as int) % 0x1_0000_0000 < 128,
        bytes_handled(before, after, bytes, at, r, out),
        bytes.len() >= 12,
        bytes.len() >= 8 + 256 * bytes[6] + bytes[7],
        bytes[0] == 0x4D && bytes[1] == 0x4C && bytes[2] == 1,
        bytes[3] & 0x3F == 0x10,
        256 * bytes[6] + bytes[7] >= 4,
        seq == 0x100_0000 * bytes[8] + 0x1_0000 * bytes[9] + 256 * bytes[10] + bytes[11],
        !before.window.marks.contains(seq),
        before.window.last matches Some(last) ==> (seq as int - last as int) % 0x1_0000_0000
            < 0x8000_0000 || (last as int - seq as int) % 0x1_0000_0000 < 128,
    ensures
        r matches ReadOutcome::Msg(s, body) && s == seq && body@ == bytes.subrange(
            12,
            8 + 256 * bytes[6] + bytes[7],
        ),
        after.window.marks.contains(seq),
        after.window.last is Some,
        forall|m: u32|
            before.window.marks.contains(m) && (after.window.last->0 as int - m as int)
                % 0x1_0000_0000 < 128 ==> #[trigger] after.window.marks.contains(m),
        forall|m: u32| #[trigger]
            after.window.marks.contains(m) ==> m == seq || before.window.marks.contains(m),
        after == (SessionView { window: after.window, ack_pending: after.ack_pending, ..before }),
{
    lemma_message_in(bytes, seq);
    unseen_number_is_accepted(before.window, seq, seq);
    assert forall|m: u32|
        before.window.marks.contains(m) && (after.window.last->0 as int - m as int) % 0x1_0000_0000
            < 128 implies #[trigger] after.window.marks.contains(m) by {
        unseen_number_is_accepted(before.window, seq, m);
    }
    assert forall|m: u32| #[trigger] after.window.marks.contains(m) implies m == seq
        || before.window.marks.contains(m) by {
        unseen_number_is_accepted(before.window, seq, m);
    }
}

/// A message is dropped without a trace where its number was seen, or is 128 or more behind the
/// newest one.
pub proof fn seen_or_old_message_is_dropped<C: ?Sized>(
    before: SessionView<C>,
    after: SessionView<C>,
    bytes: Seq<u8>,
    at: Instant,
    r: ReadOutcome,
    out: Option<AckToSend<C>>,
    seq: u32,
    last: u32,
)
    requires
        before.window.last == Some(last),
        bytes_handled(before, after, bytes, at, r, out),
        bytes.len() >= 12,
        bytes.len() >= 8 + 256 * bytes[6] + bytes[7],
        bytes[0] == 0x4D && bytes[1] == 0x4C && bytes[2] == 1,
        bytes[3] & 0x3F == 0x10,
        256 * bytes[6] + bytes[7] >= 4,
        seq == 0x100_0000 * bytes[8] + 0x1_0000 * bytes[9] + 256 * bytes[10] + bytes[11],
        (before.window.marks.contains(seq) && (last as int - seq as int) % 0x1_0000_0000 < 128)
            || 128 <= (last as int - seq as int) % 0x1_0000_0000 <= 0x8000_0000,
    ensures
        r is Continue,
        after == before,
        out is None,
{
    lemma_message_in(bytes, seq);
    seen_or_old_number_is_refused(before.window, last, seq);
}

/// The acknowledgement of new messages waits until there are eight, and then goes out over the
/// active link: it holds the newest number, and no bit for a newer one.
pub proof fn eighth_message_is_acknowledged<C: ?Sized>(
    before: SessionView<C>,
    after: SessionView<C>,
    bytes: Seq<u8>,
    at: Instant,
    r: ReadOutcome,
    out: Option<AckToSend<C>>,
    i: int,
)
    requires
        window_ok(before.window),
        bytes_handled(before, after, bytes, at, r, out),
        r is Msg,
        0 <= i < before.links.len(),
        before.active == Some(before.links[i].id),
        forall|j: int| 0 <= j < before.links.len() && j != i ==> (#[trigger] before.links[j]).id
            != before.links[i].id,
    ensures
        before.ack_pending.count < 7 ==> {
            &&& out is None
            &&& after.ack_pending.count == before.ack_pending.count + 1
            &&& after.ack_pending.first_pending_at == Some(
                match before.ack_pending.first_pending_at {
                    Some(t) => t,
                    None => at,
                },
            )
        },
        before.ack_pending.count >= 7 ==> {
            &&& after.ack_pending.count == 0
            &&& after.ack_pending.first_pending_at is None
            &&& out matches Some(a) && a.link_id@ == before.links[i].id && a.conn
                == before.links[i].conn && a.bytes@ == seq![
                0x4Du8,
                0x4Cu8,
                1u8,
                3u8,
                0u8,
                0u8,
                0u8,
                20u8,
            ] + be_bytes(after.window.last->0 as nat, 4) + Seq::new(16, |k: int| 0u8)
        },
{
    assert(first_link(before.links, before.links[i].id, i));
    lemma_link_place(before.links, before.links[i].id, i);
    if let Some((seq, _)) = message_in(bytes) {
        if before.ack_pending.count >= 7 {
            lemma_ack_frame(observed(before.window, seq).last->0);
        }
    }
}

proof fn lemma_no_bytes(width: nat)
    ensures
        be_bytes(0, width) == Seq::new(width, |k: int| 0u8),
    decreases width,
{
    if width > 0 {
        lemma_no_bytes((width - 1) as nat);
    }
    assert(be_bytes(0, width) =~= Seq::new(width, |k: int| 0u8));
}

/// The bytes of an acknowledgement of everything up to `last`.
proof fn lemma_ack_frame(last: u32)
    ensures
        ack_frame_of(ack_of(last)) == seq![
            0x4Du8,
            0x4Cu8,
            1u8,
            3u8,
            0u8,
            0u8,
            0u8,
            20u8,
        ] + be_bytes(last as nat, 4) + Seq::new(16, |k: int| 0u8),
{
    let a = ack_of(last);
    lemma_no_bytes(16);
    ack_round_trip(a);
    marks_are_the_two_high_bits(0, false, false, MessageType::Ack);
    message_types_on_the_wire();
    message_type_code_round_trip(MessageType::Ack);
    frame_layout(flags_value(false, false, MessageType::Ack) as u8, 0, ack_bytes(a));
    assert(ack_frame_of(a) =~= seq![0x4Du8, 0x4Cu8, 1u8, 3u8, 0u8, 0u8, 0u8, 20u8] + be_bytes(
        last as nat,
        4,
    ) + Seq::new(16, |k: int| 0u8));
}

/// An acknowledgement that arrives releases what is at or before its number, by less than half
/// of the sequence space, and what a bit stands for: bit `d - 1` for the number `d` after it.
/// Everything else goes on waiting, and nothing but the waiting frames changes.
pub proof fn acknowledgement_releases_what_it_names<C: ?Sized>(
    before: SessionView<C>,
    after: SessionView<C>,
    bytes: Seq<u8>,
    at: Instant,
    r: ReadOutcome,
    out: Option<AckToSend<C>>,
    ack: u32,
    e: (u32, PendingFrame),
)
    requires
        bytes_handled(before, after, bytes, at, r, out),
        bytes.len() >= 28,
        bytes.len() >= 8 + 256 * bytes[6] + bytes[7],
        bytes[0] == 0x4D && bytes[1] == 0x4C && bytes[2] == 1,
        bytes[3] & 0x3F == 0x03,
        256 * bytes[6] + bytes[7] >= 20,
        ack == 0x100_0000 * bytes[8] + 0x1_0000 * bytes[9] + 256 * bytes[10] + bytes[11],
    ensures
        r is Continue,
        out is None,
        after == (SessionView { unacked: after.unacked, ..before }),
        ({
            let bitmap = be_value(bytes.subrange(12, 28)) as u128;
            let d = (e.0 as int - ack as int) % 0x1_0000_0000;
            after.unacked.contains(e) <==> before.unacked.contains(e) && !((ack as int
                - e.0 as int) % 0x1_0000_0000 < 0x8000_0000) && !(1 <= d <= 128 && (bitmap >> ((d
                - 1) as u128)) & 1 == 1)
        }),
{
    lemma_frame_payload(bytes);
    let p = payload_of(bytes);
    message_types_on_the_wire();
    marks_are_the_two_high_bits(bytes[3], false, false, MessageType::Message);
    assert(p.subrange(0, 4) =~= seq![bytes[8], bytes[9], bytes[10], bytes[11]]);
    most_significant_byte_comes_first(0, bytes[8], bytes[9], bytes[10], bytes[11]);
    assert(p.subrange(4, 20) =~= bytes.subrange(12, 28));
    let bitmap = be_value(bytes.subrange(12, 28)) as u128;
    acknowledgement_is_exact(before.unacked, ack, ack, bitmap);
    acknowledgement_is_exact(after_cumulative(before.unacked, ack), ack, ack, bitmap);
}

/// What is no frame of this protocol, or neither a message nor an acknowledgement, or too short for
/// either, changes nothing.
pub proof fn other_bytes_change_nothing<C: ?Sized>(
    before: SessionView<C>,
    after: SessionView<C>,
    bytes: Seq<u8>,
    at: Instant,
    r: ReadOutcome,
    out: Option<AckToSend<C>>,
)
    requires
        bytes_handled(before, after, bytes, at, r, out),
        bytes.len() < 8 || bytes[0] != 0x4D || bytes[1] != 0x4C || bytes[2] != 1 || bytes.len() < 8
            + 256 * bytes[6] + bytes[7] || (bytes[3] & 0x3F != 0x10 && bytes[3] & 0x3F != 0x03) || (
        bytes[3] & 0x3F == 0x10 && 256 * bytes[6] + bytes[7] < 4) || (bytes[3] & 0x3F == 0x03 && 256
            * bytes[6] + bytes[7] < 20),
    ensures
        r is Continue,
        out is None,
        after == before,
{
    if bytes.len() >= 8 {
        let f = Frame {
            magic: MAGIC,
            version: PROTOCOL_VERSION,
            flags: 0,
            seq: 0,
            length: 0,
            payload: arbitrary(),
        };
        frames_are_recognised(bytes, f);
        marks_are_the_two_high_bits(bytes[3], false, false, MessageType::Message);
        message_type_code_round_trip(MessageType::Message);
        message_type_code_round_trip(MessageType::Ack);
        message_types_on_the_wire();
        if frame_fault(bytes) is None {
            lemma_frame_payload(bytes);
        }
    }
}

/// A read is planned over every link, in order. Before it, an acknowledgement goes out over the
/// active link where eight messages wait for one, or the first of them has waited for 50 ms; else
/// nothing changes.
pub proof fn waiting_acknowledgement_goes_out_in_time<C: ?Sized>(
    before: SessionView<C>,
    after: SessionView<C>,
    waited_ms: Option<u64>,
    r: Result<RecvPlan<C>>,
    i: int,
)
    requires
        recv_planned(before, after, waited_ms, r),
        before.window.last is Some,
        before.ack_pending.count > 0,
        0 <= i < before.links.len(),
        before.active == Some(before.links[i].id),
        forall|j: int| 0 <= j < before.links.len() && j != i ==> (#[trigger] before.links[j]).id
            != before.links[i].id,
    ensures
        r matches Ok(plan) && {
            &&& plan.sources@.len() == before.links.len()
            &&& forall|k: int|
                0 <= k < before.links.len() ==> (#[trigger] plan.sources@[k]).link_id@
                    == before.links[k].id && plan.sources@[k].conn == before.links[k].conn
            &&& if before.ack_pending.count >= 8 || (waited_ms is Some && waited_ms->0 >= 50) {
                &&& after.ack_pending.count == 0
                &&& after.ack_pending.first_pending_at is None
                &&& plan.ack matches Some(a) && a.link_id@ == before.links[i].id && a.conn
                    == before.links[i].conn && a.bytes@ == seq![
                    0x4Du8,
                    0x4Cu8,
                    1u8,
                    3u8,
                    0u8,
                    0u8,
                    0u8,
                    20u8,
                ] + be_bytes(before.window.last->0 as nat, 4) + Seq::new(16, |k: int| 0u8)
            } else {
                after == before && plan.ack is None
            }
        },
        after == (SessionView { ack_pending: after.ack_pending, ..before }),
{
    assert(first_link(before.links, before.links[i].id, i));
    lemma_link_place(before.links, before.links[i].id, i);
    lemma_ack_frame(before.window.last->0);
}

/// A read is planned over every link, whatever waits to be acknowledged; without a link there is
/// none. As long as no acknowledgement is due nothing changes and none goes out.
pub proof fn every_link_is_read_from<C: ?Sized>(
    before: SessionView<C>,
    after: SessionView<C>,
    waited_ms: Option<u64>,
    r: Result<RecvPlan<C>>,
    k: int,
)
    requires
        recv_planned(before, after, waited_ms, r),
    ensures
        before.links.len() == 0 ==> after == before && (r matches Err(
            MlinkError::NoHealthyLink { peer_id },
        ) && peer_id@ == before.peer_id),
        before.links.len() > 0 ==> (r matches Ok(plan) && plan.sources@.len() == before.links.len()
            && (0 <= k < before.links.len() ==> plan.sources@[k].link_id@ == before.links[k].id
            && plan.sources@[k].conn == before.links[k].conn) && (if before.ack_pending.count >= 8
            || (waited_ms is Some && waited_ms->0 >= 50) {
            ack_sent(before, plan.ack) && after == ack_flushed(before)
        } else {
            plan.ack is None && after == before
        })),
{
}

/// A message that one session hands out over a link reaches the application at the other end, under
/// its number, if that end has not seen it: with the payload itself where it was neither compressed
/// nor encrypted, else with its sealed form. Its number is marked then.
pub proof fn message_arrives_at_the_other_end<C: ?Sized, D: ?Sized>(
    sender: SessionView<C>,
    sent: SessionView<C>,
    payload: Seq<u8>,
    key: Option<Seq<u8>>,
    compress: bool,
    healthy: Seq<bool>,
    t: Transmit<C>,
    receiver: SessionView<D>,
    after: SessionView<D>,
    at: Instant,
    r: ReadOutcome,
    out: Option<AckToSend<D>>,
)
    requires
        send_begun(
            sender,
            sent,
            MessageType::Message,
            payload,
            key,
            compress,
            healthy,
            Ok(t),
        ),
        window_ok(receiver.window),
        bytes_handled(receiver, after, t.bytes@, at, r, out),
        !receiver.window.marks.contains(t.seq),
        receiver.window.last matches Some(last) ==> (t.seq as int - last as int) % 0x1_0000_0000
            < 0x8000_0000 || (last as int - t.seq as int) % 0x1_0000_0000 < 128,
    ensures
        r matches ReadOutcome::Msg(s, body) && {
            &&& s == t.seq
            &&& key is None && (!compress || payload.len() < 256) ==> body@ == payload
            &&& packed(payload, compress, key, (t.seq % 0x1_0000) as u16) matches Ok(p) && body@
                == p.0
        },
        after.window.marks.contains(t.seq),
{
    sent_message_is_received(t.seq, payload, key, compress);
    lemma_unseen_accepted(receiver.window, t.seq);
    let sealed = packed(payload, compress, key, low_seq(t.seq))->Ok_0;
    payload_is_compressed_then_encrypted(
        payload,
        compress,
        key,
        low_seq(t.seq),
        sealed.0,
        sealed.1,
        sealed.2,
    );
}

proof fn lemma_unseen_accepted(w: WindowView, s: u32)
    requires
        window_ok(w),
        !w.marks.contains(s),
        w.last matches Some(last) ==> (s as int - last as int) % 0x1_0000_0000 < 0x8000_0000 || (
        last as int - s as int) % 0x1_0000_0000 < 128,
    ensures
        observation(w, s) is Accept,
        observed(w, s).marks.contains(s),
{
    window_holds_the_last_128(w);
    unseen_number_is_accepted(w, s, s);
}

/// A written message stops waiting once the other end, which has marked it, has acknowledged: the
/// frame that the other end sends takes it off the list, and everything newer than its newest
/// number stays.
pub proof fn acknowledged_message_stops_waiting<C: ?Sized, D: ?Sized>(
    receiver: SessionView<D>,
    out: AckToSend<D>,
    sender: SessionView<C>,
    after: SessionView<C>,
    at: Instant,
    r: ReadOutcome,
    more: Option<AckToSend<C>>,
    e: (u32, PendingFrame),
)
    requires
        window_ok(receiver.window),
        ack_sent(receiver, Some(out)),
        bytes_handled(sender, after, out.bytes@, at, r, more),
    ensures
        receiver.window.marks.contains(e.0) ==> !after.unacked.contains(e),
        sender.unacked.contains(e) && (e.0 as int - receiver.window.last->0 as int) % 0x1_0000_0000
            <= 0x8000_0000 && e.0 != receiver.window.last->0 ==> after.unacked.contains(e),
        after == (SessionView { unacked: after.unacked, ..sender }),
{
    let last = receiver.window.last->0;
    let a = ack_of(last);
    let bytes = out.bytes@;
    assert(bytes == ack_frame_of(a));
    sent_ack_is_received(a);
    assert(message_in(bytes) is None);
    assert(after.unacked == released(sender.unacked, a));
    lemma_released(sender.unacked, last, e);
    if receiver.window.marks.contains(e.0) {
        window_holds_the_last_128(receiver.window);
    }
}

/// What is left of the waiting frames after everything up to `last` was acknowledged.
proof fn lemma_released(waiting: Seq<(u32, PendingFrame)>, last: u32, e: (u32, PendingFrame))
    ensures
        released(waiting, ack_of(last)).contains(e) <==> waiting.contains(e) && (last as int
            - e.0 as int) % 0x1_0000_0000 >= 0x8000_0000,
{
    acknowledgement_is_exact(waiting, last, last, 0);
    acknowledgement_is_exact(after_cumulative(waiting, last), last, last, 0);
    assert(!sack_names(last, 0, e.0)) by {
        lemma_no_bit((seq_distance(e.0, last) - 1) as nat as u128);
    }
}

/// A read may take a minute where nothing waits to be acknowledged; else it ends when the first
/// message has waited for 50 ms.
pub proof fn read_ends_when_an_acknowledgement_is_due(p: AckPending, at: Instant)
    ensures
        p.first_pending_at is None ==> wait_of(p, at) == 60_000,
        p.first_pending_at matches Some(t) ==> {
            &&& millis_between(t, at) <= 50 ==> wait_of(p, at) + millis_between(t, at) == 50
            &&& millis_between(t, at) > 50 ==> wait_of(p, at) == 0
            &&& wait_of(p, at) == 0 <==> ack_due(0, Some(millis_between(t, at)))
        },
        forall|count: u32, w: Option<u64>| #[trigger]
            ack_due(count, w) <==> count >= 8 || (w is Some && w->0 >= 50),
{
}

/// An acknowledgement that could not be written counts as one more that waits, since the earliest
/// one; a written one leaves nothing behind. Reading and writing are noted with the link that
/// they went over.
pub proof fn acknowledgement_is_settled<C: ?Sized>(
    s: SessionView<C>,
    link_id: Seq<char>,
    ok: bool,
    now_ms: u64,
    at: Instant,
)
    ensures
        ({
            let after = ack_settled(s, link_id, ok, now_ms, at);
            &&& after.links == links_after(s.links, link_id, ok, now_ms)
            &&& after == (SessionView {
                links: after.links,
                ack_pending: after.ack_pending,
                ..s
            })
            &&& ok ==> after.ack_pending == s.ack_pending
            &&& !ok ==> {
                &&& after.ack_pending.count > 0
                &&& s.ack_pending.count < u32::MAX ==> after.ack_pending.count
                    == s.ack_pending.count + 1
                &&& after.ack_pending.first_pending_at == Some(
                    match s.ack_pending.first_pending_at {
                        Some(t) => t,
                        None => at,
                    },
                )
            }
        }),
        read_noted(s, link_id, now_ms).links == links_after(s.links, link_id, true, now_ms),
        read_noted(s, link_id, now_ms) == (SessionView {
            links: read_noted(s, link_id, now_ms).links,
            ..s
        }),
{
}

/// An acknowledgement goes out where a message waits for one, a number has come and the active link
/// is there: over that link, with the newest number and no bits. Else none does. Either way nothing
/// waits afterwards, and nothing else changes.
pub proof fn flush_acknowledges_the_newest<C: ?Sized>(
    s: SessionView<C>,
    out: Option<AckToSend<C>>,
    i: int,
)
    requires
        ack_sent(s, out),
    ensures
        s.ack_pending.count == 0 || s.window.last is None || s.active is None ==> out is None,
        (s.active matches Some(id) && forall|j: int|
            0 <= j < s.links.len() ==> (#[trigger] s.links[j]).id != id) ==> out is None,
        s.ack_pending.count > 0 && s.window.last is Some && 0 <= i < s.links.len() && s.active
            == Some(s.links[i].id) ==> out is Some,
        out matches Some(a) ==> {
            &&& s.active == Some(a.link_id@)
            &&& exists|k: int|
                0 <= k < s.links.len() && (#[trigger] s.links[k]).id == a.link_id@ && s.links[k].conn
                    == a.conn
            &&& a.bytes@ == seq![0x4Du8, 0x4Cu8, 1u8, 3u8, 0u8, 0u8, 0u8, 20u8] + be_bytes(
                s.window.last->0 as nat,
                4,
            ) + Seq::new(16, |k: int| 0u8)
        },
        ack_flushed(s).ack_pending.count == 0,
        s.ack_pending.count > 0 ==> ack_flushed(s).ack_pending.first_pending_at is None,
        s.ack_pending.count == 0 ==> ack_flushed(s) == s,
        ack_flushed(s) == (SessionView { ack_pending: ack_flushed(s).ack_pending, ..s }),
{
    if let Some(id) = s.active {
        lemma_link_at_place(s.links, id);
        if let Some(k) = link_place(s.links, id) {
            assert(s.links[k].id == id);
        }
        if 0 <= i < s.links.len() && s.links[i].id == id {
            assert(has_link(s.links, id));
        }
    }
    if s.window.last is Some {
        lemma_ack_frame(s.window.last->0);
    }
}

/// How long the first unacknowledged message has waited is a reading of the clock from when it
/// came, and there is none where no message waits.
pub proof fn waiting_counts_from_the_first_message(p: AckPending, w: Option<u64>, at: Instant)
    requires
        waited_reading(p, w),
    ensures
        w is Some <==> p.first_pending_at is Some,
        p.first_pending_at matches Some(t) ==> exists|end: Instant|
            w->0 == #[trigger] millis_between(t, end),
        one_more(p, at).first_pending_at == Some(
            match p.first_pending_at {
                Some(t) => t,
                None => at,
            },
        ),
        p.count < u32::MAX ==> one_more(p, at).count == p.count + 1,
        none_pending().count == 0 && none_pending().first_pending_at is None,
{
}

/// A link is another one exactly where its id is not the given one.
pub proof fn session_goes_on_over_another_link<C: ?Sized>(
    links: Seq<LinkView<C>>,
    id: Seq<char>,
    j: int,
)
    requires
        0 <= j < links.len(),
    ensures
        links[j].id != id ==> has_other_link(links, id),
        (forall|k: int| 0 <= k < links.len() ==> (#[trigger] links[k]).id == id)
            ==> !has_other_link(links, id),
{
}

/// A message is handed to the application once: the same bytes, when they arrive again, over
/// whatever link, are dropped.
pub proof fn message_is_delivered_once<C: ?Sized>(
    s: SessionView<C>,
    mid: SessionView<C>,
    end: SessionView<C>,
    bytes: Seq<u8>,
    at: Instant,
    again: Instant,
    first: (ReadOutcome, Option<AckToSend<C>>),
    second: (ReadOutcome, Option<AckToSend<C>>),
)
    requires
        window_ok(s.window),
        bytes_handled(s, mid, bytes, at, first.0, first.1),
        bytes_handled(mid, end, bytes, again, second.0, second.1),
    ensures
        first.0 is Msg ==> second.0 is Continue && end == mid && second.1 is None,
{
    if let Some((seq, _)) = message_in(bytes) {
        observed_number_is_duplicate(s.window, seq);
    }
}

/// Whether a session has taken in `frames`, one after the other: `views` are its states before,
/// between and after them.
pub open spec fn took_in<C: ?Sized>(
    views: Seq<SessionView<C>>,
    frames: Seq<Seq<u8>>,
    outcomes: Seq<(Instant, ReadOutcome, Option<AckToSend<C>>)>,
) -> bool {
    &&& views.len() == frames.len() + 1
    &&& outcomes.len() == frames.len()
    &&& forall|i: int|
        0 <= i < frames.len() ==> {
            let o = #[trigger] outcomes[i];
            bytes_handled(views[i], views[i + 1], frames[i], o.0, o.1, o.2)
        }
}

/// A message that was handed to the application is not handed to it again, whatever else
/// arrives in between, as long as the numbers have not moved on by more than half of their
/// space.
pub proof fn repeated_message_is_dropped<C: ?Sized>(
    views: Seq<SessionView<C>>,
    frames: Seq<Seq<u8>>,
    outcomes: Seq<(Instant, ReadOutcome, Option<AckToSend<C>>)>,
)
    requires
        took_in(views, frames, outcomes),
        frames.len() >= 2,
        frames.last() == frames[0],
        window_ok(views[0].window),
        outcomes[0].1 is Msg,
        forall|i: int|
            1 <= i < views.len() ==> seq_distance(
                (#[trigger] views[i]).window.last->0,
                (message_in(frames[0])->0).0,
            ) <= SEQ_HALF,
    ensures
        outcomes.last().1 is Continue,
        outcomes.last().2 is None,
        views.last() == views[views.len() - 2],
{
    let seq = (message_in(frames[0])->0).0;
    let n = frames.len() as int;
    let o = outcomes[0];
    assert(bytes_handled(views[0], views[1], frames[0], o.0, o.1, o.2));
    lemma_still_seen(views, frames, outcomes, seq, n - 1);
    seen_number_stays_seen(views[n - 1].window, seq, seq);
    let z = outcomes[n - 1];
    assert(bytes_handled(views[n - 1], views[n], frames[n - 1], z.0, z.1, z.2));
}

proof fn lemma_still_seen<C: ?Sized>(
    views: Seq<SessionView<C>>,
    frames: Seq<Seq<u8>>,
    outcomes: Seq<(Instant, ReadOutcome, Option<AckToSend<C>>)>,
    seq: u32,
    k: int,
)
    requires
        took_in(views, frames, outcomes),
        1 <= k <= frames.len(),
        counts_as_seen(views[1].window, seq),
        forall|i: int|
            1 <= i < views.len() ==> seq_distance((#[trigger] views[i]).window.last->0, seq)
                <= SEQ_HALF,
    ensures
        counts_as_seen(views[k].window, seq),
    decreases k,
{
    if k > 1 {
        lemma_still_seen(views, frames, outcomes, seq, k - 1);
        let o = outcomes[k - 1];
        assert(bytes_handled(views[k - 1], views[k], frames[k - 1], o.0, o.1, o.2));
        assert(seq_distance(views[k].window.last->0, seq) <= SEQ_HALF);
        if let Some((t, _)) = message_in(frames[k - 1]) {
            if observation(views[k - 1].window, t) is Accept {
                assert(views[k].window == observed(views[k - 1].window, t));
                seen_number_stays_seen(views[k - 1].window, seq, t);
            }
        }
    }
}

/// An acknowledgement that a session sends releases, at the other end, every frame whose number
/// the session has marked: what has arrived is not sent again.
pub proof fn marked_frames_are_released(
    w: WindowView,
    waiting: Seq<(u32, PendingFrame)>,
    e: (u32, PendingFrame),
)
    requires
        window_ok(w),
        w.marks.contains(e.0),
    ensures
        !released(waiting, ack_of(w.last->0)).contains(e),
{
    let a = ack_of(w.last->0);
    acknowledgement_is_exact(waiting, a.ack, a.ack, a.bitmap);
    acknowledgement_is_exact(after_cumulative(waiting, a.ack), a.ack, a.ack, a.bitmap);
    assert(in_window(w.last->0, e.0));
}

proof fn lemma_no_bit(i: u128)
    by (bit_vector)
    ensures
        (0u128 >> i) & 1 == 0,
{
}

/// What a session sends as an acknowledgement is read as the newest number that it has accepted,
/// and marks a newer number only where that has come. Applied at the other end it releases no
/// frame that is newer than that and has not come.
pub proof fn acknowledgement_releases_only_what_came<C: ?Sized>(
    s: SessionView<C>,
    out: AckToSend<C>,
    waiting: Seq<(u32, PendingFrame)>,
    e: (u32, PendingFrame),
)
    requires
        ack_sent(s, Some(out)),
        waiting.contains(e),
        !seq_at_or_after(s.window.last->0, e.0),
        !s.window.marks.contains(e.0),
    ensures
        s.window.last is Some,
        ack_in(out.bytes@) matches Some(a) && {
            &&& a.ack == s.window.last->0
            &&& forall|n: u32| #[trigger]
                sack_names(a.ack, a.bitmap, n) ==> s.window.marks.contains(n)
            &&& released(waiting, a).contains(e)
        },
{
    let last = s.window.last->0;
    let a = ack_of(last);
    sent_ack_is_received(a);
    assert forall|n: u32| !#[trigger] sack_names(last, a.bitmap, n) by {
        lemma_no_bit((seq_distance(n, last) - 1) as nat as u128);
    }
    acknowledgement_is_exact(waiting, a.ack, a.ack, a.bitmap);
    acknowledgement_is_exact(after_cumulative(waiting, a.ack), a.ack, a.ack, a.bitmap);
}

/// Receiving leaves the links in their places, and none of them gets younger: only their health
/// changes, by the read itself and by the acknowledgement that is written.
pub proof fn receiving_keeps_the_links<C: ?Sized>(
    s: SessionView<C>,
    planned: SessionView<C>,
    read: SessionView<C>,
    waited_ms: Option<u64>,
    plan: Result<RecvPlan<C>>,
    link_id: Seq<char>,
    now_ms: u64,
    bytes: Seq<u8>,
    at: Instant,
    r: ReadOutcome,
    out: Option<AckToSend<C>>,
    ok: bool,
)
    requires
        recv_planned(s, planned, waited_ms, plan),
        bytes_handled(read_noted(planned, link_id, now_ms), read, bytes, at, r, out),
    ensures
        planned.links == s.links,
        same_links(s.links, read.links),
        same_links(s.links, ack_settled(planned, link_id, ok, now_ms, at).links),
{
    lemma_links_after(planned.links, link_id, true, now_ms);
    lemma_links_after(planned.links, link_id, ok, now_ms);
}

/// After an acknowledgement was written a read waits for as long as it likes to; after one that
/// was not, only until it is time to try again.
pub proof fn failed_acknowledgement_is_tried_again_soon<C: ?Sized>(
    s: SessionView<C>,
    link_id: Seq<char>,
    ok: bool,
    now_ms: u64,
    at: Instant,
    later: Instant,
)
    requires
        s.ack_pending.count > 0,
    ensures
        ({
            let after = ack_settled(ack_flushed(s), link_id, ok, now_ms, at);
            &&& ok ==> wait_of(after.ack_pending, later) == IDLE_WAIT_MS
            &&& !ok ==> {
                &&& wait_of(after.ack_pending, later) <= ACK_MAX_DELAY_MS
                &&& millis_between(at, later) >= ACK_MAX_DELAY_MS ==> ack_due(
                    after.ack_pending.count,
                    Some(millis_between(at, later)),
                )
            }
        }),
{
}

/// Whether some link has another id.
pub open spec fn has_other_link<C: ?Sized>(links: Seq<LinkView<C>>, id: Seq<char>) -> bool {
    exists|j: int| 0 <= j < links.len() && (#[trigger] links[j]).id != id
}

/// What planning a read does to a session, and what comes back.
pub open spec fn recv_planned<C: ?Sized>(
    before: SessionView<C>,
    after: SessionView<C>,
    waited_ms: Option<u64>,
    r: Result<RecvPlan<C>>,
) -> bool {
    if before.links.len() == 0 {
        &&& r matches Err(MlinkError::NoHealthyLink { peer_id }) && peer_id@ == before.peer_id
        &&& after == before
    } else {
        let due = ack_due(before.ack_pending.count, waited_ms);
        &&& after == if due {
            ack_flushed(before)
        } else {
            before
        }
        &&& r matches Ok(plan) && {
            &&& if due {
                ack_sent(before, plan.ack)
            } else {
                plan.ack is None
            }
            &&& plan.sources@.len() == before.links.len()
            &&& forall|i: int|
                0 <= i < plan.sources@.len() ==> (#[trigger] plan.sources@[i]).link_id@
                    == before.links[i].id && plan.sources@[i].conn == before.links[i].conn
        }
    }
}

} // verus!
