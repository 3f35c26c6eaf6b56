//! Connections by peer, the roles of two peers, and the handshake.

use std::sync::Arc;
use std::time::Instant;

use vstd::prelude::*;
use vstd::utf8::encode_utf8;

use crate::mesh::link::{new_link, wire_name, Link, TransportKind};
use crate::mesh::payload::{frame_body, reports, PackFault, MAX_FRAME_PAYLOAD};
use crate::mesh::session::has_link;
use crate::mesh::session::io::or_empty;
use crate::mesh::session::manager::{
    attach_event, attach_outcome, attached, statuses_of, AttachOutcome, SessionManager,
};
use crate::mesh::session::types::{LinkStatus, SessionEvent, SwitchCause};
use crate::mesh::session::{Session, SessionView};
use crate::names::texts;
use crate::protocol::errors::{joined, MlinkError, Result};
use crate::protocol::frame::{
    decode_frame, frame_bytes, frame_fault, frame_layout, frame_round_trip, frames_are_recognised,
};
use crate::protocol::types::{
    decode_flags, flags_parts, flags_round_trip, flags_value, marks_are_the_two_high_bits,
    message_name, message_type_code_round_trip, message_types_on_the_wire, Frame, MessageType,
    HEADER_SIZE, MAGIC, PROTOCOL_VERSION,
};
use crate::protocol::wire::{be_value, most_significant_byte_comes_first};
use crate::strmap::StrMap;
use crate::text::{
    first_difference_decides, lemma_bytes_before_total, lemma_utf8_injective, str_before,
};
use crate::transport::TransportCapabilities;

verus! {

/// How long each half of a handshake may take, in seconds. A silent peer must not hold up the
/// caller.
pub const HANDSHAKE_IO_TIMEOUT: u64 = 10;

/// The part that a peer plays on a connection.
#[derive(Debug, Clone, Copy, PartialEq, Eq, Structural)]
pub enum Role {
    Central,
    Peripheral,
}

/// The role of the peer `mine` towards the peer `theirs`.
pub open spec fn role_of(mine: Seq<char>, theirs: Seq<char>) -> Role {
    if crate::text::bytes_before(encode_utf8(mine), encode_utf8(theirs)) {
        Role::Central
    } else {
        Role::Peripheral
    }
}

/// The peer whose id comes first is the central one.
pub fn negotiate_role(my_uuid: &str, peer_uuid: &str) -> (r: Role)
    ensures
        r == role_of(my_uuid@, peer_uuid@),
{
    if str_before(my_uuid, peer_uuid) {
        Role::Central
    } else {
        Role::Peripheral
    }
}

/// Of two peers with different ids exactly one is central, and both agree on which. Two equal
/// ids are both peripheral.
pub proof fn roles_are_opposite(a: Seq<char>, b: Seq<char>)
    ensures
        a != b ==> (role_of(a, b) is Central) != (role_of(b, a) is Central),
        a == b ==> role_of(a, b) is Peripheral,
{
    lemma_bytes_before_total(encode_utf8(a), encode_utf8(b));
    if encode_utf8(a) == encode_utf8(b) {
        lemma_utf8_injective(a, b);
    }
}

/// The peer whose id comes first is the central one: where the two first differ the smaller byte
/// decides, and an id that the other one continues comes first.
pub proof fn smaller_id_is_central(mine: Seq<char>, theirs: Seq<char>, k: int)
    requires
        0 <= k <= encode_utf8(mine).len(),
        k <= encode_utf8(theirs).len(),
        forall|i: int| 0 <= i < k ==> #[trigger] encode_utf8(mine)[i] == encode_utf8(theirs)[i],
    ensures
        k < encode_utf8(mine).len() && k < encode_utf8(theirs).len() ==> {
            &&& encode_utf8(mine)[k] < encode_utf8(theirs)[k] ==> role_of(mine, theirs) is Central
            &&& encode_utf8(mine)[k] > encode_utf8(theirs)[k] ==> role_of(mine, theirs)
                is Peripheral
        },
        k == encode_utf8(mine).len() && k < encode_utf8(theirs).len() ==> role_of(mine, theirs)
            is Central,
        k == encode_utf8(theirs).len() ==> role_of(mine, theirs) is Peripheral,
{
    first_difference_decides(encode_utf8(mine), encode_utf8(theirs), k);
}

/// The id of a peer's first link: the name of its kind, the first four characters of the peer's
/// id, and a zero.
pub proof fn first_link_id_has_three_parts(kind: TransportKind, peer: Seq<char>, n: int)
    ensures
        peer.len() >= 4 ==> first_link_id(kind, peer) == wire_name(kind) + ":"@ + peer.take(4)
            + ":0"@,
        peer.len() < 4 ==> first_link_id(kind, peer) == wire_name(kind) + ":"@ + peer + ":0"@,
        0 <= n <= peer.len() ==> first_chars(peer, n) == peer.take(n),
        n > peer.len() ==> first_chars(peer, n) == peer,
{
    if n == peer.len() {
        assert(peer.take(n) =~= peer);
    }
    if peer.len() == 4 {
        assert(peer.take(4) =~= peer);
    }
}

/// The first `n` characters of a text, or all of it where there are fewer.
pub open spec fn first_chars(t: Seq<char>, n: int) -> Seq<char> {
    if t.len() <= n {
        t
    } else {
        t.take(n)
    }
}

/// The first `n` characters of a text, or all of it where there are fewer.
pub fn first_chars_of(t: &str, n: usize) -> (s: &str)
    ensures
        s@ == first_chars(t@, n as int),
{
    if t.unicode_len() <= n {
        t
    } else {
        t.substring_char(0, n)
    }
}

/// The id of the first link of a peer.
pub open spec fn first_link_id(kind: TransportKind, peer: Seq<char>) -> Seq<char> {
    wire_name(kind) + ":"@ + first_chars(peer, 4) + ":0"@
}

/// The connections of all peers, and their sessions. A peer may have a connection without a
/// session.
pub struct ConnectionManager<C: ?Sized> {
    conns: StrMap<Arc<C>>,
    sessions: SessionManager<C>,
}

impl<C: ?Sized> ConnectionManager<C> {
    pub closed spec fn wf(&self) -> bool {
        &&& self.conns.wf()
        &&& self.sessions.wf()
    }

    /// The connection of each peer.
    pub closed spec fn conns(&self) -> Map<Seq<char>, Arc<C>> {
        self.conns@
    }

    /// The session of each peer.
    pub closed spec fn sessions(&self) -> Map<Seq<char>, SessionView<C>> {
        self.sessions@
    }

    /// The peers with a connection, each once.
    pub closed spec fn id_order(&self) -> Seq<Seq<char>> {
        self.conns.key_seq()
    }

    /// Every peer with a connection stands in the order once.
    pub proof fn lemma_id_order(&self)
        requires
            self.wf(),
        ensures
            self.id_order().no_duplicates(),
            forall|p: Seq<char>| self.conns().dom().contains(p) <==> self.id_order().contains(p),
    {
        self.conns.lemma_key_seq();
    }

    pub fn new() -> (m: Self)
        ensures
            m.wf(),
            m.conns() == Map::<Seq<char>, Arc<C>>::empty(),
            m.sessions() == Map::<Seq<char>, SessionView<C>>::empty(),
    {
        ConnectionManager { conns: StrMap::new(), sessions: SessionManager::new() }
    }

    pub fn with_sessions(sessions: SessionManager<C>) -> (m: Self)
        requires
            sessions.wf(),
        ensures
            m.wf(),
            m.conns() == Map::<Seq<char>, Arc<C>>::empty(),
            m.sessions() == sessions@,
    {
        ConnectionManager { conns: StrMap::new(), sessions }
    }

    /// Keeps a connection, in place of the one that was there.
    pub fn add(&mut self, id: String, conn: Arc<C>)
        requires
            old(self).wf(),
        ensures
            final(self).wf(),
            final(self).conns() == old(self).conns().insert(id@, conn),
            final(self).sessions() == old(self).sessions(),
    {
        let _ = self.conns.insert(id, conn);
    }

    pub fn remove(&mut self, id: &str) -> (r: Option<Arc<C>>)
        requires
            old(self).wf(),
        ensures
            final(self).wf(),
            final(self).conns() == old(self).conns().remove(id@),
            final(self).sessions() == old(self).sessions(),
            match r {
                Some(c) => old(self).conns().dom().contains(id@) && c == old(self).conns()[id@],
                None => !old(self).conns().dom().contains(id@),
            },
    {
        self.conns.remove(id)
    }

    /// The connection of a peer.
    pub fn shared(&self, id: &str) -> (r: Option<Arc<C>>)
        requires
            self.wf(),
        ensures
            match r {
                Some(c) => self.conns().dom().contains(id@) && c == self.conns()[id@],
                None => !self.conns().dom().contains(id@),
            },
    {
        match self.conns.get(id) {
            Some(c) => Some(c.clone()),
            None => None,
        }
    }

    pub fn contains(&self, id: &str) -> (r: bool)
        requires
            self.wf(),
        ensures
            r == self.conns().dom().contains(id@),
    {
        self.conns.contains(id)
    }

    pub fn list_ids(&self) -> (r: Vec<String>)
        requires
            self.wf(),
        ensures
            texts(r@) == self.id_order(),
    {
        let r = self.conns.keys();
        assert(texts(r@) =~= self.id_order());
        r
    }

    pub fn count(&self) -> (n: usize)
        requires
            self.wf(),
        ensures
            n == self.conns().dom().len(),
            n == self.id_order().len(),
    {
        self.conns.len()
    }

    pub fn session_manager(&self) -> (m: &SessionManager<C>)
        requires
            self.wf(),
        ensures
            m.wf(),
            m@ == self.sessions(),
    {
        &self.sessions
    }

    /// The sessions, to be worked on. They must stay well-formed.
    pub fn session_manager_mut(&mut self) -> (m: &mut SessionManager<C>)
        requires
            old(self).wf(),
        ensures
            m.wf(),
            m@ == old(self).sessions(),
            final(m).wf() ==> final(self).wf(),
            final(self).sessions() == final(m)@,
            final(self).conns() == old(self).conns(),
    {
        &mut self.sessions
    }

    /// Opens a session over a connection, as its first link.
    pub fn attach_link_async(
        &mut self,
        id: &str,
        conn: Arc<C>,
        kind: TransportKind,
        caps: TransportCapabilities,
    ) -> (r: (AttachOutcome, Option<SessionEvent>))
        requires
            old(self).wf(),
        ensures
            final(self).wf(),
            final(self).conns() == old(self).conns(),
            exists|fresh: [u8; 16]|
                r.0 == #[trigger] attach_outcome(old(self).sessions(), id@, kind, None, fresh),
            exists|at: Instant|
                {
                    let link = #[trigger] new_link(first_link_id(kind, id@), conn, kind, caps, at);
                    &&& final(self).sessions() == attached(old(self).sessions(), id@, link, r.0)
                    &&& attach_event(r.1, id@, link, r.0)
                },
    {
        let mut link_id = kind.as_wire().to_owned();
        link_id.append(":");
        link_id.append(first_chars_of(id, 4));
        link_id.append(":0");
        let link = Link::new(link_id, conn, kind, caps);
        let ghost shown = link@;
        let r = self.sessions.attach_link(id, link, None);
        proof {
            assert(shown == new_link(first_link_id(kind, id@), conn, kind, caps, shown.made_at));
            let fresh = choose|fresh: [u8; 16]|
                r.0 == #[trigger] attach_outcome(old(self).sessions@, id@, kind, None, fresh);
            assert(r.0 == attach_outcome(old(self).sessions(), id@, kind, None, fresh));
        }
        r
    }

    /// Attaches another link to a peer.
    pub fn attach_secondary_link(
        &mut self,
        peer_id: &str,
        link: Link<C>,
        session_id_hint: Option<[u8; 16]>,
    ) -> (r: (AttachOutcome, Option<SessionEvent>))
        requires
            old(self).wf(),
            link.wf(),
        ensures
            final(self).wf(),
            final(self).conns() == old(self).conns(),
            exists|fresh: [u8; 16]|
                r.0 == #[trigger] attach_outcome(
                    old(self).sessions(),
                    peer_id@,
                    link@.kind,
                    session_id_hint,
                    fresh,
                ),
            final(self).sessions() == attached(old(self).sessions(), peer_id@, link@, r.0),
            attach_event(r.1, peer_id@, link@, r.0),
    {
        let ghost kind = link@.kind;
        let r = self.sessions.attach_link(peer_id, link, session_id_hint);
        proof {
            let fresh = choose|fresh: [u8; 16]|
                r.0 == #[trigger] attach_outcome(
                    old(self).sessions@,
                    peer_id@,
                    kind,
                    session_id_hint,
                    fresh,
                );
            assert(r.0 == attach_outcome(
                old(self).sessions(),
                peer_id@,
                link@.kind,
                session_id_hint,
                fresh,
            ));
        }
        r
    }

    /// A snapshot of every link of one peer.
    pub fn peer_link_status(&self, peer_id: &str) -> (r: Vec<LinkStatus>)
        requires
            self.wf(),
        ensures
            if self.sessions().dom().contains(peer_id@) {
                statuses_of(r@, self.sessions()[peer_id@])
            } else {
                r@.len() == 0
            },
    {
        self.sessions.peer_link_status(peer_id)
    }

    /// Makes a link the active one, on the user's word.
    pub fn switch_active_link(&mut self, peer_id: &str, link_id: &str) -> (r: Result<
        Option<SessionEvent>,
    >)
        requires
            old(self).wf(),
        ensures
            final(self).wf(),
            final(self).conns() == old(self).conns(),
            if old(self).sessions().dom().contains(peer_id@) && has_link(
                old(self).sessions()[peer_id@].links,
                link_id@,
            ) {
                let s = old(self).sessions()[peer_id@];
                &&& final(self).sessions() == old(self).sessions().insert(
                    peer_id@,
                    SessionView { active: Some(link_id@), ..s },
                )
                &&& r matches Ok(event)
                &&& if s.active == Some(link_id@) {
                    event is None
                } else {
                    event matches Some(ev) && ev.is_switched(
                        peer_id@,
                        or_empty(s.active),
                        link_id@,
                        SwitchCause::ManualUserRequest,
                    )
                }
            } else {
                &&& final(self).sessions() == old(self).sessions()
                &&& r matches Err(MlinkError::NoHealthyLink { peer_id: p }) && p@ == peer_id@
            },
    {
        let ghost before = self.sessions@;
        match self.sessions.get_mut(peer_id) {
            None => Err(MlinkError::NoHealthyLink { peer_id: peer_id.to_owned() }),
            Some(session) => {
                let r = session.switch_active(link_id);
                proof {
                    if r is Err {
                        assert(before.insert(peer_id@, session@) =~= before);
                    }
                }
                r
            },
        }
    }

    /// Takes a peer's session out; its connections are to be closed. The peer's own connection
    /// stays.
    pub fn drop_peer_async(&mut self, peer_id: &str) -> (r: Option<Session<C>>)
        requires
            old(self).wf(),
        ensures
            final(self).wf(),
            final(self).conns() == old(self).conns(),
            final(self).sessions() == old(self).sessions().remove(peer_id@),
            match r {
                Some(s) => s.wf() && old(self).sessions().dom().contains(peer_id@) && s@
                    == old(self).sessions()[peer_id@],
                None => !old(self).sessions().dom().contains(peer_id@),
            },
    {
        self.sessions.drop_peer(peer_id)
    }
}

impl<C: ?Sized> Default for ConnectionManager<C> {
    fn default() -> (m: Self)
        ensures
            m.wf(),
            m.conns() == Map::<Seq<char>, Arc<C>>::empty(),
            m.sessions() == Map::<Seq<char>, SessionView<C>>::empty(),
    {
        Self::new()
    }
}

/// How a read or a write ended.
pub enum IoOutcome<T> {
    Done(T),
    Failed(MlinkError),
    TimedOut,
}

/// What a handshake waits for.
pub enum HandshakeEvent {
    /// This side's handshake was encoded.
    Encoded(Vec<u8>),
    /// The frame was written.
    Written(IoOutcome<()>),
    /// The peer's frame was read.
    Received(IoOutcome<Vec<u8>>),
}

/// What a handshake does next.
pub enum HandshakeAction {
    /// Write this frame.
    Write(Vec<u8>),
    /// Read the peer's frame.
    Read,
    /// Decode this payload: it is the peer's handshake.
    Decode(Vec<u8>),
    /// Give up.
    Fail(MlinkError),
}

/// The frame of a handshake.
pub open spec fn handshake_frame(payload: Seq<u8>) -> Seq<u8> {
    frame_bytes(flags_value(false, false, MessageType::Handshake) as u8, 0, payload)
}

/// Why these bytes are no handshake, if they are none.
pub open spec fn handshake_fault(bytes: Seq<u8>) -> Option<Seq<char>> {
    match frame_fault(bytes) {
        Some(why) => Some(why),
        None => if flags_parts(bytes[3]).2 is Handshake {
            None
        } else {
            Some("expected Handshake, got "@ + message_name(flags_parts(bytes[3]).2))
        },
    }
}

/// Whether `next` is what follows `event` in a handshake.
pub open spec fn handshake_step(event: HandshakeEvent, next: HandshakeAction) -> bool {
    match event {
        HandshakeEvent::Encoded(payload) => if payload@.len() <= MAX_FRAME_PAYLOAD {
            next matches HandshakeAction::Write(b) && b@ == handshake_frame(payload@)
        } else {
            next matches HandshakeAction::Fail(e) && reports(e, PackFault::TooLarge(payload@.len()))
        },
        HandshakeEvent::Written(IoOutcome::Done(_)) => next is Read,
        HandshakeEvent::Written(IoOutcome::Failed(e)) => next == HandshakeAction::Fail(e),
        HandshakeEvent::Written(IoOutcome::TimedOut) => next matches HandshakeAction::Fail(
            MlinkError::HandlerError(m),
        ) && m@ == "handshake write timed out after 10s"@,
        HandshakeEvent::Received(IoOutcome::Done(bytes)) => match handshake_fault(bytes@) {
            Some(why) => next matches HandshakeAction::Fail(MlinkError::CodecError(m)) && m@ == why,
            None => next matches HandshakeAction::Decode(p) && p@ == bytes@.subrange(
                HEADER_SIZE as int,
                HEADER_SIZE + be_value(bytes@.subrange(6, 8)),
            ),
        },
        HandshakeEvent::Received(IoOutcome::Failed(e)) => next == HandshakeAction::Fail(e),
        HandshakeEvent::Received(IoOutcome::TimedOut) => next matches HandshakeAction::Fail(
            MlinkError::HandlerError(m),
        ) && m@ == "handshake read timed out after 10s"@,
    }
}

/// The frame that one side writes gives the other side the payload of its handshake.
pub proof fn written_handshake_is_received(payload: Vec<u8>, frame: Vec<u8>, reply: HandshakeAction)
    requires
        handshake_step(HandshakeEvent::Encoded(payload), HandshakeAction::Write(frame)),
        handshake_step(HandshakeEvent::Received(IoOutcome::Done(frame)), reply),
    ensures
        reply matches HandshakeAction::Decode(p) && p@ == payload@,
{
    flags_round_trip(false, false, MessageType::Handshake);
    let flags = flags_value(false, false, MessageType::Handshake) as u8;
    frame_round_trip(flags, 0, payload@, Seq::empty());
    assert(frame@ + Seq::empty() =~= frame@);
}

/// A handshake is written, then the peer's is read, then decoded. On the wire it is a plain frame
/// of its type with number 0, and only such a frame is taken for one. What goes wrong on the way is
/// passed on.
pub proof fn handshake_goes_step_by_step(event: HandshakeEvent, next: HandshakeAction)
    requires
        handshake_step(event, next),
    ensures
        event matches HandshakeEvent::Encoded(p) ==> {
            &&& p@.len() <= 0xFFFF ==> (next matches HandshakeAction::Write(b) && b@ == seq![
                0x4Du8,
                0x4Cu8,
                1u8,
                1u8,
                0u8,
                0u8,
                (p@.len() / 256) as u8,
                (p@.len() % 256) as u8,
            ] + p@)
            &&& p@.len() > 0xFFFF ==> (next matches HandshakeAction::Fail(
                MlinkError::PayloadTooLarge { size, max },
            ) && size == p@.len() && max == 0xFFFF)
        },
        event matches HandshakeEvent::Written(IoOutcome::Done(_)) ==> next is Read,
        event matches HandshakeEvent::Written(IoOutcome::Failed(e)) ==> next
            == HandshakeAction::Fail(e),
        event matches HandshakeEvent::Written(IoOutcome::TimedOut) ==> next is Fail,
        event matches HandshakeEvent::Received(IoOutcome::Failed(e)) ==> next
            == HandshakeAction::Fail(e),
        event matches HandshakeEvent::Received(IoOutcome::TimedOut) ==> next is Fail,
        event matches HandshakeEvent::Received(IoOutcome::Done(b)) ==> if b@.len() >= 8 && b@[0]
            == 0x4D && b@[1] == 0x4C && b@[2] == 1 && b@.len() >= 8 + 256 * b@[6] + b@[7] && b@[3]
            & 0x3F == 1 {
            next matches HandshakeAction::Decode(p) && p@ == b@.subrange(
                8,
                8 + 256 * b@[6] + b@[7],
            )
        } else {
            next matches HandshakeAction::Fail(e) && e is CodecError
        },
        event matches HandshakeEvent::Received(IoOutcome::Done(b)) ==> (frame_fault(b@) is Some
            ==> (next matches HandshakeAction::Fail(MlinkError::CodecError(m)) && Some(m@)
            == frame_fault(b@))),
        event matches HandshakeEvent::Received(IoOutcome::Done(b)) ==> (frame_fault(b@) is None
            && b@[3] & 0x3F != 1 ==> (next matches HandshakeAction::Fail(
            MlinkError::CodecError(m),
        ) && m@ == "expected Handshake, got "@ + message_name(flags_parts(b@[3]).2))),
{
    message_types_on_the_wire();
    message_type_code_round_trip(MessageType::Handshake);
    if let HandshakeEvent::Encoded(p) = event {
        let flags = flags_value(false, false, MessageType::Handshake);
        marks_are_the_two_high_bits(0, false, false, MessageType::Handshake);
        assert(flags == 1);
        if p@.len() <= 0xFFFF {
            frame_layout(1, 0, p@);
        }
    }
    if let HandshakeEvent::Received(IoOutcome::Done(b)) = event {
        let f = Frame {
            magic: MAGIC,
            version: PROTOCOL_VERSION,
            flags: 0,
            seq: 0,
            length: 0,
            payload: arbitrary(),
        };
        frames_are_recognised(b@, f);
        if b@.len() >= 8 {
            marks_are_the_two_high_bits(b@[3], false, false, MessageType::Handshake);
            assert(b@.subrange(6, 8) =~= seq![b@[6], b@[7]]);
            most_significant_byte_comes_first(0, b@[6], b@[7], 0, 0);
        }
    }
}

/// Exchanges handshakes with a peer, one step at a time.
pub fn perform_handshake(event: HandshakeEvent) -> (next: HandshakeAction)
    ensures
        handshake_step(event, next),
{
    match event {
        HandshakeEvent::Encoded(payload) => match frame_body(
            false,
            false,
            MessageType::Handshake,
            0,
            payload,
        ) {
            Ok(bytes) => HandshakeAction::Write(bytes),
            Err(e) => HandshakeAction::Fail(e),
        },
        HandshakeEvent::Written(IoOutcome::Done(_)) => HandshakeAction::Read,
        HandshakeEvent::Written(IoOutcome::Failed(e)) => HandshakeAction::Fail(e),
        HandshakeEvent::Written(IoOutcome::TimedOut) => HandshakeAction::Fail(
            MlinkError::HandlerError("handshake write timed out after 10s".to_owned()),
        ),
        HandshakeEvent::Received(IoOutcome::Done(bytes)) => match decode_frame(bytes.as_slice()) {
            Err(e) => HandshakeAction::Fail(e),
            Ok(frame) => {
                let (_, _, msg_type) = decode_flags(frame.flags);
                match msg_type {
                    MessageType::Handshake => HandshakeAction::Decode(frame.payload),
                    _ => HandshakeAction::Fail(
                        MlinkError::CodecError(joined("expected Handshake, got ", msg_type.name())),
                    ),
                }
            },
        },
        HandshakeEvent::Received(IoOutcome::Failed(e)) => HandshakeAction::Fail(e),
        HandshakeEvent::Received(IoOutcome::TimedOut) => HandshakeAction::Fail(
            MlinkError::HandlerError("handshake read timed out after 10s".to_owned()),
        ),
    }
}

} // verus!
