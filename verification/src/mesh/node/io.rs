//! What is written to a peer's connection, and what is made of what comes from it.

use std::sync::Arc;
use std::time::Instant;

use vstd::prelude::*;

use crate::clock::{millis_between, millis_until, now};
use crate::mesh::node::lifecycle::{closing, without_peer, Departure};
use crate::mesh::node::types::{
    seq_after, NodeEvent, NodeEventView, PeerStateView, HEARTBEAT_TIMEOUT,
};
use crate::mesh::node::{Node, NodeView};
use crate::mesh::payload::{
    body_is_decrypted_then_decompressed, frame_body, key_view, pack_payload, packed,
    payload_is_compressed_then_encrypted, plain_payload_is_never_refused, reports, unlock_fault,
    unlocked, unpack_payload, unpacked, PackFault, MAX_FRAME_PAYLOAD,
};
use crate::mesh::security::{aes_gcm_opened, nonce_of};
use crate::protocol::compress::zstd_content;
use crate::protocol::errors::{MlinkError, Result};
use crate::protocol::frame::{
    decode_frame, frame_at_start, frame_bytes, frame_fault, frame_layout, frame_round_trip,
    frames_are_recognised,
};
use crate::protocol::types::{
    decode_flags, flags_parts, flags_round_trip, flags_value, marks_are_the_two_high_bits,
    message_type_code_round_trip, message_types_on_the_wire, Frame, MessageType, HEADER_SIZE,
    MAGIC, PROTOCOL_VERSION,
};
use crate::protocol::wire::{be_value, most_significant_byte_comes_first};

verus! {

/// The frame of a message, or why there is none.
pub open spec fn raw_frame_of(
    seq: u16,
    msg_type: MessageType,
    payload: Seq<u8>,
    key: Option<Seq<u8>>,
) -> std::result::Result<Seq<u8>, PackFault> {
    match packed(payload, true, key, seq) {
        Err(fault) => Err(fault),
        Ok((body, compressed, encrypted)) => if body.len() <= MAX_FRAME_PAYLOAD {
            Ok(frame_bytes(flags_value(compressed, encrypted, msg_type) as u8, seq, body))
        } else {
            Err(PackFault::TooLarge(body.len()))
        },
    }
}

/// The payload of the frame at the start of `bytes`, decrypted under `key` if the frame is
/// marked as encrypted and there is a key, and decompressed if it is marked so.
pub open spec fn payload_in(bytes: Seq<u8>, key: Option<Seq<u8>>) -> Option<Seq<u8>> {
    let (compressed, encrypted, _) = flags_parts(bytes[3]);
    unpacked(
        bytes.subrange(HEADER_SIZE as int, HEADER_SIZE + be_value(bytes.subrange(6, 8))),
        compressed,
        if encrypted {
            key
        } else {
            None
        },
        be_value(bytes.subrange(4, 6)) as u16,
    )
}

/// The key for what is sent to a peer: only where the node encrypts, and the peer has one.
pub open spec fn sending_key<C: ?Sized>(n: NodeView<C>, peer: Seq<char>) -> Option<Seq<u8>> {
    if n.config.encrypt {
        n.states[peer].key
    } else {
        None
    }
}

/// The node after a sequence number was handed out for a peer.
pub open spec fn numbered<C: ?Sized>(n: NodeView<C>, peer: Seq<char>) -> NodeView<C> {
    NodeView {
        states: n.states.insert(
            peer,
            PeerStateView { seq: seq_after(n.states[peer].seq), ..n.states[peer] },
        ),
        ..n
    }
}

/// Whether `e` says that a peer is gone.
pub open spec fn is_gone(e: MlinkError, peer: Seq<char>) -> bool {
    e matches MlinkError::PeerGone { peer_id } && peer_id@ == peer
}

/// Whether `after` and `r` are what sending comes to: a frame, and the connection that it is to
/// be written to. The sequence number is used up even where there is no frame.
pub open spec fn raw_sent<C: ?Sized>(
    before: NodeView<C>,
    after: NodeView<C>,
    peer: Seq<char>,
    msg_type: MessageType,
    payload: Seq<u8>,
    r: Result<(Arc<C>, Vec<u8>)>,
) -> bool {
    if !before.states.dom().contains(peer) {
        &&& after == before
        &&& r matches Err(e) && is_gone(e, peer)
    } else {
        &&& after == numbered(before, peer)
        &&& match raw_frame_of(
            before.states[peer].seq,
            msg_type,
            payload,
            sending_key(before, peer),
        ) {
            Err(fault) => r matches Err(e) && reports(e, fault),
            Ok(bytes) => if before.conns.dom().contains(peer) {
                r matches Ok((conn, b)) && conn == before.conns[peer] && b@ == bytes
            } else {
                r matches Err(e) && is_gone(e, peer)
            },
        }
    }
}

/// Why no payload can be had from bytes that came from a peer.
pub enum RecvFault {
    /// They are no frame.
    NotAFrame(Seq<char>),
    /// They are encrypted, and nothing is known of the peer.
    Gone,
    /// They were not encrypted under the peer's key.
    Security(Seq<char>),
    /// They cannot be decompressed.
    Compress,
}

/// The fault of bytes that came from a peer, if there is one. `state` is what is known of the
/// peer; `decrypts` says whether encrypted frames are decrypted at all.
pub open spec fn recv_fault(
    bytes: Seq<u8>,
    state: Option<PeerStateView>,
    decrypts: bool,
) -> Option<RecvFault> {
    if let Some(why) = frame_fault(bytes) {
        Some(RecvFault::NotAFrame(why))
    } else {
        let (compressed, encrypted, _) = flags_parts(bytes[3]);
        let body = bytes.subrange(HEADER_SIZE as int, HEADER_SIZE + be_value(bytes.subrange(6, 8)));
        let seq = be_value(bytes.subrange(4, 6)) as u16;
        if encrypted && decrypts && state is None {
            Some(RecvFault::Gone)
        } else {
            let key = recv_key(state, decrypts);
            if encrypted && unlocked(body, key, seq) is None {
                Some(RecvFault::Security(unlock_fault(key->0)))
            } else if payload_in(bytes, key) is None {
                Some(RecvFault::Compress)
            } else {
                None
            }
        }
    }
}

/// The key for what comes from a peer.
pub open spec fn recv_key(state: Option<PeerStateView>, decrypts: bool) -> Option<Seq<u8>> {
    if decrypts && state is Some {
        state->0.key
    } else {
        None
    }
}

/// Whether `e` is the error for this fault.
pub open spec fn recv_reports(e: MlinkError, fault: RecvFault, peer: Seq<char>) -> bool {
    match fault {
        RecvFault::NotAFrame(why) => e matches MlinkError::CodecError(m) && m@ == why,
        RecvFault::Gone => is_gone(e, peer),
        RecvFault::Security(why) => e matches MlinkError::SecurityError(m) && m@ == why,
        RecvFault::Compress => e is CompressError,
    }
}

/// What a node knows of a peer.
pub open spec fn known<C: ?Sized>(n: NodeView<C>, peer: Seq<char>) -> Option<PeerStateView> {
    if n.states.dom().contains(peer) {
        Some(n.states[peer])
    } else {
        None
    }
}

/// The node after a sign of life from a peer at `at`.
pub open spec fn heard_from<C: ?Sized>(n: NodeView<C>, peer: Seq<char>, at: Instant) -> NodeView<C> {
    if n.states.dom().contains(peer) {
        NodeView {
            states: n.states.insert(
                peer,
                PeerStateView { last_heartbeat: Some(at), ..n.states[peer] },
            ),
            ..n
        }
    } else {
        n
    }
}

/// Whether `after` and `r` are what bytes from a peer come to. A heartbeat is a sign of life.
pub open spec fn raw_received<C: ?Sized>(
    before: NodeView<C>,
    after: NodeView<C>,
    peer: Seq<char>,
    bytes: Seq<u8>,
    decrypts: bool,
    at: Instant,
    r: Result<(Frame, Vec<u8>)>,
) -> bool {
    let state = known(before, peer);
    match recv_fault(bytes, state, decrypts) {
        Some(fault) => {
            &&& after == before
            &&& r matches Err(e) && recv_reports(e, fault, peer)
        },
        None => {
            &&& r matches Ok((frame, payload)) && frame_at_start(bytes, frame) && payload_in(
                bytes,
                recv_key(state, decrypts),
            ) == Some(payload@)
            &&& after == if flags_parts(bytes[3]).2 is Heartbeat {
                heard_from(before, peer, at)
            } else {
                before
            }
        },
    }
}

/// What the reader of a peer's connection does next.
pub enum ReaderAction<C: ?Sized> {
    /// Tell this, if anything, and read on.
    Continue(Option<NodeEvent>),
    /// Stop: the peer is gone.
    Stop(Departure<C>),
}

/// Whether `after` and `next` are what follows a read. Messages are told; anything else is
/// taken in silently; and the first thing that goes wrong ends it, with the peer removed.
pub open spec fn reader_stepped<C: ?Sized>(
    before: NodeView<C>,
    after: NodeView<C>,
    peer: Seq<char>,
    read: Result<Vec<u8>>,
    at: Instant,
    next: ReaderAction<C>,
) -> bool {
    let gone = {
        &&& after == without_peer(before, peer)
        &&& next matches ReaderAction::Stop(d) && d.conns@ == closing(before, peer) && d.event@ == (
        NodeEventView::PeerDisconnected { peer_id: peer })
    };
    match read {
        Err(_) => gone,
        Ok(bytes) => if recv_fault(bytes@, known(before, peer), before.config.encrypt) is Some {
            gone
        } else {
            let payload = payload_in(bytes@, recv_key(known(before, peer), before.config.encrypt));
            match flags_parts(bytes@[3]).2 {
                MessageType::Message => {
                    &&& after == before
                    &&& next matches ReaderAction::Continue(Some(ev)) && ev@ == (
                    NodeEventView::MessageReceived { peer_id: peer, payload: payload->0 })
                },
                MessageType::Heartbeat => {
                    &&& after == heard_from(before, peer, at)
                    &&& next matches ReaderAction::Continue(None)
                },
                _ => after == before && next matches ReaderAction::Continue(None),
            }
        },
    }
}

/// Whether a peer counts as alive, when the last sign of life is `silent_ms` old.
pub open spec fn alive_after(silent_ms: u64) -> bool {
    silent_ms < HEARTBEAT_TIMEOUT * 1000
}

impl<C: ?Sized> Node<C> {
    fn gone(peer_id: &str) -> (e: MlinkError)
        ensures
            is_gone(e, peer_id@),
    {
        MlinkError::PeerGone { peer_id: peer_id.to_owned() }
    }

    /// Makes the frame of a message to a peer, and says which connection it is to be written to.
    /// Whoever holds the same key reads the payload back from it.
    pub fn send_raw(&mut self, peer_id: &str, msg_type: MessageType, payload: &[u8]) -> (r: Result<
        (Arc<C>, Vec<u8>),
    >)
        requires
            old(self).wf(),
        ensures
            final(self).wf(),
            raw_sent(old(self)@, final(self)@, peer_id@, msg_type, payload@, r),
            r matches Ok((_, b)) ==> {
                &&& frame_fault(b@) is None
                &&& flags_parts(b@[3]).2 == msg_type
                &&& payload_in(b@, sending_key(old(self)@, peer_id@)) == Some(payload@)
            },
    {
        let ghost before = self@;
        let encrypts: bool = self.config.encrypt;
        let ghost held = self.peer_states@;
        let (seq, packing) = match self.peer_states.get_mut(peer_id) {
            None => {
                return Err(Self::gone(peer_id));
            },
            Some(st) => {
                let seq: u16 = st.next_seq();
                let key: Option<&[u8]> = if encrypts {
                    match &st.aes_key {
                        Some(k) => Some(k.as_slice()),
                        None => None,
                    }
                } else {
                    None
                };
                assert(key_view(key) == sending_key(before, peer_id@));
                (seq, pack_payload(payload, true, key, seq))
            },
        };
        proof {
            assert(self@.states =~= numbered(before, peer_id@).states);
        }
        let p = match packing {
            Ok(p) => p,
            Err(e) => {
                return Err(e);
            },
        };
        let compressed: bool = p.compressed;
        let encrypted: bool = p.encrypted;
        let ghost body = p.body@;
        let bytes = match frame_body(compressed, encrypted, msg_type, seq, p.body) {
            Ok(b) => b,
            Err(e) => {
                return Err(e);
            },
        };
        proof {
            flags_round_trip(compressed, encrypted, msg_type);
            let flags = flags_value(compressed, encrypted, msg_type) as u8;
            frame_round_trip(flags, seq, body, Seq::empty());
            assert(bytes@ + Seq::empty() =~= bytes@);
        }
        match self.connections.shared(peer_id) {
            Some(conn) => Ok((conn, bytes)),
            None => Err(Self::gone(peer_id)),
        }
    }

    /// Makes a heartbeat for a peer.
    pub fn send_heartbeat(&mut self, peer_id: &str) -> (r: Result<(Arc<C>, Vec<u8>)>)
        requires
            old(self).wf(),
        ensures
            final(self).wf(),
            raw_sent(
                old(self)@,
                final(self)@,
                peer_id@,
                MessageType::Heartbeat,
                Seq::empty(),
                r,
            ),
    {
        let none: [u8; 0] = [];
        assert(none@ =~= Seq::<u8>::empty());
        self.send_raw(peer_id, MessageType::Heartbeat, &none)
    }

    /// The connection to read from.
    pub fn peer_conn(&self, peer_id: &str) -> (r: Result<Arc<C>>)
        requires
            self.wf(),
        ensures
            if self@.conns.dom().contains(peer_id@) {
                r matches Ok(conn) && conn == self@.conns[peer_id@]
            } else {
                r matches Err(e) && is_gone(e, peer_id@)
            },
    {
        match self.connections.shared(peer_id) {
            Some(conn) => Ok(conn),
            None => Err(Self::gone(peer_id)),
        }
    }

    fn receive(&mut self, peer_id: &str, bytes: &[u8], decrypts: bool, at: Instant) -> (r: Result<
        (Frame, Vec<u8>),
    >)
        requires
            old(self).wf(),
        ensures
            final(self).wf(),
            raw_received(old(self)@, final(self)@, peer_id@, bytes@, decrypts, at, r),
    {
        let ghost before = self@;
        let frame = match decode_frame(bytes) {
            Ok(f) => f,
            Err(e) => {
                return Err(e);
            },
        };
        let (compressed, encrypted, msg_type) = decode_flags(frame.flags);
        let key: Option<&[u8]> = if encrypted && decrypts {
            match self.peer_states.get(peer_id) {
                None => {
                    return Err(Self::gone(peer_id));
                },
                Some(st) => match &st.aes_key {
                    Some(k) => Some(k.as_slice()),
                    None => None,
                },
            }
        } else {
            None
        };
        let payload = match unpack_payload(frame.payload.as_slice(), compressed, key, frame.seq) {
            Ok(p) => p,
            Err(e) => {
                return Err(e);
            },
        };
        if msg_type == MessageType::Heartbeat {
            if let Some(s) = self.peer_states.get_mut(peer_id) {
                s.last_heartbeat = Some(at);
            }
            assert(self@.states =~= heard_from(before, peer_id@, at).states);
        }
        Ok((frame, payload))
    }

    /// [`Node::recv_raw`], for bytes that were read at `at`.
    pub fn recv_raw_at(&mut self, peer_id: &str, bytes: &[u8], at: Instant) -> (r: Result<
        (Frame, Vec<u8>),
    >)
        requires
            old(self).wf(),
        ensures
            final(self).wf(),
            raw_received(old(self)@, final(self)@, peer_id@, bytes@, true, at, r),
    {
        self.receive(peer_id, bytes, true, at)
    }

    /// Takes in the bytes of a frame that were read from a peer's connection.
    pub fn recv_raw(&mut self, peer_id: &str, bytes: &[u8]) -> (r: Result<(Frame, Vec<u8>)>)
        requires
            old(self).wf(),
        ensures
            final(self).wf(),
            exists|at: Instant|
                #[trigger] raw_received(
                    old(self)@,
                    final(self)@,
                    peer_id@,
                    bytes@,
                    true,
                    at,
                    r,
                ),
    {
        let at = now();
        self.recv_raw_at(peer_id, bytes, at)
    }

    /// One step of the task that reads a peer's connection, after a read that ended at `at`.
    pub fn reader_step_at(&mut self, peer_id: &str, read: Result<Vec<u8>>, at: Instant) -> (next:
        ReaderAction<C>)
        requires
            old(self).wf(),
        ensures
            final(self).wf(),
            reader_stepped(old(self)@, final(self)@, peer_id@, read, at, next),
    {
        let decrypts: bool = self.config.encrypt;
        let bytes = match read {
            Ok(b) => b,
            Err(_) => {
                return ReaderAction::Stop(self.disconnect_peer(peer_id));
            },
        };
        match self.receive(peer_id, bytes.as_slice(), decrypts, at) {
            Err(_) => ReaderAction::Stop(self.disconnect_peer(peer_id)),
            Ok((frame, payload)) => {
                let (_, _, msg_type) = decode_flags(frame.flags);
                if msg_type == MessageType::Message {
                    ReaderAction::Continue(
                        Some(
                            NodeEvent::MessageReceived { peer_id: peer_id.to_owned(), payload },
                        ),
                    )
                } else {
                    ReaderAction::Continue(None)
                }
            },
        }
    }

    /// One step of the task that reads a peer's connection.
    pub fn reader_step(&mut self, peer_id: &str, read: Result<Vec<u8>>) -> (next: ReaderAction<C>)
        requires
            old(self).wf(),
        ensures
            final(self).wf(),
            exists|at: Instant|
                #[trigger] reader_stepped(
                    old(self)@,
                    final(self)@,
                    peer_id@,
                    read,
                    at,
                    next,
                ),
    {
        let at = now();
        self.reader_step_at(peer_id, read, at)
    }

    /// [`Node::check_heartbeat`], at `end`.
    pub fn check_heartbeat_at(&self, peer_id: &str, end: Instant) -> (r: Result<bool>)
        requires
            self.wf(),
        ensures
            heartbeat_checked(self@, peer_id@, end, r),
    {
        match self.peer_states.get(peer_id) {
            None => Err(Self::gone(peer_id)),
            Some(st) => match &st.last_heartbeat {
                None => Ok(true),
                Some(t) => {
                    let silent_ms: u64 = millis_until(t, &end);
                    Ok(is_alive_after(silent_ms))
                },
            },
        }
    }

    /// Whether a peer counts as alive; one that never gave a sign of life does.
    pub fn check_heartbeat(&self, peer_id: &str) -> (r: Result<bool>)
        requires
            self.wf(),
        ensures
            exists|end: Instant| #[trigger] heartbeat_checked(self@, peer_id@, end, r),
    {
        let end = now();
        self.check_heartbeat_at(peer_id, end)
    }
}

/// Whether `r` is what a node says of a peer's heartbeat at `end`: a peer is alive until its
/// last sign of life is too old.
pub open spec fn heartbeat_checked<C: ?Sized>(
    n: NodeView<C>,
    peer: Seq<char>,
    end: Instant,
    r: Result<bool>,
) -> bool {
    match known(n, peer) {
        None => r matches Err(e) && is_gone(e, peer),
        Some(st) => r matches Ok(alive) && match st.last_heartbeat {
            None => alive,
            Some(t) => alive == alive_after(millis_between(t, end)),
        },
    }
}

/// Whether a peer counts as alive, when the last sign of life is `silent_ms` old.
pub fn is_alive_after(silent_ms: u64) -> (r: bool)
    ensures
        r == alive_after(silent_ms),
{
    silent_ms < HEARTBEAT_TIMEOUT * 1000
}

/// What one node sends, another node with the same key for it receives: the same type, and the
/// same payload, whether it was compressed and encrypted or not.
pub proof fn sent_payload_is_received<C: ?Sized, D: ?Sized>(
    sender: NodeView<C>,
    to: Seq<char>,
    bytes: Seq<u8>,
    payload: Seq<u8>,
    receiver: NodeView<D>,
    after: NodeView<D>,
    from: Seq<char>,
    at: Instant,
    r: Result<(Frame, Vec<u8>)>,
)
    requires
        frame_fault(bytes) is None,
        payload_in(bytes, sending_key(sender, to)) == Some(payload),
        known(receiver, from) is Some,
        flags_parts(bytes[3]).1 ==> receiver.states[from].key == sending_key(sender, to)
            && sending_key(sender, to) is Some,
        raw_received(receiver, after, from, bytes, true, at, r),
    ensures
        r matches Ok((f, p)) && p@ == payload && f.flags == bytes[3],
{
    let state = known(receiver, from);
    assert(payload_in(bytes, recv_key(state, true)) == Some(payload));
}

/// What is sent is what is told: where one node makes the frame of a message, and the other one
/// holds the same key if the frame is encrypted, the other one's reader tells the payload as it
/// was, compressed, encrypted or plain, and nothing else changes.
pub proof fn sent_message_is_told<C: ?Sized, D: ?Sized>(
    sender: NodeView<C>,
    sent: NodeView<C>,
    to: Seq<char>,
    payload: Seq<u8>,
    conn: Arc<C>,
    bytes: Vec<u8>,
    receiver: NodeView<D>,
    after: NodeView<D>,
    from: Seq<char>,
    at: Instant,
    next: ReaderAction<D>,
)
    requires
        raw_sent(sender, sent, to, MessageType::Message, payload, Ok((conn, bytes))),
        payload_in(bytes@, sending_key(sender, to)) == Some(payload),
        receiver.states.dom().contains(from),
        sender.config.encrypt && sender.states[to].key is Some ==> receiver.config.encrypt
            && receiver.states[from].key == sender.states[to].key,
        reader_stepped(receiver, after, from, Ok(bytes), at, next),
    ensures
        next matches ReaderAction::Continue(Some(ev)) && ev@ == (NodeEventView::MessageReceived {
            peer_id: from,
            payload,
        }),
        after == receiver,
{
    let seq = sender.states[to].seq;
    let key = sending_key(sender, to);
    let (body, compressed, encrypted) = packed(payload, true, key, seq)->Ok_0;
    payload_is_compressed_then_encrypted(payload, true, key, seq, body, compressed, encrypted);
    flags_round_trip(compressed, encrypted, MessageType::Message);
    let flags = flags_value(compressed, encrypted, MessageType::Message) as u8;
    frame_round_trip(flags, seq, body, Seq::empty());
    assert(bytes@ + Seq::empty() =~= bytes@);
    let state = known(receiver, from);
    assert(payload_in(bytes@, recv_key(state, receiver.config.encrypt)) == Some(payload));
}

/// What the reader tells of a frame that holds a message: its body, decrypted under the peer's key
/// and the frame's number where the frame is marked as encrypted, and then decompressed where it is
/// marked as compressed. Where either fails the peer is dropped.
#[verifier::spinoff_prover]
pub proof fn message_is_told_in_the_clear<C: ?Sized>(
    before: NodeView<C>,
    after: NodeView<C>,
    peer: Seq<char>,
    bytes: Vec<u8>,
    at: Instant,
    next: ReaderAction<C>,
    key: Seq<u8>,
)
    requires
        reader_stepped(before, after, peer, Ok(bytes), at, next),
        bytes@.len() >= 8 && bytes@.len() >= 8 + 256 * bytes@[6] + bytes@[7],
        bytes@[0] == 0x4D && bytes@[1] == 0x4C && bytes@[2] == 1,
        bytes@[3] & 0x3F == 0x10,
        before.states.dom().contains(peer),
        before.config.encrypt,
        before.states[peer].key == Some(key),
        key.len() == 32,
    ensures
        ({
            let body = bytes@.subrange(8, 8 + 256 * bytes@[6] + bytes@[7]);
            let plain = if bytes@[3] & 0x40 == 0x40 {
                aes_gcm_opened(key, nonce_of((256 * bytes@[4] + bytes@[5]) as u16), body)
            } else {
                Some(body)
            };
            let payload = match plain {
                None => None,
                Some(p) => if bytes@[3] & 0x80 == 0x80 {
                    zstd_content(p)
                } else {
                    Some(p)
                },
            };
            match payload {
                Some(told) => {
                    &&& after == before
                    &&& next matches ReaderAction::Continue(Some(ev)) && ev@ == (
                    NodeEventView::MessageReceived { peer_id: peer, payload: told })
                },
                None => next matches ReaderAction::Stop(d) && d.event@ == (
                NodeEventView::PeerDisconnected { peer_id: peer }),
            }
        }),
{
    lemma_frame_parts(bytes@);
    let body = bytes@.subrange(8, 8 + 256 * bytes@[6] + bytes@[7]);
    let seq = (256 * bytes@[4] + bytes@[5]) as u16;
    message_types_on_the_wire();
    marks_are_the_two_high_bits(bytes@[3], false, false, MessageType::Message);
    let (compressed, encrypted, _) = flags_parts(bytes@[3]);
    body_is_decrypted_then_decompressed(body, compressed, Some(key), seq);
    body_is_decrypted_then_decompressed(body, compressed, None, seq);
}

/// Where the parts of a frame stand.
proof fn lemma_frame_parts(bytes: Seq<u8>)
    requires
        bytes.len() >= 8 && bytes.len() >= 8 + 256 * bytes[6] + bytes[7],
        bytes[0] == 0x4D && bytes[1] == 0x4C && bytes[2] == 1,
    ensures
        frame_fault(bytes) is None,
        be_value(bytes.subrange(6, 8)) == 256 * bytes[6] + bytes[7],
        be_value(bytes.subrange(4, 6)) == 256 * bytes[4] + bytes[5],
{
    let f = Frame {
        magic: MAGIC,
        version: PROTOCOL_VERSION,
        flags: 0,
        seq: 0,
        length: 0,
        payload: arbitrary(),
    };
    frames_are_recognised(bytes, f);
    assert(bytes.subrange(6, 8) =~= seq![bytes[6], bytes[7]]);
    assert(bytes.subrange(4, 6) =~= seq![bytes[4], bytes[5]]);
    most_significant_byte_comes_first(0, bytes[6], bytes[7], 0, 0);
    most_significant_byte_comes_first(0, bytes[4], bytes[5], 0, 0);
}

/// A message that is neither compressed nor encrypted is told as it stands in the frame, whatever
/// is known of the peer; a heartbeat is only noted, with the time; any other plain frame passes in
/// silence. What is no frame ends the reading, and so does a read that failed.
pub proof fn plain_frame_is_told_as_it_is<C: ?Sized>(
    before: NodeView<C>,
    after: NodeView<C>,
    peer: Seq<char>,
    bytes: Vec<u8>,
    at: Instant,
    next: ReaderAction<C>,
)
    requires
        reader_stepped(before, after, peer, Ok(bytes), at, next),
        bytes@.len() >= 8 && bytes@.len() >= 8 + 256 * bytes@[6] + bytes@[7],
        bytes@[0] == 0x4D && bytes@[1] == 0x4C && bytes@[2] == 1,
        bytes@[3] < 0x40,
    ensures
        bytes@[3] == 0x10 ==> after == before && (next matches ReaderAction::Continue(Some(ev))
            && ev@ == (NodeEventView::MessageReceived {
            peer_id: peer,
            payload: bytes@.subrange(8, 8 + 256 * bytes@[6] + bytes@[7]),
        })),
        bytes@[3] == 0x02 ==> {
            &&& next matches ReaderAction::Continue(None)
            &&& after == (NodeView { states: after.states, ..before })
            &&& after.states.dom() == before.states.dom()
            &&& before.states.dom().contains(peer) ==> after.states[peer] == (PeerStateView {
                last_heartbeat: Some(at),
                ..before.states[peer]
            })
            &&& forall|p: Seq<char>|
                p != peer && before.states.dom().contains(p) ==> #[trigger] after.states[p]
                    == before.states[p]
        },
        bytes@[3] != 0x10 && bytes@[3] != 0x02 ==> after == before && (next
            matches ReaderAction::Continue(None)),
{
    lemma_frame_parts(bytes@);
    let b = bytes@[3];
    assert(b < 0x40 ==> b & 0x3F == b && b & 0x40 != 0x40 && b & 0x80 != 0x80) by (bit_vector);
    message_types_on_the_wire();
    marks_are_the_two_high_bits(b, false, false, MessageType::Message);
    message_type_code_round_trip(MessageType::Message);
    message_type_code_round_trip(MessageType::Heartbeat);
    assert(heard_from(before, peer, at).states.dom() =~= before.states.dom());
}

/// A read that failed, and bytes that are no frame, end the reading: the peer is gone, and its
/// connection is to be closed.
pub proof fn failed_read_drops_the_peer<C: ?Sized>(
    before: NodeView<C>,
    after: NodeView<C>,
    peer: Seq<char>,
    read: Result<Vec<u8>>,
    at: Instant,
    next: ReaderAction<C>,
)
    requires
        reader_stepped(before, after, peer, read, at, next),
        read matches Ok(b) ==> b@.len() < 8 || b@[0] != 0x4D || b@[1] != 0x4C || b@[2] != 1
            || b@.len() < 8 + 256 * b@[6] + b@[7],
    ensures
        after == without_peer(before, peer),
        !after.conns.dom().contains(peer),
        !after.peers.dom().contains(peer),
        next matches ReaderAction::Stop(d) && {
            &&& d.event@ == (NodeEventView::PeerDisconnected { peer_id: peer })
            &&& d.conns@ == if before.conns.dom().contains(peer) {
                seq![before.conns[peer]]
            } else {
                Seq::empty()
            }
        },
{
    if let Ok(b) = read {
        let f = Frame {
            magic: MAGIC,
            version: PROTOCOL_VERSION,
            flags: 0,
            seq: 0,
            length: 0,
            payload: arbitrary(),
        };
        frames_are_recognised(b@, f);
    }
}

/// Receiving gives the same as reading: the frame's parts, and the body in the clear. A heartbeat
/// is noted with the time, and nothing else changes.
#[verifier::spinoff_prover]
pub proof fn received_payload_is_in_the_clear<C: ?Sized>(
    before: NodeView<C>,
    after: NodeView<C>,
    peer: Seq<char>,
    bytes: Seq<u8>,
    decrypts: bool,
    at: Instant,
    r: Result<(Frame, Vec<u8>)>,
)
    requires
        raw_received(before, after, peer, bytes, decrypts, at, r),
        bytes.len() >= 8 && bytes.len() >= 8 + 256 * bytes[6] + bytes[7],
        bytes[0] == 0x4D && bytes[1] == 0x4C && bytes[2] == 1,
    ensures
        ({
            let body = bytes.subrange(8, 8 + 256 * bytes[6] + bytes[7]);
            let locked = bytes[3] & 0x40 == 0x40;
            let squeezed = bytes[3] & 0x80 == 0x80;
            let key = if decrypts && before.states.dom().contains(peer) {
                before.states[peer].key
            } else {
                None
            };
            let plain = if !locked || key is None {
                Some(body)
            } else if key->0.len() == 32 {
                aes_gcm_opened(key->0, nonce_of((256 * bytes[4] + bytes[5]) as u16), body)
            } else {
                None
            };
            let payload = match plain {
                None => None,
                Some(p) => if squeezed {
                    zstd_content(p)
                } else {
                    Some(p)
                },
            };
            if (locked && decrypts && !before.states.dom().contains(peer)) || payload is None {
                r is Err && after == before
            } else {
                &&& r matches Ok((f, p)) && p@ == payload->0 && f.flags == bytes[3] && f.seq == 256
                    * bytes[4] + bytes[5] && f.payload@ == body
                &&& bytes[3] & 0x3F != 0x02 ==> after == before
                &&& bytes[3] & 0x3F == 0x02 && before.states.dom().contains(peer)
                    ==> after.states[peer].last_heartbeat == Some(at)
            }
        }),
{
    lemma_frame_parts(bytes);
    let body = bytes.subrange(8, 8 + 256 * bytes[6] + bytes[7]);
    let seq = (256 * bytes[4] + bytes[5]) as u16;
    message_types_on_the_wire();
    message_type_code_round_trip(MessageType::Heartbeat);
    marks_are_the_two_high_bits(bytes[3], false, false, MessageType::Message);
    let (compressed, encrypted, _) = flags_parts(bytes[3]);
    let key = recv_key(known(before, peer), decrypts);
    body_is_decrypted_then_decompressed(body, compressed, key, seq);
    body_is_decrypted_then_decompressed(body, compressed, None, seq);
    if let Ok((f, _)) = r {
        frames_are_recognised(bytes, f);
    }
}

/// Every frame to a peer has the next number of that peer, one higher than the last and 0 after
/// 65535, in its header; other peers' numbers stay. The frame goes to the peer's connection. There
/// is none for a peer that is not known, or has no connection.
pub proof fn frames_to_a_peer_are_numbered<C: ?Sized>(
    before: NodeView<C>,
    after: NodeView<C>,
    peer: Seq<char>,
    msg_type: MessageType,
    payload: Seq<u8>,
    r: Result<(Arc<C>, Vec<u8>)>,
)
    requires
        raw_sent(before, after, peer, msg_type, payload, r),
    ensures
        !before.states.dom().contains(peer) ==> after == before && (r matches Err(
            MlinkError::PeerGone { peer_id },
        ) && peer_id@ == peer),
        before.states.dom().contains(peer) ==> {
            &&& after == (NodeView { states: after.states, ..before })
            &&& after.states.dom() == before.states.dom()
            &&& after.states[peer] == (PeerStateView {
                seq: after.states[peer].seq,
                ..before.states[peer]
            })
            &&& after.states[peer].seq == (before.states[peer].seq + 1) % 0x1_0000
            &&& forall|p: Seq<char>|
                p != peer && before.states.dom().contains(p) ==> #[trigger] after.states[p]
                    == before.states[p]
        },
        r is Ok ==> before.conns.dom().contains(peer) && before.states.dom().contains(peer),
        r matches Ok((conn, b)) ==> {
            &&& conn == before.conns[peer]
            &&& b@.len() >= 8
            &&& b@[0] == 0x4D && b@[1] == 0x4C && b@[2] == 1
            &&& 256 * b@[4] + b@[5] == before.states[peer].seq
            &&& b@.len() == 8 + 256 * b@[6] + b@[7]
            &&& flags_parts(b@[3]).0 <==> payload.len() >= 256
            &&& flags_parts(b@[3]).1 <==> before.config.encrypt && before.states[peer].key is Some
            &&& flags_parts(b@[3]).2 == msg_type
            &&& payload.len() < 256 && !(before.config.encrypt && before.states[peer].key is Some)
                ==> b@.subrange(8, b@.len() as int) == payload
        },
        before.states.dom().contains(peer) && before.conns.dom().contains(peer) && payload.len()
            < 256 && !(before.config.encrypt && before.states[peer].key is Some) ==> r is Ok,
{
    if before.states.dom().contains(peer) {
        assert(after.states.dom() =~= before.states.dom());
        let seq = before.states[peer].seq;
        let key = sending_key(before, peer);
        if payload.len() < 256 {
            plain_payload_is_never_refused(payload, true, Seq::empty(), seq);
        }
        if let Ok((body, compressed, encrypted)) = packed(payload, true, key, seq) {
            payload_is_compressed_then_encrypted(
                payload,
                true,
                key,
                seq,
                body,
                compressed,
                encrypted,
            );
            if r is Ok {
                let b = (r->Ok_0).1@;
                let flags = flags_value(compressed, encrypted, msg_type) as u8;
                flags_round_trip(compressed, encrypted, msg_type);
                frame_layout(flags, seq, body);
                assert(b.subrange(8, b.len() as int) =~= body);
            }
        }
    }
}

/// A peer is alive for 45 seconds after its last sign of life, and as long as it never gave one.
pub proof fn peer_is_alive_for_45_seconds<C: ?Sized>(
    n: NodeView<C>,
    peer: Seq<char>,
    end: Instant,
    r: Result<bool>,
)
    requires
        heartbeat_checked(n, peer, end, r),
    ensures
        !n.states.dom().contains(peer) ==> (r matches Err(MlinkError::PeerGone { peer_id })
            && peer_id@ == peer),
        n.states.dom().contains(peer) ==> (r matches Ok(alive) && match n.states[peer].last_heartbeat {
            None => alive,
            Some(t) => alive <==> millis_between(t, end) < 45_000,
        }),
        forall|ms: u64| #[trigger] alive_after(ms) <==> ms < 45_000,
{
}

/// Why nothing is received: what is no frame is a codec error, what is encrypted by a peer of whom
/// nothing is known comes from nobody, and what cannot be decrypted or decompressed says so.
pub proof fn faults_tell_what_went_wrong<C: ?Sized>(
    before: NodeView<C>,
    after: NodeView<C>,
    peer: Seq<char>,
    bytes: Seq<u8>,
    decrypts: bool,
    at: Instant,
    e: MlinkError,
)
    requires
        raw_received(before, after, peer, bytes, decrypts, at, Err(e)),
    ensures
        after == before,
        bytes.len() < 8 || bytes[0] != 0x4D || bytes[1] != 0x4C || bytes[2] != 1 || bytes.len() < 8
            + 256 * bytes[6] + bytes[7] <==> e is CodecError,
        e is CodecError || e is PeerGone || e is SecurityError || e is CompressError,
        e matches MlinkError::CodecError(m) ==> frame_fault(bytes) == Some(m@),
        e matches MlinkError::SecurityError(m) ==> m@ == unlock_fault(before.states[peer].key->0),
        e matches MlinkError::PeerGone { peer_id } ==> peer_id@ == peer
            && !before.states.dom().contains(peer) && bytes[3] & 0x40 == 0x40 && decrypts,
        e is SecurityError ==> bytes[3] & 0x40 == 0x40 && decrypts && before.states.dom().contains(
            peer,
        ) && before.states[peer].key is Some,
        e is CompressError ==> bytes[3] & 0x80 == 0x80,
{
    let f = Frame {
        magic: MAGIC,
        version: PROTOCOL_VERSION,
        flags: 0,
        seq: 0,
        length: 0,
        payload: arbitrary(),
    };
    frames_are_recognised(bytes, f);
    if bytes.len() >= 8 {
        marks_are_the_two_high_bits(bytes[3], false, false, MessageType::Message);
    }
}

/// A payload whose body does not fit into a frame is refused, with its size and the most that fits;
/// every body that fits goes out where the peer has a connection.
pub proof fn only_bodies_that_fit_go_out<C: ?Sized>(
    before: NodeView<C>,
    after: NodeView<C>,
    peer: Seq<char>,
    msg_type: MessageType,
    payload: Seq<u8>,
    r: Result<(Arc<C>, Vec<u8>)>,
    body: Seq<u8>,
    compressed: bool,
    encrypted: bool,
)
    requires
        raw_sent(before, after, peer, msg_type, payload, r),
        before.states.dom().contains(peer),
        packed(
            payload,
            true,
            if before.config.encrypt {
                before.states[peer].key
            } else {
                None
            },
            before.states[peer].seq,
        ) == Ok::<(Seq<u8>, bool, bool), PackFault>((body, compressed, encrypted)),
    ensures
        body.len() > 0xFFFF ==> (r matches Err(MlinkError::PayloadTooLarge { size, max }) && size
            == body.len() && max == 0xFFFF),
        body.len() <= 0xFFFF && before.conns.dom().contains(peer) ==> (r matches Ok((conn, b))
            && conn == before.conns[peer] && b@.len() == 8 + body.len() && b@.subrange(
            8,
            b@.len() as int,
        ) == body),
        body.len() <= 0xFFFF && !before.conns.dom().contains(peer) ==> (r matches Err(
            MlinkError::PeerGone { peer_id },
        ) && peer_id@ == peer),
{
    if body.len() <= 0xFFFF {
        let seq = before.states[peer].seq;
        let flags = flags_value(compressed, encrypted, msg_type) as u8;
        frame_layout(flags, seq, body);
        let whole = frame_bytes(flags, seq, body);
        assert(whole.subrange(8, whole.len() as int) =~= body);
    }
}

/// The reader treats what it reads as receiving does: a frame that cannot be read in the clear ends
/// it, a message is told in the clear, and anything else is not told. Encrypted frames are
/// decrypted where the node encrypts and has a key for the peer.
#[verifier::spinoff_prover]
pub proof fn reader_tells_what_is_received<C: ?Sized>(
    before: NodeView<C>,
    after: NodeView<C>,
    peer: Seq<char>,
    bytes: Vec<u8>,
    at: Instant,
    next: ReaderAction<C>,
    received: NodeView<C>,
    r: Result<(Frame, Vec<u8>)>,
)
    requires
        reader_stepped(before, after, peer, Ok(bytes), at, next),
        raw_received(before, received, peer, bytes@, before.config.encrypt, at, r),
    ensures
        r is Err ==> after == without_peer(before, peer) && (next matches ReaderAction::Stop(d)
            && d.event@ == (NodeEventView::PeerDisconnected { peer_id: peer }) && d.conns@
            == closing(before, peer)),
        r matches Ok((f, p)) ==> {
            &&& after == received
            &&& f.flags & 0x3F == 0x10 ==> (next matches ReaderAction::Continue(Some(ev)) && ev@ == (
            NodeEventView::MessageReceived { peer_id: peer, payload: p@ }))
            &&& f.flags & 0x3F != 0x10 ==> (next matches ReaderAction::Continue(None))
        },
{
    message_types_on_the_wire();
    message_type_code_round_trip(MessageType::Message);
    marks_are_the_two_high_bits(bytes@[3], false, false, MessageType::Message);
}

} // verus!
