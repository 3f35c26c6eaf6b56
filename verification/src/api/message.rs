//! Plain messages.

use std::sync::Arc;
use std::time::Instant;

use vstd::prelude::*;

use crate::mesh::node::io::{
    heard_from, known, payload_in, raw_received, raw_sent, recv_fault, recv_key, recv_reports,
    sending_key, sent_payload_is_received,
};
use crate::mesh::node::{Node, NodeView};
use crate::mesh::payload::{packed, payload_is_compressed_then_encrypted};
use crate::mesh::peer::Peer;
use crate::protocol::errors::{MlinkError, Result};
use crate::protocol::frame::frame_round_trip;
use crate::protocol::types::{
    decode_flags, flags_parts, flags_round_trip, flags_value, Frame, MessageType,
};

verus! {

/// Makes the frame of a message to a peer.
pub fn send_message<C: ?Sized>(node: &mut Node<C>, peer_id: &str, data: &[u8]) -> (r: Result<
    (Arc<C>, Vec<u8>),
>)
    requires
        old(node).wf(),
    ensures
        final(node).wf(),
        raw_sent(old(node)@, final(node)@, peer_id@, MessageType::Message, data@, r),
{
    node.send_raw(peer_id, MessageType::Message, data)
}

/// Makes the frame of a message to the `i`-th of the peers to whom it is broadcast. `None`: all
/// have it. The first one that cannot be reached ends the broadcast.
pub fn broadcast_message<C: ?Sized>(
    node: &mut Node<C>,
    peers: &Vec<Peer>,
    i: usize,
    data: &[u8],
) -> (r: Option<Result<(Arc<C>, Vec<u8>)>>)
    requires
        old(node).wf(),
    ensures
        final(node).wf(),
        if i < peers@.len() {
            r matches Some(sent) && raw_sent(
                old(node)@,
                final(node)@,
                peers@[i as int].id@,
                MessageType::Message,
                data@,
                sent,
            )
        } else {
            r is None && final(node)@ == old(node)@
        },
{
    if i < peers.len() {
        Some(node.send_raw(peers[i].id.as_str(), MessageType::Message, data))
    } else {
        None
    }
}

/// Takes in bytes from a peer. `None`: they hold no message, and the next ones are to be read.
pub fn recv_message<C: ?Sized>(node: &mut Node<C>, peer_id: &str, bytes: &[u8]) -> (r: Result<
    Option<Vec<u8>>,
>)
    requires
        old(node).wf(),
    ensures
        final(node).wf(),
        match recv_fault(bytes@, known(old(node)@, peer_id@), true) {
            Some(fault) => r matches Err(e) && recv_reports(e, fault, peer_id@) && final(node)@
                == old(node)@,
            None => if flags_parts(bytes@[3]).2 is Message {
                r matches Ok(Some(p)) && payload_in(
                    bytes@,
                    recv_key(known(old(node)@, peer_id@), true),
                ) == Some(p@) && final(node)@ == old(node)@
            } else {
                &&& r matches Ok(None)
                &&& if flags_parts(bytes@[3]).2 is Heartbeat {
                    exists|at: Instant|
                        final(node)@ == #[trigger] heard_from(old(node)@, peer_id@, at)
                } else {
                    final(node)@ == old(node)@
                }
            },
        },
        exists|at: Instant| #[trigger]
            message_taken(old(node)@, final(node)@, peer_id@, bytes@, at, r),
{
    let ghost before = node@;
    let received = node.recv_raw(peer_id, bytes);
    let ghost at = choose|at: Instant| #[trigger]
        raw_received(before, node@, peer_id@, bytes@, true, at, received);
    let ghost shown = received;
    let r = match received {
        Err(e) => Err(e),
        Ok((frame, payload)) => {
            let (_, _, msg_type) = decode_flags(frame.flags);
            if msg_type == MessageType::Message {
                Ok(Some(payload))
            } else {
                Ok(None)
            }
        },
    };
    proof {
        assert(raw_received(before, node@, peer_id@, bytes@, true, at, shown));
        assert(message_taken(before, node@, peer_id@, bytes@, at, r));
    }
    r
}

/// Whether `after` and `r` are what bytes from a peer come to for whoever waits for a message.
pub open spec fn message_taken<C: ?Sized>(
    before: NodeView<C>,
    after: NodeView<C>,
    peer: Seq<char>,
    bytes: Seq<u8>,
    at: Instant,
    r: Result<Option<Vec<u8>>>,
) -> bool {
    exists|received: Result<(Frame, Vec<u8>)>|
        #[trigger] raw_received(before, after, peer, bytes, true, at, received) && match received {
            Err(e) => r == Err::<Option<Vec<u8>>, MlinkError>(e),
            Ok((frame, payload)) => r == Ok::<Option<Vec<u8>>, MlinkError>(
                if flags_parts(frame.flags).2 is Message {
                    Some(payload)
                } else {
                    None
                },
            ),
        }
}

/// A message that one node sends is what the other one, which holds the same key, takes in.
pub proof fn sent_message_is_taken<C: ?Sized, D: ?Sized>(
    sender: NodeView<C>,
    sent: NodeView<C>,
    to: Seq<char>,
    payload: Seq<u8>,
    conn: Arc<C>,
    bytes: Vec<u8>,
    receiver: NodeView<D>,
    after: NodeView<D>,
    from: Seq<char>,
    at: Instant,
    r: Result<Option<Vec<u8>>>,
)
    requires
        raw_sent(sender, sent, to, MessageType::Message, payload, Ok((conn, bytes))),
        payload_in(bytes@, sending_key(sender, to)) == Some(payload),
        receiver.states.dom().contains(from),
        sender.config.encrypt && sender.states[to].key is Some ==> receiver.states[from].key
            == sender.states[to].key,
        message_taken(receiver, after, from, bytes@, at, r),
    ensures
        r matches Ok(Some(p)) && p@ == payload,
        after == receiver,
{
    let received = choose|received: Result<(Frame, Vec<u8>)>|
        #[trigger] raw_received(receiver, after, from, bytes@, true, at, received)
            && match received {
            Err(e) => r == Err::<Option<Vec<u8>>, MlinkError>(e),
            Ok((frame, payload)) => r == Ok::<Option<Vec<u8>>, MlinkError>(
                if flags_parts(frame.flags).2 is Message {
                    Some(payload)
                } else {
                    None
                },
            ),
        };
    let seq = sender.states[to].seq;
    let key = sending_key(sender, to);
    let (body, compressed, encrypted) = packed(payload, true, key, seq)->Ok_0;
    payload_is_compressed_then_encrypted(payload, true, key, seq, body, compressed, encrypted);
    flags_round_trip(compressed, encrypted, MessageType::Message);
    let flags = flags_value(compressed, encrypted, MessageType::Message) as u8;
    frame_round_trip(flags, seq, body, Seq::empty());
    assert(bytes@ + Seq::empty() =~= bytes@);
    sent_payload_is_received(sender, to, bytes@, payload, receiver, after, from, at, received);
}

} // verus!
