//! Streams: data that goes to a peer in chunks, with a checksum at the end.

use std::sync::Arc;

use vstd::prelude::*;

use crate::mesh::connection::{role_of, roles_are_opposite, Role};
use crate::mesh::node::io::raw_sent;
use crate::mesh::node::Node;
use crate::protocol::errors::{MlinkError, Result};
use crate::protocol::types::{MessageType, StreamInfo};

verus! {

pub const DEFAULT_CHUNK_SIZE: usize = 256;

pub const DEFAULT_CHECKSUM_ALGO: &'static str = "xor8";

/// The ids of new streams. Central nodes use the even ones and peripheral nodes the odd ones, so
/// that the two ends of a connection never pick the same.
pub struct StreamIds {
    central: u16,
    peripheral: u16,
}

impl StreamIds {
    /// The next id of a central node.
    pub closed spec fn next_central(&self) -> u16 {
        self.central
    }

    /// The next id of a peripheral node.
    pub closed spec fn next_peripheral(&self) -> u16 {
        self.peripheral
    }

    /// Central ids are even, peripheral ids are odd.
    pub closed spec fn wf(&self) -> bool {
        self.central % 2 == 0 && self.peripheral % 2 == 1
    }

    pub fn new() -> (ids: Self)
        ensures
            ids.wf(),
            ids.next_central() == 0,
            ids.next_peripheral() == 1,
    {
        StreamIds { central: 0, peripheral: 1 }
    }
}

impl Default for StreamIds {
    fn default() -> (ids: Self)
        ensures
            ids.wf(),
            ids.next_central() == 0,
            ids.next_peripheral() == 1,
    {
        Self::new()
    }
}

/// The id two after `id`; the ids wrap at 2^16.
pub open spec fn id_two_after(id: u16) -> u16 {
    if id >= 0xFFFE {
        (id - 0xFFFE) as u16
    } else {
        (id + 2) as u16
    }
}

pub fn next_stream_id_central(ids: &mut StreamIds) -> (id: u16)
    requires
        old(ids).wf(),
    ensures
        final(ids).wf(),
        id == old(ids).next_central(),
        id % 2 == 0,
        final(ids).next_central() == id_two_after(id),
        final(ids).next_peripheral() == old(ids).next_peripheral(),
{
    let id: u16 = ids.central;
    ids.central = ids.central.wrapping_add(2);
    id
}

pub fn next_stream_id_peripheral(ids: &mut StreamIds) -> (id: u16)
    requires
        old(ids).wf(),
    ensures
        final(ids).wf(),
        id == old(ids).next_peripheral(),
        id % 2 == 1,
        final(ids).next_peripheral() == id_two_after(id),
        final(ids).next_central() == old(ids).next_central(),
{
    let id: u16 = ids.peripheral;
    ids.peripheral = ids.peripheral.wrapping_add(2);
    id
}

/// All bytes, combined by exclusive or.
pub open spec fn xor8(data: Seq<u8>) -> u8
    decreases data.len(),
{
    if data.len() == 0 {
        0
    } else {
        xor8(data.drop_last()) ^ data.last()
    }
}

pub fn xor8_checksum(data: &[u8]) -> (c: u8)
    ensures
        c == xor8(data@),
{
    let mut c: u8 = 0;
    let mut i: usize = 0;
    while i < data.len()
        invariant
            i <= data@.len(),
            c == xor8(data@.take(i as int)),
        decreases data@.len() - i,
    {
        assert(data@.take(i + 1).drop_last() =~= data@.take(i as int));
        c = c ^ data[i];
        i = i + 1;
    }
    assert(data@.take(i as int) =~= data@);
    c
}

/// The checksum of two parts together is that of the one combined with that of the other.
pub proof fn checksum_of_parts(a: Seq<u8>, b: Seq<u8>)
    ensures
        xor8(a + b) == xor8(a) ^ xor8(b),
    decreases b.len(),
{
    if b.len() == 0 {
        assert(a + b =~= a);
        let x = xor8(a);
        assert(x ^ 0 == x) by (bit_vector);
    } else {
        checksum_of_parts(a, b.drop_last());
        assert((a + b).drop_last() =~= a + b.drop_last());
        let (x, y, z) = (xor8(a), xor8(b.drop_last()), b.last());
        assert((x ^ y) ^ z == x ^ (y ^ z)) by (bit_vector);
    }
}

/// The checksum of no bytes is 0, and that of one byte is the byte.
pub proof fn checksum_of_one_byte(b: u8)
    ensures
        xor8(Seq::empty()) == 0,
        xor8(seq![b]) == b,
{
    reveal_with_fuel(xor8, 2);
    assert(seq![b].drop_last() =~= Seq::empty());
    assert(0u8 ^ b == b) by (bit_vector);
}

/// The ids of one end are two apart, and start again after the last one.
pub proof fn ids_of_one_end_are_two_apart(id: u16)
    ensures
        id_two_after(id) == (id + 2) % 0x1_0000,
{
}

/// How many chunks `len` bytes make.
pub open spec fn chunk_count(len: nat, size: nat) -> nat {
    if len == 0 {
        0
    } else {
        (len - 1) as nat / size + 1
    }
}

/// The chunk that follows the first `sent` bytes.
pub open spec fn chunk_after(data: Seq<u8>, sent: int, size: nat) -> Seq<u8> {
    data.subrange(
        sent,
        if sent + size <= data.len() {
            sent + size
        } else {
            data.len() as int
        },
    )
}

/// The chunks of `data`, in order.
pub open spec fn chunks_of(data: Seq<u8>, size: nat) -> Seq<Seq<u8>>
    decreases data.len(),
    when size > 0
{
    if data.len() == 0 {
        Seq::empty()
    } else {
        let first = chunk_after(data, 0, size);
        seq![first] + chunks_of(data.skip(first.len() as int), size)
    }
}

/// All chunks, one after the other.
pub open spec fn joined_chunks(chunks: Seq<Seq<u8>>) -> Seq<u8>
    decreases chunks.len(),
{
    if chunks.len() == 0 {
        Seq::empty()
    } else {
        chunks[0] + joined_chunks(chunks.drop_first())
    }
}

/// The checksums of all chunks, combined.
pub open spec fn combined_checksum(chunks: Seq<Seq<u8>>) -> u8
    decreases chunks.len(),
{
    if chunks.len() == 0 {
        0
    } else {
        xor8(chunks[0]) ^ combined_checksum(chunks.drop_first())
    }
}

/// The chunks of some data, put together again, are the data; there are as many of them as the
/// announcement says; none is empty or too long; and their checksums add up to that of the data.
pub proof fn chunks_make_up_the_data(data: Seq<u8>, size: nat)
    requires
        size > 0,
    ensures
        joined_chunks(chunks_of(data, size)) == data,
        chunks_of(data, size).len() == chunk_count(data.len(), size),
        forall|i: int|
            0 <= i < chunks_of(data, size).len() ==> 0 < (#[trigger] chunks_of(data, size)[i]).len()
                <= size,
        combined_checksum(chunks_of(data, size)) == xor8(data),
    decreases data.len(),
{
    if data.len() > 0 {
        let first = chunk_after(data, 0, size);
        let rest = data.skip(first.len() as int);
        chunks_make_up_the_data(rest, size);
        let chunks = chunks_of(data, size);
        assert(chunks.drop_first() =~= chunks_of(rest, size));
        assert(first + rest =~= data);
        checksum_of_parts(first, rest);
        assert(chunks.len() == chunk_count(data.len(), size)) by {
            if data.len() <= size {
                vstd::arithmetic::div_mod::lemma_basic_div((data.len() - 1) as int, size as int);
            } else {
                let n = (data.len() - 1) as int;
                vstd::arithmetic::div_mod::lemma_div_plus_one(n - size, size as int);
                assert(size as int * 1 + (n - size) == n);
            }
        }
        assert forall|i: int| 0 <= i < chunks.len() implies 0 < (#[trigger] chunks[i]).len()
            <= size by {
            if i > 0 {
                assert(chunks[i] == chunks_of(rest, size)[i - 1]);
            }
        }
    }
}

/// The chunk that a writer makes when the first `sent` bytes are out is the first chunk of the
/// rest.
pub proof fn next_chunk_is_first_of_the_rest(data: Seq<u8>, sent: int, size: nat)
    requires
        size > 0,
        0 <= sent < data.len(),
    ensures
        chunks_of(data.skip(sent), size).len() > 0,
        chunk_after(data, sent, size) == chunks_of(data.skip(sent), size)[0],
{
    assert(chunk_after(data, sent, size) =~= chunk_after(data.skip(sent), 0, size));
}

/// A chunk, as it travels.
#[derive(Debug, Clone, PartialEq, Eq)]
pub struct StreamChunkMsg {
    pub stream_id: u16,
    pub chunk_index: u32,
    pub data: Vec<u8>,
}

/// The end of a stream, as it travels.
#[derive(Debug, Clone, PartialEq, Eq)]
pub struct StreamEndMsg {
    pub stream_id: u16,
    pub checksum: u8,
}

/// The sending end of a stream.
pub struct StreamWriter {
    peer_id: String,
    stream_id: u16,
    chunk_size: usize,
    chunk_index: u32,
    total_chunks: u32,
    checksum: u8,
    finished: bool,
}

/// What the sending end of a stream is.
pub struct WriterView {
    pub peer_id: Seq<char>,
    pub stream_id: u16,
    pub chunk_size: nat,
    /// The index of the next chunk.
    pub chunk_index: u32,
    pub total_chunks: u32,
    /// The checksum of what was written so far.
    pub checksum: u8,
    pub finished: bool,
}

/// The index after `i`; it stays at the largest.
pub open spec fn index_after(i: u32) -> u32 {
    if i < u32::MAX {
        (i + 1) as u32
    } else {
        u32::MAX
    }
}

/// Whether `after` and `r` are what making the chunk behind the first `sent` bytes of `data`
/// comes to.
pub open spec fn chunk_written(
    before: WriterView,
    after: WriterView,
    data: Seq<u8>,
    sent: int,
    r: Result<Option<StreamChunkMsg>>,
) -> bool {
    if before.finished {
        &&& after == before
        &&& r matches Err(MlinkError::HandlerError(m)) && m@ == "stream already finished"@
    } else if sent == data.len() {
        after == before && r matches Ok(None)
    } else {
        let chunk = chunk_after(data, sent, before.chunk_size);
        &&& after == (WriterView { checksum: before.checksum ^ xor8(chunk), ..before })
        &&& r matches Ok(Some(msg)) && msg.stream_id == before.stream_id && msg.chunk_index
            == before.chunk_index && msg.data@ == chunk
    }
}

/// Whether `after` is what follows once the chunk was sent.
pub open spec fn chunk_counted(before: WriterView, after: WriterView) -> bool {
    after == (WriterView { chunk_index: index_after(before.chunk_index), ..before })
}

/// Whether `after` and `r` are what ending a stream comes to.
pub open spec fn stream_finished(
    before: WriterView,
    after: WriterView,
    r: Option<StreamEndMsg>,
) -> bool {
    &&& after == (WriterView { finished: true, ..before })
    &&& r == if before.finished {
        None
    } else {
        Some(StreamEndMsg { stream_id: before.stream_id, checksum: before.checksum })
    }
}

impl StreamWriter {
    pub closed spec fn view(&self) -> WriterView {
        WriterView {
            peer_id: self.peer_id@,
            stream_id: self.stream_id,
            chunk_size: self.chunk_size as nat,
            chunk_index: self.chunk_index,
            total_chunks: self.total_chunks,
            checksum: self.checksum,
            finished: self.finished,
        }
    }

    /// A chunk holds something.
    pub closed spec fn wf(&self) -> bool {
        self.chunk_size > 0
    }

    pub fn stream_id(&self) -> (id: u16)
        ensures
            id == self@.stream_id,
    {
        self.stream_id
    }

    pub fn peer_id(&self) -> (s: &str)
        ensures
            s@ == self@.peer_id,
    {
        self.peer_id.as_str()
    }

    pub fn chunk_size(&self) -> (n: usize)
        ensures
            n == self@.chunk_size,
    {
        self.chunk_size
    }

    pub fn total_chunks(&self) -> (n: u32)
        ensures
            n == self@.total_chunks,
    {
        self.total_chunks
    }

    /// The next chunk of `data`, of which `sent` bytes are out. `None`: all of it is. The chunk
    /// counts towards the checksum as soon as it is made, and gets its index for good once it is
    /// sent.
    pub fn write(&mut self, data: &[u8], sent: usize) -> (r: Result<Option<StreamChunkMsg>>)
        requires
            old(self).wf(),
            sent <= data@.len(),
        ensures
            final(self).wf(),
            if old(self)@.finished {
                &&& final(self)@ == old(self)@
                &&& r matches Err(MlinkError::HandlerError(m)) && m@ == "stream already finished"@
            } else if sent == data@.len() {
                final(self)@ == old(self)@ && r matches Ok(None)
            } else {
                let chunk = chunk_after(data@, sent as int, old(self)@.chunk_size);
                &&& chunk.len() > 0
                &&& final(self)@ == (WriterView {
                    checksum: old(self)@.checksum ^ xor8(chunk),
                    ..old(self)@
                })
                &&& r matches Ok(Some(msg)) && msg.stream_id == old(self)@.stream_id
                    && msg.chunk_index == old(self)@.chunk_index && msg.data@ == chunk
            },
            chunk_written(old(self)@, final(self)@, data@, sent as int, r),
    {
        if self.finished {
            return Err(MlinkError::HandlerError("stream already finished".to_owned()));
        }
        if sent == data.len() {
            return Ok(None);
        }
        let left: usize = data.len() - sent;
        let end: usize = if self.chunk_size <= left {
            sent + self.chunk_size
        } else {
            data.len()
        };
        let chunk = vstd::slice::slice_subrange(data, sent, end);
        self.checksum = self.checksum ^ xor8_checksum(chunk);
        Ok(
            Some(
                StreamChunkMsg {
                    stream_id: self.stream_id,
                    chunk_index: self.chunk_index,
                    data: vstd::slice::slice_to_vec(chunk),
                },
            ),
        )
    }

    /// The chunk was sent.
    pub fn chunk_sent(&mut self)
        requires
            old(self).wf(),
        ensures
            final(self).wf(),
            chunk_counted(old(self)@, final(self)@),
            final(self)@ == (WriterView {
                chunk_index: index_after(old(self)@.chunk_index),
                ..old(self)@
            }),
            old(self)@.chunk_index < u32::MAX ==> final(self)@.chunk_index
                == old(self)@.chunk_index + 1,
    {
        self.chunk_index = self.chunk_index.saturating_add(1);
    }

    /// Ends the stream. `None`: it has ended already.
    pub fn finish(&mut self) -> (r: Option<StreamEndMsg>)
        requires
            old(self).wf(),
        ensures
            final(self).wf(),
            stream_finished(old(self)@, final(self)@, r),
            final(self)@ == (WriterView { finished: true, ..old(self)@ }),
            if old(self)@.finished {
                r is None
            } else {
                r == Some(
                    StreamEndMsg {
                        stream_id: old(self)@.stream_id,
                        checksum: old(self)@.checksum,
                    },
                )
            },
    {
        if self.finished {
            return None;
        }
        self.finished = true;
        Some(StreamEndMsg { stream_id: self.stream_id, checksum: self.checksum })
    }
}

/// Opens a stream to a peer, with chunks of the usual size.
pub fn create_stream<C: ?Sized>(
    node: &Node<C>,
    ids: &mut StreamIds,
    peer_id: &str,
    data: &[u8],
) -> (r: Result<(StreamInfo, StreamWriter)>)
    requires
        old(ids).wf(),
    ensures
        final(ids).wf(),
        stream_opened(
            role_of(node@.app_uuid, peer_id@),
            *old(ids),
            *final(ids),
            peer_id@,
            data@,
            DEFAULT_CHUNK_SIZE as nat,
            r,
        ),
        r matches Ok((info, w)) ==> w.wf() && w@.chunk_size == 256 && info.checksum_algo@ == "xor8"@,
{
    create_stream_with_chunk_size(node, ids, peer_id, data, DEFAULT_CHUNK_SIZE)
}

/// Whether `after` and `r` are what opening a stream comes to: an announcement of the data, and
/// a writer under the next id of this end.
pub open spec fn stream_opened(
    role: Role,
    before: StreamIds,
    after: StreamIds,
    peer: Seq<char>,
    data: Seq<u8>,
    chunk_size: nat,
    r: Result<(StreamInfo, StreamWriter)>,
) -> bool {
    if chunk_size == 0 {
        &&& after == before
        &&& r matches Err(MlinkError::HandlerError(m)) && m@ == "chunk_size must be > 0"@
    } else {
        let id = match role {
            Role::Central => before.next_central(),
            Role::Peripheral => before.next_peripheral(),
        };
        let total = (chunk_count(data.len(), chunk_size) % 0x1_0000_0000) as u32;
        &&& match role {
            Role::Central => after.next_central() == id_two_after(id) && after.next_peripheral()
                == before.next_peripheral(),
            Role::Peripheral => after.next_peripheral() == id_two_after(id)
                && after.next_central() == before.next_central(),
        }
        &&& r matches Ok((info, w)) && {
            &&& info.stream_id == id
            &&& info.total_chunks == total
            &&& info.total_size == data.len()
            &&& info.checksum_algo@ == DEFAULT_CHECKSUM_ALGO@
            &&& w@ == (WriterView {
                peer_id: peer,
                stream_id: id,
                chunk_size,
                chunk_index: 0,
                total_chunks: total,
                checksum: 0,
                finished: false,
            })
        }
    }
}

/// Two nodes with different ids that open streams to each other never pick the same id.
pub proof fn streams_of_two_ends_differ(
    a: Seq<char>,
    b: Seq<char>,
    ids_a: (StreamIds, StreamIds),
    ids_b: (StreamIds, StreamIds),
    data_a: Seq<u8>,
    data_b: Seq<u8>,
    sizes: (nat, nat),
    ra: Result<(StreamInfo, StreamWriter)>,
    rb: Result<(StreamInfo, StreamWriter)>,
)
    requires
        a != b,
        ids_a.0.wf(),
        ids_b.0.wf(),
        stream_opened(role_of(a, b), ids_a.0, ids_a.1, b, data_a, sizes.0, ra),
        stream_opened(role_of(b, a), ids_b.0, ids_b.1, a, data_b, sizes.1, rb),
    ensures
        ra matches Ok((info_a, _)) ==> rb matches Ok((info_b, _)) ==> info_a.stream_id
            != info_b.stream_id,
{
    roles_are_opposite(a, b);
}

/// Opens a stream to a peer. The announcement is to be sent before the first chunk.
pub fn create_stream_with_chunk_size<C: ?Sized>(
    node: &Node<C>,
    ids: &mut StreamIds,
    peer_id: &str,
    data: &[u8],
    chunk_size: usize,
) -> (r: Result<(StreamInfo, StreamWriter)>)
    requires
        old(ids).wf(),
    ensures
        final(ids).wf(),
        stream_opened(
            role_of(node@.app_uuid, peer_id@),
            *old(ids),
            *final(ids),
            peer_id@,
            data@,
            chunk_size as nat,
            r,
        ),
        r matches Ok((_, w)) ==> w.wf(),
{
    if chunk_size == 0 {
        return Err(MlinkError::HandlerError("chunk_size must be > 0".to_owned()));
    }
    let stream_id: u16 = match node.role_for(peer_id) {
        Role::Central => next_stream_id_central(ids),
        Role::Peripheral => next_stream_id_peripheral(ids),
    };
    let total_chunks: u32 = if data.len() == 0 {
        0
    } else {
        proof {
            vstd::arithmetic::div_mod::lemma_div_is_ordered_by_denominator(
                (data@.len() - 1) as int,
                1,
                chunk_size as int,
            );
        }
        let whole: u64 = ((data.len() - 1) / chunk_size) as u64 + 1;
        (whole % 0x1_0000_0000) as u32
    };
    let info = StreamInfo {
        stream_id,
        total_chunks,
        total_size: data.len() as u64,
        checksum_algo: DEFAULT_CHECKSUM_ALGO.to_owned(),
    };
    let w = StreamWriter {
        peer_id: peer_id.to_owned(),
        stream_id,
        chunk_size,
        chunk_index: 0,
        total_chunks,
        checksum: 0,
        finished: false,
    };
    Ok((info, w))
}

/// Makes the frame that announces a stream. `payload` is the encoded announcement.
pub fn send_stream_start<C: ?Sized>(node: &mut Node<C>, peer_id: &str, payload: &[u8]) -> (r: Result<
    (Arc<C>, Vec<u8>),
>)
    requires
        old(node).wf(),
    ensures
        final(node).wf(),
        raw_sent(old(node)@, final(node)@, peer_id@, MessageType::StreamStart, payload@, r),
{
    node.send_raw(peer_id, MessageType::StreamStart, payload)
}

/// Makes the frame of a chunk. `payload` is the encoded chunk.
pub fn send_stream_chunk<C: ?Sized>(node: &mut Node<C>, peer_id: &str, payload: &[u8]) -> (r: Result<
    (Arc<C>, Vec<u8>),
>)
    requires
        old(node).wf(),
    ensures
        final(node).wf(),
        raw_sent(old(node)@, final(node)@, peer_id@, MessageType::StreamChunk, payload@, r),
{
    node.send_raw(peer_id, MessageType::StreamChunk, payload)
}

/// Makes the frame of the end of a stream. `payload` is the encoded end.
pub fn send_stream_end<C: ?Sized>(node: &mut Node<C>, peer_id: &str, payload: &[u8]) -> (r: Result<
    (Arc<C>, Vec<u8>),
>)
    requires
        old(node).wf(),
    ensures
        final(node).wf(),
        raw_sent(old(node)@, final(node)@, peer_id@, MessageType::StreamEnd, payload@, r),
{
    node.send_raw(peer_id, MessageType::StreamEnd, payload)
}

/// How far a stream has come.
#[derive(Debug, Clone, Copy, PartialEq, Eq, Structural)]
pub struct Progress {
    pub received: u32,
    pub total: u32,
}

/// The receiving end of a stream.
pub struct StreamReader {
    peer_id: String,
    stream_id: u16,
    total_chunks: u32,
    received: u32,
    done: bool,
}

/// What the receiving end of a stream is.
pub struct ReaderView {
    pub peer_id: Seq<char>,
    pub stream_id: u16,
    pub total_chunks: u32,
    pub received: u32,
    pub done: bool,
}

/// What came from the peer.
pub enum StreamEvent {
    /// Nothing: the connection has failed.
    Failed,
    /// A chunk; `None` where it could not be decoded.
    Chunk(Option<StreamChunkMsg>),
    /// The end of a stream; `None` where it could not be decoded.
    End(Option<StreamEndMsg>),
    /// Something else.
    Other,
}

/// What a frame of type `t` is to a stream, where `chunk` and `end` are what its payload decodes
/// to as either.
pub fn stream_event(
    t: MessageType,
    chunk: Option<StreamChunkMsg>,
    end: Option<StreamEndMsg>,
) -> (e: StreamEvent)
    ensures
        t is StreamChunk ==> e == StreamEvent::Chunk(chunk),
        t is StreamEnd ==> e == StreamEvent::End(end),
        !(t is StreamChunk) && !(t is StreamEnd) ==> e is Other,
{
    match t {
        MessageType::StreamChunk => StreamEvent::Chunk(chunk),
        MessageType::StreamEnd => StreamEvent::End(end),
        _ => StreamEvent::Other,
    }
}

/// What the reader makes of it.
pub enum StreamStep {
    /// A chunk of this stream.
    Item(Vec<u8>, Progress),
    /// The stream is over.
    Over,
    /// Not of this stream; read on.
    Continue,
}

/// Whether `after` and `step` are what follows `event`. Chunks of this stream are counted and
/// handed on; its end, or a failure, ends it for good; anything else is passed over.
pub open spec fn stream_stepped(
    before: ReaderView,
    after: ReaderView,
    event: StreamEvent,
    step: StreamStep,
) -> bool {
    let over = after == (ReaderView { done: true, ..before }) && step is Over;
    let skipped = after == before && step is Continue;
    if before.done {
        after == before && step is Over
    } else {
        match event {
            StreamEvent::Failed => over,
            StreamEvent::Chunk(Some(msg)) => if msg.stream_id == before.stream_id {
                let received = index_after(before.received);
                &&& after == (ReaderView { received, ..before })
                &&& step matches StreamStep::Item(d, p) && d@ == msg.data@ && p == (Progress {
                    received,
                    total: before.total_chunks,
                })
            } else {
                skipped
            },
            StreamEvent::End(Some(msg)) => if msg.stream_id == before.stream_id {
                over
            } else {
                skipped
            },
            _ => skipped,
        }
    }
}

/// A stream opens with an announcement that tells how much will come: so many chunks of the given
/// size that they hold the data and one fewer would not. Its id is the next of this end and is not
/// used again before all others are; the first chunk has index 0.
pub proof fn announcement_tells_what_will_come(
    role: Role,
    before: StreamIds,
    after: StreamIds,
    peer: Seq<char>,
    data: Seq<u8>,
    size: nat,
    info: StreamInfo,
    w: StreamWriter,
)
    requires
        stream_opened(role, before, after, peer, data, size, Ok((info, w))),
        data.len() <= size * 0xFFFF_FFFF,
    ensures
        size > 0,
        info.total_size == data.len(),
        info.checksum_algo@ == "xor8"@,
        data.len() <= info.total_chunks * size,
        info.total_chunks == 0 || (info.total_chunks - 1) * size < data.len(),
        role is Central ==> info.stream_id == before.next_central() && after.next_central() == (
        info.stream_id + 2) % 0x1_0000 && after.next_peripheral() == before.next_peripheral(),
        role is Peripheral ==> info.stream_id == before.next_peripheral()
            && after.next_peripheral() == (info.stream_id + 2) % 0x1_0000 && after.next_central()
            == before.next_central(),
        w@ == (WriterView {
            peer_id: peer,
            stream_id: info.stream_id,
            chunk_size: size,
            chunk_index: 0,
            total_chunks: info.total_chunks,
            checksum: 0,
            finished: false,
        }),
{
    if data.len() > 0 {
        let n = (data.len() - 1) as int;
        let q = n / size as int;
        vstd::arithmetic::div_mod::lemma_fundamental_div_mod(n, size as int);
        assert(size * q <= n < size * q + size);
        assert(q < 0xFFFF_FFFF) by (nonlinear_arith)
            requires
                size * q <= n < size * 0xFFFF_FFFF,
                size > 0,
        ;
        assert((q + 1) * size == size * q + size && q * size == size * q) by (nonlinear_arith);
        vstd::arithmetic::div_mod::lemma_div_pos_is_pos(n, size as int);
        assert(info.total_chunks == q + 1);
    }
}

/// A stream opens for every size of chunk but none at all, which is refused and uses up no id.
pub proof fn chunks_hold_something(
    role: Role,
    before: StreamIds,
    after: StreamIds,
    peer: Seq<char>,
    data: Seq<u8>,
    size: nat,
    r: Result<(StreamInfo, StreamWriter)>,
)
    requires
        stream_opened(role, before, after, peer, data, size, r),
    ensures
        size == 0 <==> r is Err,
        size == 0 ==> after == before && (r matches Err(MlinkError::HandlerError(m)) && m@
            == "chunk_size must be > 0"@),
{
}

/// Data that is written to a stream chunk by chunk arrives as it was: as many chunks as were
/// announced, with the indices 0, 1, 2 and so on, none of them empty, each full but the last, and
/// together all of the data, in order. The reader hands on each chunk as it is, and tells after
/// the first that one of them has come, after the second two, up to all of them. The checksum at
/// the end is that of the data.
pub proof fn whole_stream_arrives(
    role: Role,
    ids: (StreamIds, StreamIds),
    peers: (Seq<char>, Seq<char>),
    data: Seq<u8>,
    size: nat,
    info: StreamInfo,
    w: StreamWriter,
    writers: Seq<WriterView>,
    made: Seq<WriterView>,
    msgs: Seq<StreamChunkMsg>,
    sent: Seq<int>,
    readers: Seq<ReaderView>,
    steps: Seq<StreamStep>,
)
    requires
        stream_opened(role, ids.0, ids.1, peers.0, data, size, Ok((info, w))),
        data.len() <= size * 0xFFFF_FFFF,
        writers.len() == msgs.len() + 1,
        made.len() == msgs.len(),
        sent.len() == msgs.len() + 1,
        readers.len() == msgs.len() + 1,
        steps.len() == msgs.len(),
        writers[0] == w@,
        sent[0] == 0,
        forall|k: int|
            0 <= k < msgs.len() ==> chunk_written(
                writers[k],
                made[k],
                data,
                sent[k],
                Ok(Some(#[trigger] msgs[k])),
            ) && chunk_counted(made[k], writers[k + 1]) && sent[k + 1] == sent[k]
                + msgs[k].data@.len(),
        chunk_written(writers.last(), writers.last(), data, sent.last(), Ok(None)),
        readers[0] == (ReaderView {
            peer_id: peers.1,
            stream_id: info.stream_id,
            total_chunks: info.total_chunks,
            received: 0,
            done: false,
        }),
        forall|k: int|
            0 <= k < msgs.len() ==> stream_stepped(
                readers[k],
                readers[k + 1],
                StreamEvent::Chunk(Some(#[trigger] msgs[k])),
                steps[k],
            ),
    ensures
        msgs.len() == info.total_chunks,
        sent.last() == data.len(),
        forall|k: int|
            0 <= k < msgs.len() ==> {
                &&& (#[trigger] msgs[k]).chunk_index == k
                &&& msgs[k].stream_id == info.stream_id
                &&& msgs[k].data@ == data.subrange(sent[k], sent[k + 1])
                &&& 0 < msgs[k].data@.len() <= size
                &&& k + 1 < msgs.len() ==> msgs[k].data@.len() == size
            },
        forall|k: int|
            0 <= k < msgs.len() ==> (#[trigger] steps[k] matches StreamStep::Item(d, p) && d@
                == msgs[k].data@ && p.received == k + 1 && p.total == msgs.len()),
        writers.last().checksum == xor8(data),
        !writers.last().finished,
        !readers.last().done,
{
    let n = msgs.len() as int;
    announcement_tells_what_will_come(role, ids.0, ids.1, peers.0, data, size, info, w);
    checksum_of_one_byte(0);
    assert(data.take(0) =~= Seq::empty());
    assert(0 * size == 0) by (nonlinear_arith);
    assert(on_course(data, size, info, writers[0], sent[0], readers[0], 0));
    assert forall|k: int| 0 <= k <= n implies #[trigger] on_course(
        data,
        size,
        info,
        writers[k],
        sent[k],
        readers[k],
        k,
    ) by {
        lemma_on_course(data, size, info, writers, made, msgs, sent, readers, steps, k);
    }
    assert(on_course(data, size, info, writers[n], sent[n], readers[n], n));
    assert(sent[n] == data.len());
    assert(data.take(sent[n]) =~= data);
    assert forall|k: int| 0 <= k < n implies ({
        &&& (#[trigger] msgs[k]).chunk_index == k
        &&& msgs[k].stream_id == info.stream_id
        &&& msgs[k].data@ == data.subrange(sent[k], sent[k + 1])
        &&& 0 < msgs[k].data@.len() <= size
        &&& k + 1 < n ==> msgs[k].data@.len() == size
        &&& sent[k] == k * size
        &&& k < 0xFFFF_FFFF
    }) by {
        lemma_chunk_on_course(data, size, info, writers, made, msgs, sent, readers, steps, k);
        if k + 1 < n {
            lemma_chunk_on_course(
                data,
                size,
                info,
                writers,
                made,
                msgs,
                sent,
                readers,
                steps,
                k + 1,
            );
        }
    }
    if n > 0 {
        assert(msgs[n - 1].chunk_index == n - 1);
        let t = info.total_chunks as int;
        assert((n - 1) * size < data.len() <= n * size) by (nonlinear_arith)
            requires
                sent[n - 1] == (n - 1) * size,
                sent[n] == data.len(),
                sent[n] - sent[n - 1] <= size,
                sent[n] - sent[n - 1] > 0,
        ;
        assert(t == n) by (nonlinear_arith)
            requires
                (n - 1) * size < data.len() <= n * size,
                data.len() <= t * size,
                t == 0 || (t - 1) * size < data.len(),
                n >= 1,
                t >= 0,
        ;
    } else {
        assert(data.len() == 0);
        let t = info.total_chunks as int;
        assert(t == 0) by (nonlinear_arith)
            requires
                t == 0 || (t - 1) * size < 0,
                t >= 0,
        ;
    }
    assert forall|k: int| 0 <= k < n implies (#[trigger] steps[k] matches StreamStep::Item(d, p)
        && d@ == msgs[k].data@ && p.received == k + 1 && p.total == n) by {
        assert(msgs[k].chunk_index == k);
        assert(on_course(data, size, info, writers[k], sent[k], readers[k], k));
    }
}

/// Where both ends stand when `k` chunks are out.
spec fn on_course(
    data: Seq<u8>,
    size: nat,
    info: StreamInfo,
    w: WriterView,
    sent: int,
    r: ReaderView,
    k: int,
) -> bool {
    &&& w.stream_id == info.stream_id
    &&& w.chunk_size == size
    &&& w.chunk_index == k
    &&& !w.finished
    &&& sent == if k * size <= data.len() {
        k * size
    } else {
        data.len() as int
    }
    &&& w.checksum == xor8(data.take(sent))
    &&& r.stream_id == info.stream_id
    &&& r.total_chunks == info.total_chunks
    &&& r.received == k
    &&& !r.done
}

proof fn lemma_chunk_on_course(
    data: Seq<u8>,
    size: nat,
    info: StreamInfo,
    writers: Seq<WriterView>,
    made: Seq<WriterView>,
    msgs: Seq<StreamChunkMsg>,
    sent: Seq<int>,
    readers: Seq<ReaderView>,
    steps: Seq<StreamStep>,
    k: int,
)
    requires
        size > 0,
        data.len() <= size * 0xFFFF_FFFF,
        0 <= k < msgs.len(),
        on_course(data, size, info, writers[k], sent[k], readers[k], k),
        chunk_written(writers[k], made[k], data, sent[k], Ok(Some(msgs[k]))),
        chunk_counted(made[k], writers[k + 1]),
        sent[k + 1] == sent[k] + msgs[k].data@.len(),
        stream_stepped(
            readers[k],
            readers[k + 1],
            StreamEvent::Chunk(Some(msgs[k])),
            steps[k],
        ),
    ensures
        on_course(data, size, info, writers[k + 1], sent[k + 1], readers[k + 1], k + 1),
        msgs[k].chunk_index == k,
        msgs[k].stream_id == info.stream_id,
        msgs[k].data@ == data.subrange(sent[k], sent[k + 1]),
        0 < msgs[k].data@.len() <= size,
        sent[k] == k * size,
        sent[k] < data.len(),
        sent[k + 1] < data.len() ==> msgs[k].data@.len() == size,
        k < 0xFFFF_FFFF,
{
    let a = sent[k];
    let b = sent[k + 1];
    assert(a < data.len());
    assert(a == k * size);
    assert(k < 0xFFFF_FFFF) by (nonlinear_arith)
        requires
            k * size < size * 0xFFFF_FFFF,
            size > 0,
    ;
    assert((k + 1) * size == k * size + size) by (nonlinear_arith);
    assert(data.take(b) =~= data.take(a) + data.subrange(a, b));
    checksum_of_parts(data.take(a), data.subrange(a, b));
}

proof fn lemma_on_course(
    data: Seq<u8>,
    size: nat,
    info: StreamInfo,
    writers: Seq<WriterView>,
    made: Seq<WriterView>,
    msgs: Seq<StreamChunkMsg>,
    sent: Seq<int>,
    readers: Seq<ReaderView>,
    steps: Seq<StreamStep>,
    k: int,
)
    requires
        size > 0,
        data.len() <= size * 0xFFFF_FFFF,
        0 <= k <= msgs.len(),
        on_course(data, size, info, writers[0], sent[0], readers[0], 0),
        forall|k: int|
            0 <= k < msgs.len() ==> chunk_written(
                writers[k],
                made[k],
                data,
                sent[k],
                Ok(Some(#[trigger] msgs[k])),
            ) && chunk_counted(made[k], writers[k + 1]) && sent[k + 1] == sent[k]
                + msgs[k].data@.len(),
        forall|k: int|
            0 <= k < msgs.len() ==> stream_stepped(
                readers[k],
                readers[k + 1],
                StreamEvent::Chunk(Some(#[trigger] msgs[k])),
                steps[k],
            ),
    ensures
        on_course(data, size, info, writers[k], sent[k], readers[k], k),
    decreases k,
{
    if k > 0 {
        lemma_on_course(data, size, info, writers, made, msgs, sent, readers, steps, k - 1);
        let m = msgs[k - 1];
        lemma_chunk_on_course(data, size, info, writers, made, msgs, sent, readers, steps, k - 1);
    }
}

/// A stream ends once: with its id and the checksum of what was written, which ends it for the
/// reader too. After that there is no second end, and no chunk.
pub proof fn stream_ends_once(
    w: WriterView,
    ended: WriterView,
    after: WriterView,
    first: Option<StreamEndMsg>,
    second: Option<StreamEndMsg>,
    data: Seq<u8>,
    sent: int,
    late: Result<Option<StreamChunkMsg>>,
    reader: ReaderView,
    read: ReaderView,
    step: StreamStep,
)
    requires
        !w.finished,
        stream_finished(w, ended, first),
        stream_finished(ended, after, second),
        chunk_written(ended, ended, data, sent, late),
        first is Some ==> stream_stepped(reader, read, StreamEvent::End(first), step),
        reader.stream_id == w.stream_id,
    ensures
        first matches Some(end) && end.stream_id == w.stream_id && end.checksum == w.checksum,
        second is None,
        after == ended,
        late is Err,
        step is Over,
        read.done,
{
}

/// A writer goes on from one chunk to the next by one, as long as there are numbers, and a
/// finished one makes no chunk.
pub proof fn next_chunk_has_the_next_index(
    before: WriterView,
    made: WriterView,
    after: WriterView,
    data: Seq<u8>,
    sent: int,
    r: Result<Option<StreamChunkMsg>>,
)
    requires
        chunk_written(before, made, data, sent, r),
        chunk_counted(made, after),
        0 <= sent <= data.len(),
    ensures
        before.chunk_index < u32::MAX ==> after.chunk_index == before.chunk_index + 1,
        before.finished ==> r is Err && made == before,
        !before.finished && sent == data.len() ==> r == Ok::<Option<StreamChunkMsg>, MlinkError>(
            None,
        ) && made == before,
        !before.finished && sent < data.len() ==> (r matches Ok(Some(msg)) && msg.chunk_index
            == before.chunk_index && msg.stream_id == before.stream_id && msg.data@
            == data.subrange(sent, sent + msg.data@.len()) && (msg.data@.len() == before.chunk_size
            || (msg.data@.len() < before.chunk_size && sent + msg.data@.len() == data.len()))),
        after == (WriterView {
            chunk_index: after.chunk_index,
            checksum: after.checksum,
            ..before
        }),
{
}

/// A stream ends with its own end or with the connection, and stays so; what belongs to another
/// stream, is of another kind or cannot be decoded is passed over. A chunk of this stream is
/// handed on whole, and counted once.
pub proof fn stream_goes_on_until_its_end(
    before: ReaderView,
    after: ReaderView,
    event: StreamEvent,
    step: StreamStep,
)
    requires
        stream_stepped(before, after, event, step),
    ensures
        before.done ==> step is Over && after == before,
        step is Over <==> before.done || event is Failed || (event matches StreamEvent::End(Some(m))
            && m.stream_id == before.stream_id),
        step is Over <==> after.done,
        step is Continue ==> after == before,
        step is Item <==> !before.done && (event matches StreamEvent::Chunk(Some(m)) && m.stream_id
            == before.stream_id),
        step matches StreamStep::Item(d, p) ==> {
            &&& d@ == (event->Chunk_0)->0.data@
            &&& before.received < u32::MAX ==> p.received == before.received + 1
            &&& p.received == after.received
            &&& p.total == before.total_chunks
        },
        after == (ReaderView { received: after.received, done: after.done, ..before }),
{
}

impl StreamReader {
    pub closed spec fn view(&self) -> ReaderView {
        ReaderView {
            peer_id: self.peer_id@,
            stream_id: self.stream_id,
            total_chunks: self.total_chunks,
            received: self.received,
            done: self.done,
        }
    }

    pub fn new(peer_id: String, info: StreamInfo) -> (r: Self)
        ensures
            r@ == (ReaderView {
                peer_id: peer_id@,
                stream_id: info.stream_id,
                total_chunks: info.total_chunks,
                received: 0,
                done: false,
            }),
    {
        StreamReader {
            peer_id,
            stream_id: info.stream_id,
            total_chunks: info.total_chunks,
            received: 0,
            done: false,
        }
    }

    pub fn stream_id(&self) -> (id: u16)
        ensures
            id == self@.stream_id,
    {
        self.stream_id
    }

    pub fn total_chunks(&self) -> (n: u32)
        ensures
            n == self@.total_chunks,
    {
        self.total_chunks
    }

    pub fn peer_id(&self) -> (s: &str)
        ensures
            s@ == self@.peer_id,
    {
        self.peer_id.as_str()
    }

    /// Whether the stream is over, and nothing more is to be read for it.
    pub fn is_done(&self) -> (r: bool)
        ensures
            r == self@.done,
    {
        self.done
    }

    /// Takes in what came from the peer.
    pub fn next(&mut self, event: StreamEvent) -> (step: StreamStep)
        ensures
            stream_stepped(old(self)@, final(self)@, event, step),
    {
        if self.done {
            return StreamStep::Over;
        }
        match event {
            StreamEvent::Failed => {
                self.done = true;
                StreamStep::Over
            },
            StreamEvent::Chunk(Some(msg)) => {
                if msg.stream_id != self.stream_id {
                    return StreamStep::Continue;
                }
                self.received = self.received.saturating_add(1);
                let progress = Progress { received: self.received, total: self.total_chunks };
                StreamStep::Item(msg.data, progress)
            },
            StreamEvent::End(Some(msg)) => {
                if msg.stream_id != self.stream_id {
                    return StreamStep::Continue;
                }
                self.done = true;
                StreamStep::Over
            },
            _ => StreamStep::Continue,
        }
    }
}

} // verus!
