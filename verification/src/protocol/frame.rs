//! Frames: an eight byte header (magic, version, flags, sequence number, payload length) and
//! the payload.

use vstd::prelude::*;

use crate::protocol::errors::{MlinkError, Result};
use crate::protocol::types::{Frame, HEADER_SIZE, MAGIC, PROTOCOL_VERSION};
use crate::protocol::wire::{
    be_bytes, be_value, copy_range, lemma_be_round_trip, lemma_byte_ranges,
    most_significant_byte_comes_first, push_be, push_bytes, read_be,
};
use crate::text::{decimal, push_decimal, push_upper_hex, upper_hex};

verus! {

/// The bytes of a frame. The length field holds the payload's length modulo 2^16.
pub open spec fn frame_bytes(flags: u8, seq: u16, payload: Seq<u8>) -> Seq<u8> {
    be_bytes(MAGIC as nat, 2) + seq![PROTOCOL_VERSION, flags] + be_bytes(seq as nat, 2) + be_bytes(
        payload.len() % 0x1_0000,
        2,
    ) + payload
}

/// Why `data` is no frame, if it is none.
pub open spec fn frame_fault(data: Seq<u8>) -> Option<Seq<char>> {
    if data.len() < HEADER_SIZE {
        Some("frame too short: "@ + decimal(data.len()) + " < "@ + decimal(HEADER_SIZE as nat))
    } else if be_value(data.subrange(0, 2)) != MAGIC {
        Some("invalid magic: 0x"@ + upper_hex(be_value(data.subrange(0, 2)), 4))
    } else if data[2] != PROTOCOL_VERSION {
        Some("unsupported version: 0x"@ + upper_hex(data[2] as nat, 2))
    } else if data.len() < HEADER_SIZE + be_value(data.subrange(6, 8)) {
        Some(
            "payload truncated: have "@ + decimal(data.len()) + " bytes, need "@ + decimal(
                HEADER_SIZE as nat + be_value(data.subrange(6, 8)),
            ),
        )
    } else {
        None
    }
}

/// Whether `f` is the frame at the start of `data`.
pub open spec fn frame_at_start(data: Seq<u8>, f: Frame) -> bool {
    &&& f.magic == MAGIC
    &&& f.version == PROTOCOL_VERSION
    &&& f.flags == data[3]
    &&& f.seq == be_value(data.subrange(4, 6))
    &&& f.length == be_value(data.subrange(6, 8))
    &&& f.payload@ == data.subrange(HEADER_SIZE as int, HEADER_SIZE + f.length)
}

/// Where everything stands in a frame: `ML`, version 1, the flags, the sequence number and the
/// payload's length with the high byte first, and the payload from the ninth byte on.
pub proof fn frame_layout(flags: u8, seq: u16, payload: Seq<u8>)
    requires
        payload.len() <= 0xFFFF,
    ensures
        frame_bytes(flags, seq, payload) == seq![
            0x4Du8,
            0x4Cu8,
            1u8,
            flags,
            (seq / 256) as u8,
            (seq % 256) as u8,
            (payload.len() / 256) as u8,
            (payload.len() % 256) as u8,
        ] + payload,
{
    most_significant_byte_comes_first(0x4D4C, 0, 0, 0, 0);
    most_significant_byte_comes_first(seq as nat, 0, 0, 0, 0);
    most_significant_byte_comes_first(payload.len(), 0, 0, 0, 0);
    assert(frame_bytes(flags, seq, payload) =~= seq![
        0x4Du8,
        0x4Cu8,
        1u8,
        flags,
        (seq / 256) as u8,
        (seq % 256) as u8,
        (payload.len() / 256) as u8,
        (payload.len() % 256) as u8,
    ] + payload);
}

/// Bytes are taken for a frame exactly where a whole header and the payload that it announces are
/// there, and the header is of this protocol. Whatever follows the payload does not count, and
/// what is read is what stands in these places.
pub proof fn frames_are_recognised(data: Seq<u8>, f: Frame)
    ensures
        frame_fault(data) is None <==> data.len() >= 8 && data[0] == 0x4D && data[1] == 0x4C
            && data[2] == 1 && data.len() >= 8 + 256 * data[6] + data[7],
        frame_fault(data) is None && frame_at_start(data, f) ==> f.flags == data[3] && f.seq == 256
            * data[4] + data[5] && f.payload@ == data.subrange(8, 8 + 256 * data[6] + data[7]),
{
    if data.len() >= 8 {
        most_significant_byte_comes_first(0, data[0], data[1], 0, 0);
        most_significant_byte_comes_first(0, data[4], data[5], 0, 0);
        most_significant_byte_comes_first(0, data[6], data[7], 0, 0);
        assert(data.subrange(0, 2) =~= seq![data[0], data[1]]);
        assert(data.subrange(4, 6) =~= seq![data[4], data[5]]);
        assert(data.subrange(6, 8) =~= seq![data[6], data[7]]);
    }
}

/// What is said of bytes that are no frame, in the order in which it is looked for.
pub proof fn faults_of_a_frame(data: Seq<u8>)
    ensures
        data.len() < 8 ==> frame_fault(data) == Some(
            "frame too short: "@ + decimal(data.len()) + " < "@ + decimal(8),
        ),
        data.len() >= 8 && (data[0] != 0x4D || data[1] != 0x4C) ==> frame_fault(data) == Some(
            "invalid magic: 0x"@ + upper_hex((256 * data[0] + data[1]) as nat, 4),
        ),
        data.len() >= 8 && data[0] == 0x4D && data[1] == 0x4C && data[2] != 1 ==> frame_fault(data)
            == Some("unsupported version: 0x"@ + upper_hex(data[2] as nat, 2)),
        data.len() >= 8 && data[0] == 0x4D && data[1] == 0x4C && data[2] == 1 && data.len() < 8
            + 256 * data[6] + data[7] ==> frame_fault(data) == Some(
            "payload truncated: have "@ + decimal(data.len()) + " bytes, need "@ + decimal(
                (8 + 256 * data[6] + data[7]) as nat,
            ),
        ),
{
    if data.len() >= 8 {
        most_significant_byte_comes_first(0, data[0], data[1], 0, 0);
        most_significant_byte_comes_first(0, data[6], data[7], 0, 0);
        assert(data.subrange(0, 2) =~= seq![data[0], data[1]]);
        assert(data.subrange(6, 8) =~= seq![data[6], data[7]]);
    }
}

/// Writes a frame. Magic and version are always this protocol's, and the length is always the
/// payload's.
pub fn encode_frame(frame: &Frame) -> (bytes: Vec<u8>)
    ensures
        bytes@ == frame_bytes(frame.flags, frame.seq, frame.payload@),
{
    let mut buf: Vec<u8> = Vec::new();
    push_be(&mut buf, MAGIC as u128, 2);
    buf.push(PROTOCOL_VERSION);
    buf.push(frame.flags);
    push_be(&mut buf, frame.seq as u128, 2);
    push_be(&mut buf, (frame.payload.len() % 0x1_0000) as u128, 2);
    push_bytes(&mut buf, frame.payload.as_slice());
    proof {
        assert(buf@ =~= frame_bytes(frame.flags, frame.seq, frame.payload@));
    }
    buf
}

/// Reads the frame at the start of `data`; bytes after it are ignored.
pub fn decode_frame(data: &[u8]) -> (r: Result<Frame>)
    ensures
        match r {
            Ok(f) => frame_fault(data@) is None && frame_at_start(data@, f),
            Err(e) => e matches MlinkError::CodecError(m) && frame_fault(data@) == Some(m@),
        },
{
    if data.len() < HEADER_SIZE {
        let mut m = "frame too short: ".to_owned();
        push_decimal(&mut m, data.len() as u64);
        m.append(" < ");
        push_decimal(&mut m, HEADER_SIZE as u64);
        return Err(MlinkError::CodecError(m));
    }
    proof {
        lemma_byte_ranges();
    }
    let magic: u16 = read_be(data, 0, 2) as u16;
    if magic != MAGIC {
        let mut m = "invalid magic: 0x".to_owned();
        push_upper_hex(&mut m, magic as u32, 4);
        return Err(MlinkError::CodecError(m));
    }
    let version: u8 = data[2];
    if version != PROTOCOL_VERSION {
        let mut m = "unsupported version: 0x".to_owned();
        push_upper_hex(&mut m, version as u32, 2);
        return Err(MlinkError::CodecError(m));
    }
    let flags: u8 = data[3];
    let seq: u16 = read_be(data, 4, 2) as u16;
    let length: u16 = read_be(data, 6, 2) as u16;
    let payload_end: usize = HEADER_SIZE + length as usize;
    if data.len() < payload_end {
        let mut m = "payload truncated: have ".to_owned();
        push_decimal(&mut m, data.len() as u64);
        m.append(" bytes, need ");
        push_decimal(&mut m, payload_end as u64);
        return Err(MlinkError::CodecError(m));
    }
    let payload = copy_range(data, HEADER_SIZE, payload_end);
    Ok(Frame { magic, version, flags, seq, length, payload })
}

/// A frame is read back as it was written, whatever bytes follow it, as long as its payload's
/// length fits in the header's length field.
pub proof fn frame_round_trip(flags: u8, seq: u16, payload: Seq<u8>, tail: Seq<u8>)
    requires
        payload.len() < 0x1_0000,
    ensures
        ({
            let data = frame_bytes(flags, seq, payload) + tail;
            &&& frame_fault(data) is None
            &&& data[3] == flags
            &&& be_value(data.subrange(4, 6)) == seq
            &&& be_value(data.subrange(6, 8)) == payload.len()
            &&& data.subrange(HEADER_SIZE as int, HEADER_SIZE + payload.len()) == payload
        }),
{
    let data = frame_bytes(flags, seq, payload) + tail;
    lemma_byte_ranges();
    lemma_be_round_trip(MAGIC as nat, 2);
    lemma_be_round_trip(seq as nat, 2);
    lemma_be_round_trip(payload.len(), 2);
    assert(data.subrange(0, 2) =~= be_bytes(MAGIC as nat, 2));
    assert(data.subrange(4, 6) =~= be_bytes(seq as nat, 2));
    assert(data.subrange(6, 8) =~= be_bytes(payload.len(), 2));
    assert(data.subrange(HEADER_SIZE as int, HEADER_SIZE + payload.len()) =~= payload);
}

} // verus!
