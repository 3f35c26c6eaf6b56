use mlink_core::protocol::ack::{
    decode_ack, encode_ack, AckFrame, UnackedRing, ACK_FRAME_BYTES, UNACKED_RING_CAP,
};
use mlink_core::protocol::compress::{
    compress, decompress, should_compress, StreamCompressor, StreamDecompressor,
    COMPRESS_THRESHOLD,
};
use mlink_core::protocol::errors::{MlinkError, Result};
use mlink_core::protocol::frame::{decode_frame, encode_frame};
use mlink_core::protocol::seq::{DedupWindow, Observation, SeqGen};
use mlink_core::protocol::types::{
    decode_flags, encode_flags, ErrorCode, Frame, MessageType, Priority, HEADER_SIZE, MAGIC,
    PROTOCOL_VERSION,
};

fn sample_frame(payload: Vec<u8>) -> Frame {
    Frame {
        magic: MAGIC,
        version: PROTOCOL_VERSION,
        flags: encode_flags(true, false, MessageType::Message),
        seq: 0x1234,
        length: payload.len() as u16,
        payload,
    }
}

fn make_frame(flags: u8, seq: u16, payload: Vec<u8>) -> Frame {
    let length = payload.len() as u16;
    Frame {
        magic: MAGIC,
        version: PROTOCOL_VERSION,
        flags,
        seq,
        length,
        payload,
    }
}

#[test]
fn encode_decode_roundtrip() {
    let a = AckFrame {
        ack: 0xDEAD_BEEF,
        bitmap: (1u128 << 127) | (1u128 << 0) | 0x1234_5678_9ABC_DEF0,
    };
    let buf = encode_ack(&a);
    assert_eq!(buf.len(), ACK_FRAME_BYTES);
    let decoded = decode_ack(&buf).unwrap();
    assert_eq!(decoded, a);
}

#[test]
fn decode_rejects_short_buffer() {
    let short = [0u8; ACK_FRAME_BYTES - 1];
    let err = decode_ack(&short).unwrap_err();
    assert!(matches!(err, MlinkError::CodecError(_)));
}

#[test]
fn push_until_full_evicts_oldest() {
    let mut r: UnackedRing<u32> = UnackedRing::new();
    for i in 0..UNACKED_RING_CAP as u32 {
        assert!(r.push(i, i).is_none());
    }
    assert!(r.is_full());
    assert_eq!(r.len(), UNACKED_RING_CAP);

    let evicted = r.push(UNACKED_RING_CAP as u32, UNACKED_RING_CAP as u32);
    assert_eq!(evicted, Some((0, 0)));
    assert_eq!(r.len(), UNACKED_RING_CAP);

    let rem = r.unacked_since(0);
    assert_eq!(rem.first(), Some(&(1, 1)));
    assert_eq!(rem.last(), Some(&(UNACKED_RING_CAP as u32, UNACKED_RING_CAP as u32)));
}

#[test]
fn ack_cum_releases_prefix() {
    let mut r: UnackedRing<u32> = UnackedRing::new();
    for i in 1..=10u32 {
        r.push(i, i);
    }
    r.ack_cum(5);
    assert_eq!(r.len(), 5);
    let rem = r.unacked_since(0);
    assert_eq!(rem.iter().map(|(s, _)| *s).collect::<Vec<_>>(), vec![6, 7, 8, 9, 10]);
}

#[test]
fn ack_cum_on_empty_noop() {
    let mut r: UnackedRing<u32> = UnackedRing::new();
    r.ack_cum(100);
    assert_eq!(r.len(), 0);
}

#[test]
fn sack_selective_clear() {
    let mut r: UnackedRing<u32> = UnackedRing::new();
    for i in 1..=8u32 {
        r.push(i, i);
    }
    let bitmap = (1u128 << 1) | (1u128 << 3) | (1u128 << 6);
    r.sack(0, bitmap);
    let rem: Vec<u32> = r.unacked_since(0).into_iter().map(|(s, _)| s).collect();
    assert_eq!(rem, vec![1, 3, 5, 6, 8]);
}

#[test]
fn sack_zero_bitmap_noop() {
    let mut r: UnackedRing<u32> = UnackedRing::new();
    for i in 1..=4u32 {
        r.push(i, i);
    }
    r.sack(0, 0);
    assert_eq!(r.len(), 4);
}

#[test]
fn sack_out_of_window_ignored() {
    let mut r: UnackedRing<u32> = UnackedRing::new();
    r.push(5, 5);
    r.push(200, 200);
    r.sack(10, 1);
    assert_eq!(r.len(), 2);
}

#[test]
fn unacked_since_filters_by_seq() {
    let mut r: UnackedRing<u32> = UnackedRing::new();
    for i in 1..=5u32 {
        r.push(i, i);
    }
    let since3: Vec<u32> = r.unacked_since(3).into_iter().map(|(s, _)| s).collect();
    assert_eq!(since3, vec![3, 4, 5]);

    assert_eq!(r.len(), 5);
}

#[test]
fn wrap_around_seq_space() {
    let mut r: UnackedRing<u32> = UnackedRing::new();
    let base = u32::MAX - 2;
    for s in [base, base + 1, base + 2, 0, 1, 2] {
        r.push(s, s);
    }
    assert_eq!(r.len(), 6);

    r.ack_cum(u32::MAX);
    let rem: Vec<u32> = r.unacked_since(0).into_iter().map(|(s, _)| s).collect();
    assert_eq!(rem, vec![0, 1, 2]);

    let mut r2: UnackedRing<u32> = UnackedRing::new();
    for s in [0u32, 1, 2] {
        r2.push(s, s);
    }
    let bm = (1u128 << 0) | (1u128 << 2);
    r2.sack(u32::MAX, bm);
    let rem2: Vec<u32> = r2.unacked_since(0).into_iter().map(|(s, _)| s).collect();
    assert_eq!(rem2, vec![1]);
}

#[test]
fn empty_ring_operations() {
    let mut r: UnackedRing<u32> = UnackedRing::new();
    assert!(r.is_empty());
    assert!(!r.is_full());
    assert_eq!(r.len(), 0);
    assert_eq!(r.unacked_since(0).len(), 0);
    r.ack_cum(42);
    r.sack(0, u128::MAX);
    assert!(r.is_empty());
}

#[test]
fn should_compress_threshold() {
    assert!(!should_compress(&vec![0u8; 255]));
    assert!(should_compress(&vec![0u8; 256]));
    assert!(should_compress(&vec![0u8; 1024]));
}

#[test]
fn compress_decompress_roundtrip() {
    let data = b"hello world, this is a test of zstd compression".repeat(32);
    let compressed = compress(&data).unwrap();
    assert!(compressed.len() < data.len());
    let decompressed = decompress(&compressed).unwrap();
    assert_eq!(decompressed, data);
}

#[test]
fn compress_small_input() {
    let data = b"hi";
    let compressed = compress(data).unwrap();
    let decompressed = decompress(&compressed).unwrap();
    assert_eq!(decompressed, data);
}

#[test]
fn decompress_bad_input() {
    let result = decompress(b"not zstd data");
    assert!(result.is_err());
}

#[test]
fn stream_roundtrip_single_chunk() {
    let data = b"streaming test data ".repeat(64);
    let mut enc = StreamCompressor::new(3).unwrap();
    let mut compressed = enc.write_chunk(&data).unwrap();
    compressed.extend(enc.finish().unwrap());

    let mut dec = StreamDecompressor::new().unwrap();
    let out = dec.read_chunk(&compressed).unwrap();
    assert_eq!(out, data);
}

#[test]
fn stream_finish_returns_tail() {
    let mut enc = StreamCompressor::new(3).unwrap();
    let head = enc.write_chunk(b"abc").unwrap();
    let tail = enc.finish().unwrap();
    let mut all = head;
    all.extend(tail);

    let decoded = decompress(&all).unwrap();
    assert_eq!(decoded, b"abc");
}

#[test]
fn timeout_display() {
    let e = MlinkError::Timeout;
    assert_eq!(e.to_string(), "request timed out");
}

#[test]
fn peer_gone_display() {
    let e = MlinkError::PeerGone {
        peer_id: "abc123".into(),
    };
    assert_eq!(e.to_string(), "peer disconnected: abc123");
}

#[test]
fn payload_too_large_display() {
    let e = MlinkError::PayloadTooLarge {
        size: 2048,
        max: 1024,
    };
    assert_eq!(e.to_string(), "payload too large: 2048 > 1024");
}

#[test]
fn unknown_method_display() {
    let e = MlinkError::UnknownMethod("foo.bar".into());
    assert_eq!(e.to_string(), "unknown method: foo.bar");
}

#[test]
fn stream_failed_display() {
    let e = MlinkError::StreamFailed { stream_id: 7 };
    assert_eq!(e.to_string(), "stream failed: stream_id=7");
}

#[test]
fn backpressure_display() {
    let e = MlinkError::Backpressure;
    assert_eq!(e.to_string(), "backpressure: receiver overloaded");
}

#[test]
fn io_from_conversion() {
    let io_err = std::io::Error::new(std::io::ErrorKind::Other, "boom");
    let e: MlinkError = io_err.into();
    assert!(matches!(e, MlinkError::Io(_)));
}

#[test]
fn result_alias_works() {
    fn produces() -> Result<u32> {
        Err(MlinkError::Timeout)
    }
    assert!(produces().is_err());
}

#[test]
fn encode_layout_is_big_endian() {
    let frame = sample_frame(vec![0xAA, 0xBB, 0xCC]);
    let bytes = encode_frame(&frame);

    assert_eq!(bytes.len(), HEADER_SIZE + 3);
    assert_eq!(&bytes[0..2], &[0x4D, 0x4C]);
    assert_eq!(bytes[2], 0x01);
    assert_eq!(bytes[3], frame.flags);
    assert_eq!(&bytes[4..6], &[0x12, 0x34]);
    assert_eq!(&bytes[6..8], &[0x00, 0x03]);
    assert_eq!(&bytes[8..], &[0xAA, 0xBB, 0xCC]);
}

#[test]
fn encode_decode_round_trip() {
    let frame = sample_frame(vec![1, 2, 3, 4, 5]);
    let bytes = encode_frame(&frame);
    let back = decode_frame(&bytes).unwrap();
    assert_eq!(back, frame);
}

#[test]
fn encode_empty_payload() {
    let frame = sample_frame(vec![]);
    let bytes = encode_frame(&frame);
    assert_eq!(bytes.len(), HEADER_SIZE);
    assert_eq!(&bytes[6..8], &[0x00, 0x00]);
    let back = decode_frame(&bytes).unwrap();
    assert_eq!(back, frame);
}

#[test]
fn decode_rejects_too_short() {
    let err = decode_frame(&[0x4D, 0x4C, 0x01]).unwrap_err();
    assert!(matches!(err, MlinkError::CodecError(_)));
}

#[test]
fn decode_rejects_bad_magic() {
    let mut bytes = encode_frame(&sample_frame(vec![1]));
    bytes[0] = 0xFF;
    let err = decode_frame(&bytes).unwrap_err();
    assert!(matches!(err, MlinkError::CodecError(_)));
}

#[test]
fn decode_rejects_bad_version() {
    let mut bytes = encode_frame(&sample_frame(vec![1]));
    bytes[2] = 0x99;
    let err = decode_frame(&bytes).unwrap_err();
    assert!(matches!(err, MlinkError::CodecError(_)));
}

#[test]
fn decode_rejects_truncated_payload() {
    let frame = sample_frame(vec![1, 2, 3, 4, 5]);
    let bytes = encode_frame(&frame);
    let err = decode_frame(&bytes[..bytes.len() - 2]).unwrap_err();
    assert!(matches!(err, MlinkError::CodecError(_)));
}

#[test]
fn decode_ignores_trailing_bytes() {
    let frame = sample_frame(vec![1, 2, 3]);
    let mut bytes = encode_frame(&frame);
    bytes.extend_from_slice(&[0xDE, 0xAD]);
    let back = decode_frame(&bytes).unwrap();
    assert_eq!(back, frame);
}

#[test]
fn seqgen_monotonic() {
    let mut g = SeqGen::new();
    assert_eq!(g.next(), 0);
    assert_eq!(g.next(), 1);
    assert_eq!(g.next(), 2);
}

#[test]
fn seqgen_wrap() {
    let mut g = SeqGen::new();
    g.next = u32::MAX;
    assert_eq!(g.next(), u32::MAX);
    assert_eq!(g.next(), 0);
    assert_eq!(g.next(), 1);
}

#[test]
fn dedup_first_observation_accept() {
    let mut w = DedupWindow::new();
    assert_eq!(w.observe(42), Observation::Accept);
}

#[test]
fn dedup_forward_seqs_accept() {
    let mut w = DedupWindow::new();
    for s in 0..10 {
        assert_eq!(w.observe(s), Observation::Accept, "seq {}", s);
    }
}

#[test]
fn dedup_duplicate_detection() {
    let mut w = DedupWindow::new();
    assert_eq!(w.observe(5), Observation::Accept);
    assert_eq!(w.observe(5), Observation::Duplicate);
    assert_eq!(w.observe(6), Observation::Accept);
    assert_eq!(w.observe(5), Observation::Duplicate);
    assert_eq!(w.observe(6), Observation::Duplicate);
}

#[test]
fn dedup_out_of_order_within_window_accept_once() {
    let mut w = DedupWindow::new();
    assert_eq!(w.observe(10), Observation::Accept);
    assert_eq!(w.observe(7), Observation::Accept);
    assert_eq!(w.observe(7), Observation::Duplicate);
    assert_eq!(w.observe(9), Observation::Accept);
    assert_eq!(w.observe(8), Observation::Accept);
    let (last, _) = w.snapshot();
    assert_eq!(last, 10);
}

#[test]
fn dedup_window_slide_evicts_old() {
    let mut w = DedupWindow::new();
    assert_eq!(w.observe(0), Observation::Accept);
    assert_eq!(w.observe(200), Observation::Accept);
    assert_eq!(w.observe(0), Observation::Stale);
    assert_eq!(w.observe(73), Observation::Accept);
    assert_eq!(w.observe(72), Observation::Stale);
}

#[test]
fn dedup_jump_exactly_128_forward() {
    let mut w = DedupWindow::new();
    assert_eq!(w.observe(0), Observation::Accept);
    assert_eq!(w.observe(128), Observation::Accept);
    assert_eq!(w.observe(0), Observation::Stale);
    assert_eq!(w.observe(1), Observation::Accept);
    assert_eq!(w.observe(1), Observation::Duplicate);
    assert_eq!(w.observe(u32::MAX), Observation::Stale);
}

#[test]
fn dedup_jump_127_forward_keeps_last() {
    let mut w = DedupWindow::new();
    assert_eq!(w.observe(0), Observation::Accept);
    assert_eq!(w.observe(127), Observation::Accept);
    assert_eq!(w.observe(0), Observation::Duplicate);
}

#[test]
fn dedup_boundary_seq_zero() {
    let mut w = DedupWindow::new();
    assert_eq!(w.observe(0), Observation::Accept);
    assert_eq!(w.observe(0), Observation::Duplicate);
}

#[test]
fn dedup_boundary_seq_u32_max() {
    let mut w = DedupWindow::new();
    assert_eq!(w.observe(u32::MAX), Observation::Accept);
    assert_eq!(w.observe(u32::MAX), Observation::Duplicate);
    assert_eq!(w.observe(0), Observation::Accept);
    assert_eq!(w.observe(u32::MAX), Observation::Duplicate);
}

#[test]
fn dedup_wrap_around_forward() {
    let mut w = DedupWindow::new();
    assert_eq!(w.observe(u32::MAX - 2), Observation::Accept);
    assert_eq!(w.observe(u32::MAX - 1), Observation::Accept);
    assert_eq!(w.observe(u32::MAX), Observation::Accept);
    assert_eq!(w.observe(0), Observation::Accept);
    assert_eq!(w.observe(1), Observation::Accept);
    assert_eq!(w.observe(u32::MAX), Observation::Duplicate);
    assert_eq!(w.observe(u32::MAX - 2), Observation::Duplicate);
}

#[test]
fn snapshot_empty_window() {
    let w = DedupWindow::new();
    assert_eq!(w.snapshot(), (0, 0));
}

#[test]
fn snapshot_reflects_last_and_bits() {
    let mut w = DedupWindow::new();
    w.observe(5);
    w.observe(7);
    w.observe(8);
    let (last, bits) = w.snapshot();
    assert_eq!(last, 8);
    assert_eq!(bits & 1, 1, "bit0 (seq 8)");
    assert_eq!((bits >> 1) & 1, 1, "bit1 (seq 7)");
    assert_eq!((bits >> 2) & 1, 0, "bit2 (seq 6, not seen)");
    assert_eq!((bits >> 3) & 1, 1, "bit3 (seq 5)");
}

#[test]
fn dedup_very_far_back_is_stale_not_duplicate() {
    let mut w = DedupWindow::new();
    w.observe(1000);
    assert_eq!(w.observe(10), Observation::Stale);
    assert_eq!(w.observe(1000), Observation::Duplicate);
}

#[test]
fn constants_are_correct() {
    assert_eq!(MAGIC, 0x4D4C);
    assert_eq!(PROTOCOL_VERSION, 0x01);
    assert_eq!(HEADER_SIZE, 8);
}

#[test]
fn message_type_round_trip() {
    let all = [
        MessageType::Handshake,
        MessageType::Heartbeat,
        MessageType::Ack,
        MessageType::Ctrl,
        MessageType::Message,
        MessageType::StreamStart,
        MessageType::StreamChunk,
        MessageType::StreamEnd,
        MessageType::StreamAck,
        MessageType::Request,
        MessageType::Response,
        MessageType::ResponseStream,
        MessageType::Subscribe,
        MessageType::Publish,
        MessageType::Unsubscribe,
        MessageType::Error,
    ];
    for t in all {
        let byte: u8 = t.into();
        assert_eq!(MessageType::try_from(byte).unwrap(), t);
    }
}

#[test]
fn message_type_rejects_unknown() {
    assert!(MessageType::try_from(0x00).is_err());
    assert!(MessageType::try_from(0x99).is_err());
}

#[test]
fn priority_mapping() {
    assert_eq!(MessageType::Handshake.priority(), Priority::P0);
    assert_eq!(MessageType::Heartbeat.priority(), Priority::P0);
    assert_eq!(MessageType::Ack.priority(), Priority::P0);
    assert_eq!(MessageType::Ctrl.priority(), Priority::P0);
    assert_eq!(MessageType::StreamAck.priority(), Priority::P1);
    assert_eq!(MessageType::Request.priority(), Priority::P1);
    assert_eq!(MessageType::Response.priority(), Priority::P1);
    assert_eq!(MessageType::ResponseStream.priority(), Priority::P1);
    assert_eq!(MessageType::Error.priority(), Priority::P1);
    assert_eq!(MessageType::Message.priority(), Priority::P2);
    assert_eq!(MessageType::StreamStart.priority(), Priority::P2);
    assert_eq!(MessageType::StreamEnd.priority(), Priority::P2);
    assert_eq!(MessageType::Subscribe.priority(), Priority::P2);
    assert_eq!(MessageType::Publish.priority(), Priority::P2);
    assert_eq!(MessageType::Unsubscribe.priority(), Priority::P2);
    assert_eq!(MessageType::StreamChunk.priority(), Priority::P3);
}

#[test]
fn flags_round_trip_all_combinations() {
    let types = [
        MessageType::Handshake,
        MessageType::Message,
        MessageType::StreamChunk,
        MessageType::Error,
    ];
    for t in types {
        for compressed in [false, true] {
            for encrypted in [false, true] {
                let flags = encode_flags(compressed, encrypted, t);
                let (c, e, mt) = decode_flags(flags);
                assert_eq!(c, compressed);
                assert_eq!(e, encrypted);
                assert_eq!(mt, t);
            }
        }
    }
}

#[test]
fn flags_bit_layout() {
    let flags = encode_flags(true, false, MessageType::Handshake);
    assert_eq!(flags & 0b1000_0000, 0b1000_0000);
    assert_eq!(flags & 0b0100_0000, 0);

    let flags = encode_flags(false, true, MessageType::Handshake);
    assert_eq!(flags & 0b1000_0000, 0);
    assert_eq!(flags & 0b0100_0000, 0b0100_0000);
}

#[test]
fn error_code_round_trip() {
    let all = [
        ErrorCode::Timeout,
        ErrorCode::PeerGone,
        ErrorCode::HandlerError,
        ErrorCode::PayloadTooLarge,
        ErrorCode::UnknownMethod,
        ErrorCode::StreamFailed,
        ErrorCode::Backpressure,
    ];
    for c in all {
        let byte: u8 = c.into();
        assert_eq!(ErrorCode::try_from(byte).unwrap(), c);
    }
}

#[test]
fn test_message_type_roundtrip() {
    let all = [
        MessageType::Handshake,
        MessageType::Heartbeat,
        MessageType::Ack,
        MessageType::Ctrl,
        MessageType::Message,
        MessageType::StreamStart,
        MessageType::StreamChunk,
        MessageType::StreamEnd,
        MessageType::StreamAck,
        MessageType::Request,
        MessageType::Response,
        MessageType::ResponseStream,
        MessageType::Subscribe,
        MessageType::Publish,
        MessageType::Unsubscribe,
        MessageType::Error,
    ];
    for t in all {
        let byte: u8 = t.into();
        let back = MessageType::try_from(byte).expect("valid byte");
        assert_eq!(back, t, "roundtrip failed for {:?} (byte=0x{:02X})", t, byte);
    }
}

#[test]
fn test_invalid_message_type() {
    for bad in [0x00u8, 0x05, 0x15, 0x23, 0x33, 0x40, 0x99, 0xFE] {
        let res = MessageType::try_from(bad);
        assert!(res.is_err(), "byte 0x{:02X} should be invalid", bad);
    }
}

#[test]
fn test_priority_mapping() {
    assert_eq!(MessageType::Handshake.priority(), Priority::P0);
    assert_eq!(MessageType::Heartbeat.priority(), Priority::P0);
    assert_eq!(MessageType::Ack.priority(), Priority::P0);
    assert_eq!(MessageType::Ctrl.priority(), Priority::P0);

    assert_eq!(MessageType::StreamAck.priority(), Priority::P1);
    assert_eq!(MessageType::Request.priority(), Priority::P1);
    assert_eq!(MessageType::Response.priority(), Priority::P1);
    assert_eq!(MessageType::ResponseStream.priority(), Priority::P1);
    assert_eq!(MessageType::Error.priority(), Priority::P1);

    assert_eq!(MessageType::Message.priority(), Priority::P2);
    assert_eq!(MessageType::StreamStart.priority(), Priority::P2);
    assert_eq!(MessageType::StreamEnd.priority(), Priority::P2);
    assert_eq!(MessageType::Subscribe.priority(), Priority::P2);
    assert_eq!(MessageType::Publish.priority(), Priority::P2);
    assert_eq!(MessageType::Unsubscribe.priority(), Priority::P2);

    assert_eq!(MessageType::StreamChunk.priority(), Priority::P3);
}

#[test]
fn test_flags_encode_decode() {
    let types = [
        MessageType::Handshake,
        MessageType::Heartbeat,
        MessageType::Ack,
        MessageType::Ctrl,
        MessageType::Message,
        MessageType::StreamStart,
        MessageType::StreamChunk,
        MessageType::StreamEnd,
        MessageType::StreamAck,
        MessageType::Request,
        MessageType::Response,
        MessageType::ResponseStream,
        MessageType::Subscribe,
        MessageType::Publish,
        MessageType::Unsubscribe,
        MessageType::Error,
    ];
    for t in types {
        for compressed in [false, true] {
            for encrypted in [false, true] {
                let flags = encode_flags(compressed, encrypted, t);
                let (c, e, mt) = decode_flags(flags);
                assert_eq!(c, compressed, "compress mismatch for {:?}", t);
                assert_eq!(e, encrypted, "encrypt mismatch for {:?}", t);
                assert_eq!(mt, t, "type mismatch for {:?}", t);
            }
        }
    }
}

#[test]
fn test_flags_bit_layout() {
    let f = encode_flags(true, false, MessageType::Message);
    assert_eq!(f & 0b1000_0000, 0b1000_0000);
    assert_eq!(f & 0b0100_0000, 0);

    let f = encode_flags(false, true, MessageType::Message);
    assert_eq!(f & 0b1000_0000, 0);
    assert_eq!(f & 0b0100_0000, 0b0100_0000);

    let f = encode_flags(true, true, MessageType::Heartbeat);
    assert_eq!(f & 0b1100_0000, 0b1100_0000);
}

#[test]
fn test_error_display() {
    assert_eq!(MlinkError::Timeout.to_string(), "request timed out");

    assert_eq!(
        MlinkError::PeerGone { peer_id: "peer-1".into() }.to_string(),
        "peer disconnected: peer-1"
    );

    assert_eq!(
        MlinkError::HandlerError("boom".into()).to_string(),
        "handler error: boom"
    );

    assert_eq!(
        MlinkError::PayloadTooLarge { size: 5000, max: 1024 }.to_string(),
        "payload too large: 5000 > 1024"
    );

    assert_eq!(
        MlinkError::UnknownMethod("foo".into()).to_string(),
        "unknown method: foo"
    );

    assert_eq!(
        MlinkError::StreamFailed { stream_id: 3 }.to_string(),
        "stream failed: stream_id=3"
    );

    assert_eq!(
        MlinkError::Backpressure.to_string(),
        "backpressure: receiver overloaded"
    );

    let codec = MlinkError::CodecError("oops".into()).to_string();
    assert!(codec.contains("oops"), "codec display missing info: {}", codec);

    let comp = MlinkError::CompressError("bad".into()).to_string();
    assert!(comp.contains("bad"), "compress display missing info: {}", comp);
}

#[test]
fn test_io_error_from() {
    let io_err = std::io::Error::new(std::io::ErrorKind::PermissionDenied, "no access");
    let mlink_err: MlinkError = io_err.into();
    match mlink_err {
        MlinkError::Io(e) => {
            assert_eq!(e.kind(), std::io::ErrorKind::PermissionDenied);
            assert!(e.to_string().contains("no access"));
        }
        other => panic!("expected Io variant, got {:?}", other),
    }
}

#[test]
fn test_result_alias() {
    fn returns_err() -> Result<u32> {
        Err(MlinkError::Timeout)
    }
    fn returns_ok() -> Result<u32> {
        Ok(7)
    }
    assert!(returns_err().is_err());
    assert_eq!(returns_ok().unwrap(), 7);
}

#[test]
fn test_compress_decompress() {
    let data = b"The quick brown fox jumps over the lazy dog. ".repeat(32);
    let compressed = compress(&data).expect("compress");
    let back = decompress(&compressed).expect("decompress");
    assert_eq!(back, data);
}

#[test]
fn test_should_compress_threshold() {
    assert_eq!(COMPRESS_THRESHOLD, 256);

    let small = vec![0u8; 255];
    assert!(!should_compress(&small), "255 bytes should not compress");

    let at_threshold = vec![0u8; 256];
    assert!(should_compress(&at_threshold), "256 bytes should compress");

    let large = vec![0u8; 1024];
    assert!(should_compress(&large), "1024 bytes should compress");

    let empty: Vec<u8> = Vec::new();
    assert!(!should_compress(&empty), "empty should not compress");
}

#[test]
fn test_compress_ratio() {
    let original = "abcdefghij".repeat(1024);
    let original_bytes = original.as_bytes();
    let compressed = compress(original_bytes).expect("compress");

    let ratio = compressed.len() as f64 / original_bytes.len() as f64;
    assert!(
        compressed.len() < original_bytes.len() / 2,
        "compression ratio {:.2}% not better than 50% (orig={}, comp={})",
        ratio * 100.0,
        original_bytes.len(),
        compressed.len()
    );

    let decomp = decompress(&compressed).expect("decompress");
    assert_eq!(decomp, original_bytes);
}

#[test]
fn test_empty_data() {
    let empty: &[u8] = &[];
    let compressed = compress(empty).expect("compress empty");
    let back = decompress(&compressed).expect("decompress empty");
    assert_eq!(back, empty);
}

#[test]
fn test_stream_compressor() {
    let chunks: Vec<&[u8]> = vec![
        b"chunk-one-alpha ".as_slice(),
        b"chunk-two-beta ".as_slice(),
        b"chunk-three-gamma ".as_slice(),
        b"final tail.".as_slice(),
    ];
    let mut original = Vec::new();
    for c in &chunks {
        original.extend_from_slice(c);
    }

    let mut comp = StreamCompressor::new(3).expect("compressor");
    let mut wire = Vec::new();
    for c in &chunks {
        let part = comp.write_chunk(c).expect("write_chunk");
        wire.extend_from_slice(&part);
    }
    let tail = comp.finish().expect("finish");
    wire.extend_from_slice(&tail);

    let mut dec = StreamDecompressor::new().expect("decompressor");
    let out = dec.read_chunk(&wire).expect("read_chunk");

    assert_eq!(out, original);
}

#[test]
fn test_frame_encode_decode_roundtrip() {
    let frame = make_frame(
        encode_flags(false, false, MessageType::Message),
        0xABCD,
        vec![0x01, 0x02, 0x03, 0x04, 0x05, 0x06, 0x07, 0x08],
    );
    let bytes = encode_frame(&frame);
    let back = decode_frame(&bytes).expect("decode");
    assert_eq!(back, frame);

    assert_eq!(bytes.len(), HEADER_SIZE + 8);
    assert_eq!(&bytes[0..2], &MAGIC.to_be_bytes());
    assert_eq!(bytes[2], PROTOCOL_VERSION);
    assert_eq!(&bytes[4..6], &0xABCDu16.to_be_bytes());
    assert_eq!(&bytes[6..8], &8u16.to_be_bytes());
}

#[test]
fn test_frame_invalid_magic() {
    let frame = make_frame(
        encode_flags(false, false, MessageType::Heartbeat),
        1,
        vec![0xAA],
    );
    let mut bytes = encode_frame(&frame);
    bytes[0] = 0xFF;
    bytes[1] = 0xEE;

    let err = decode_frame(&bytes).expect_err("bad magic should fail");
    match err {
        MlinkError::CodecError(msg) => {
            assert!(
                msg.to_lowercase().contains("magic"),
                "error should mention magic, got: {}",
                msg
            );
        }
        other => panic!("expected CodecError, got {:?}", other),
    }
}

#[test]
fn test_frame_invalid_version() {
    let frame = make_frame(
        encode_flags(false, false, MessageType::Ack),
        2,
        vec![0xBB],
    );
    let mut bytes = encode_frame(&frame);
    bytes[2] = 0xFE;

    let err = decode_frame(&bytes).expect_err("bad version should fail");
    match err {
        MlinkError::CodecError(msg) => {
            assert!(
                msg.to_lowercase().contains("version"),
                "error should mention version, got: {}",
                msg
            );
        }
        other => panic!("expected CodecError, got {:?}", other),
    }
}

#[test]
fn test_frame_empty_payload() {
    let frame = make_frame(
        encode_flags(false, false, MessageType::Heartbeat),
        0,
        vec![],
    );
    let bytes = encode_frame(&frame);
    assert_eq!(bytes.len(), HEADER_SIZE);
    assert_eq!(&bytes[6..8], &[0x00, 0x00]);

    let back = decode_frame(&bytes).expect("decode empty");
    assert_eq!(back, frame);
    assert_eq!(back.payload.len(), 0);
    assert_eq!(back.length, 0);
}

#[test]
fn test_frame_with_flags() {
    let flags = encode_flags(true, true, MessageType::Message);
    assert_eq!(flags & 0b1100_0000, 0b1100_0000);

    let frame = make_frame(flags, 0x0042, vec![0xDE, 0xAD, 0xBE, 0xEF]);
    let bytes = encode_frame(&frame);
    let back = decode_frame(&bytes).expect("decode flags");
    assert_eq!(back, frame);
    assert_eq!(back.flags & 0b1000_0000, 0b1000_0000, "compress bit lost");
    assert_eq!(back.flags & 0b0100_0000, 0b0100_0000, "encrypt bit lost");
}
