use mlink_core::protocol::ack::{decode_ack, encode_ack, AckFrame, UnackedRing, UNACKED_RING_CAP};
use mlink_core::protocol::compress::{
    compress, decompress, StreamCompressor, StreamDecompressor, DEFAULT_LEVEL,
};
use mlink_core::protocol::errors::MlinkError;
use mlink_core::protocol::frame::{decode_frame, encode_frame};
use mlink_core::protocol::seq::{DedupWindow, Observation};
use mlink_core::protocol::types::{
    encode_flags, ErrorCode, Frame, InvalidMessageType, MessageType, MAGIC, PROTOCOL_VERSION,
};

fn seqs(ring: &UnackedRing<u8>) -> Vec<u32> {
    (0..ring.len()).map(|i| ring.entry(i).0).collect()
}

#[test]
fn acknowledgements_release_exactly_what_they_name() {
    let mut ring: UnackedRing<u8> = UnackedRing::new();
    for s in [10u32, 11, 12, 13, 14] {
        ring.push(s, s as u8);
    }
    ring.ack_cum(11);
    assert_eq!(seqs(&ring), vec![12, 13, 14]);
    ring.ack_cum(11);
    assert_eq!(seqs(&ring), vec![12, 13, 14]);
    // Bit 1 over base 11 is sequence number 13.
    ring.sack(11, 0b10);
    assert_eq!(seqs(&ring), vec![12, 14]);
    ring.sack(11, 0b10);
    assert_eq!(seqs(&ring), vec![12, 14]);
    assert_eq!(ring.unacked_since(13), vec![(14, 14u8)]);
}

#[test]
fn full_ring_gives_up_its_oldest() {
    let mut ring: UnackedRing<u8> = UnackedRing::new();
    for s in 0..UNACKED_RING_CAP as u32 {
        assert!(ring.push(s, 0).is_none());
    }
    assert!(ring.is_full());
    assert_eq!(ring.push(999, 1), Some((0, 0)));
    assert_eq!(ring.len(), UNACKED_RING_CAP);
}

#[test]
fn ack_bytes_are_exact() {
    let a = AckFrame { ack: 0x01020304, bitmap: 1 };
    let mut expected = vec![1, 2, 3, 4];
    expected.extend_from_slice(&[0; 15]);
    expected.push(1);
    assert_eq!(encode_ack(&a), expected);
    assert_eq!(decode_ack(&expected).unwrap(), a);
}

#[test]
fn observed_numbers_are_not_accepted_again() {
    let mut w = DedupWindow::new();
    for s in [5u32, 3, 9, 4, 200, 150] {
        assert_eq!(w.observe(s), Observation::Accept);
    }
    for s in [200u32, 150] {
        assert_eq!(w.observe(s), Observation::Duplicate);
    }
    for s in [5u32, 3, 9, 4] {
        assert_ne!(w.observe(s), Observation::Accept);
    }
}

#[test]
fn frames_are_read_back_whatever_follows() {
    let frame = Frame {
        magic: MAGIC,
        version: PROTOCOL_VERSION,
        flags: encode_flags(true, true, MessageType::Publish),
        seq: 0xABCD,
        length: 3,
        payload: vec![1, 2, 3],
    };
    let mut bytes = encode_frame(&frame);
    bytes.extend_from_slice(b"tail");
    let got = decode_frame(&bytes).unwrap();
    assert_eq!(got.payload, frame.payload);
    assert_eq!((got.flags, got.seq, got.length), (frame.flags, frame.seq, frame.length));
}

#[test]
fn compressed_bytes_are_not_the_data() {
    let data = vec![7u8; 5000];
    let packed = compress(&data).unwrap();
    assert!(packed.len() < 100);
    assert_eq!(&packed[..4], &[0x28, 0xB5, 0x2F, 0xFD]);
    assert_eq!(decompress(&packed).unwrap(), data);
    assert!(matches!(decompress(b"no frame"), Err(MlinkError::CompressError(_))));
}

#[test]
fn streamed_chunks_make_one_frame() {
    let mut c = StreamCompressor::new(DEFAULT_LEVEL).unwrap();
    let mut all = c.write_chunk(&[1u8; 400]).unwrap();
    all.extend(c.write_chunk(&[2u8; 400]).unwrap());
    all.extend(c.finish().unwrap());
    let mut expected = vec![1u8; 400];
    expected.extend_from_slice(&[2u8; 400]);
    assert_eq!(decompress(&all).unwrap(), expected);

    let mut d = StreamDecompressor::new().unwrap();
    let (head, tail) = all.split_at(all.len() / 2);
    assert!(matches!(d.read_chunk(head), Err(MlinkError::CompressError(_))));
    assert_eq!(d.read_chunk(tail).unwrap(), expected);
}

#[test]
fn every_error_says_what_it_is() {
    let peer_id = "p".to_string();
    let cases = vec![
        (MlinkError::Timeout, "request timed out"),
        (MlinkError::PeerGone { peer_id: peer_id.clone() }, "peer disconnected: p"),
        (MlinkError::HandlerError("h".to_string()), "handler error: h"),
        (MlinkError::PayloadTooLarge { size: 90, max: 5 }, "payload too large: 90 > 5"),
        (MlinkError::UnknownMethod("m".to_string()), "unknown method: m"),
        (MlinkError::StreamFailed { stream_id: 3 }, "stream failed: stream_id=3"),
        (MlinkError::Backpressure, "backpressure: receiver overloaded"),
        (MlinkError::SecurityError("s".to_string()), "security error: s"),
        (MlinkError::CodecError("c".to_string()), "codec error: c"),
        (MlinkError::CompressError("z".to_string()), "compress error: z"),
        (MlinkError::Ble("b".to_string()), "ble error: b"),
        (MlinkError::NoHealthyLink { peer_id: peer_id.clone() }, "no healthy link: p"),
        (MlinkError::RoomMismatch { peer_id }, "room mismatch: p"),
        (MlinkError::from(std::io::Error::other("disk on fire")), "io error: disk on fire"),
    ];
    for (e, text) in cases {
        assert_eq!(e.to_string(), text);
    }
}

#[test]
fn codes_without_a_meaning_are_refused() {
    assert!(matches!(MessageType::try_from(0x3Fu8), Err(InvalidMessageType(0x3F))));
    assert!(ErrorCode::try_from(0x00u8).is_err());
}

#[test]
fn streams_compress_at_every_level() {
    let data = b"over and over and over again ".repeat(20);
    assert!(StreamCompressor::new(i32::MAX).is_ok());
    for level in [i32::MIN, -1, 0, 1, 12] {
        let mut enc = StreamCompressor::new(level).unwrap();
        let mut all = enc.write_chunk(&data).unwrap();
        all.extend(enc.write_chunk(&[]).unwrap());
        all.extend(enc.finish().unwrap());
        assert_eq!(decompress(&all).unwrap(), data);
    }
}

#[test]
fn every_chunk_gives_a_part() {
    let mut enc = StreamCompressor::new(3).unwrap();
    let mut all = Vec::new();
    let mut sent = Vec::new();
    for size in [1usize, 100, 1, 131_072, 1, 40_000, 300_000] {
        let chunk = vec![(size % 251) as u8; size];
        let part = enc.write_chunk(&chunk).unwrap();
        assert!(!part.is_empty());
        all.extend(part);
        sent.extend(chunk);
    }
    all.extend(enc.finish().unwrap());
    assert_eq!(decompress(&all).unwrap(), sent);
}
