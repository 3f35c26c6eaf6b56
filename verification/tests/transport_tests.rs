use std::path::Path;
use std::time::Duration;

use mlink_core::transport::ble::{
    parse_room_hash_from_name, BleTransport, CTRL_CHAR_UUID, MLINK_SERVICE_UUID, RX_CHAR_UUID,
    TX_CHAR_UUID,
};
use mlink_core::transport::ipc::{IpcTransport, DEFAULT_SOCKET_PATH};
use mlink_core::transport::mock::MockTransport;
use mlink_core::transport::peripheral::{
    classify_write, uuid_matches, PeripheralEvent, WriteRouteDecision,
};
use mlink_core::transport::tcp::{hex_decode_8, sanitize_instance, TcpTransport};
use mlink_core::transport::{ble, peripheral, tcp};

#[test]
fn service_uuid_value() {
    assert_eq!(
        MLINK_SERVICE_UUID.to_string().to_uppercase(),
        "0000FFAA-0000-1000-8000-00805F9B34FB"
    );
}

#[test]
fn characteristic_uuids_are_distinct() {
    let all = [MLINK_SERVICE_UUID, TX_CHAR_UUID, RX_CHAR_UUID, CTRL_CHAR_UUID];
    for i in 0..all.len() {
        for j in (i + 1)..all.len() {
            assert_ne!(all[i], all[j], "uuids at {i} and {j} collide");
        }
    }
}

#[test]
fn ble_transport_metadata() {
    let t = BleTransport::new();
    assert_eq!(t.id(), "ble");
    assert_eq!(t.mtu(), ble::DEFAULT_MTU);
    let caps = t.capabilities();
    assert_eq!(caps.max_peers, 7);
    assert_eq!(caps.throughput_bps, 1_200_000);
    assert_eq!(caps.latency_ms, 15);
    assert!(caps.reliable);
    assert!(caps.bidirectional);
}

#[test]
fn set_negotiated_mtu_updates_reported_mtu() {
    let mut t = BleTransport::new();
    t.set_negotiated_mtu(247);
    assert_eq!(t.mtu(), 247);
}

#[test]
fn ble_room_hash_round_trips() {
    let mut t = BleTransport::new();
    assert!(t.room_hash().is_none());
    let hash = [0xAB; 8];
    t.set_room_hash(hash);
    assert_eq!(t.room_hash(), Some(&hash));
    t.clear_room_hash();
    assert!(t.room_hash().is_none());
}

#[test]
fn ble_set_local_name_updates_field() {
    let mut t = BleTransport::new();
    t.set_local_name("mlink-node-a".to_string());
    assert_eq!(t.local_name(), "mlink-node-a");
}

#[test]
fn parse_room_hash_roundtrips_valid_suffix() {
    let hash: [u8; 8] = [0xaa, 0xbb, 0xcc, 0xdd, 0xee, 0xff, 0x00, 0x11];
    let name = "mlink-node#aabbccddeeff0011";
    let (base, got) = parse_room_hash_from_name(name).expect("should parse");
    assert_eq!(base, "mlink-node");
    assert_eq!(got, hash);
}

#[test]
fn parse_room_hash_returns_none_without_suffix() {
    assert!(parse_room_hash_from_name("mlink-node").is_none());
}

#[test]
fn parse_room_hash_returns_none_for_short_suffix() {
    assert!(parse_room_hash_from_name("mlink#abcd").is_none());
}

#[test]
fn parse_room_hash_returns_none_for_non_hex_suffix() {
    assert!(parse_room_hash_from_name("mlink#zzzzzzzzzzzzzzzz").is_none());
}

#[test]
fn parse_room_hash_uses_last_hash() {
    let (base, _) = parse_room_hash_from_name("foo#bar#0011223344556677").unwrap();
    assert_eq!(base, "foo#bar");
}

#[test]
fn ipc_transport_metadata() {
    let t = IpcTransport::new("/tmp/mlink-test.sock".to_string());
    assert_eq!(t.id(), "ipc");
    assert_eq!(t.mtu(), usize::MAX);
    let caps = t.capabilities();
    assert_eq!(caps.max_peers, 100);
    assert_eq!(caps.throughput_bps, u64::MAX);
    assert_eq!(caps.latency_ms, 0);
    assert!(caps.reliable);
    assert!(caps.bidirectional);
}

#[test]
fn default_uses_tmp_path() {
    let t = IpcTransport::default();
    assert_eq!(Path::new(t.socket_path()), Path::new(DEFAULT_SOCKET_PATH));
}

#[test]
fn mock_transport_metadata() {
    let t = MockTransport::new();
    assert_eq!(t.id(), "mock");
    assert_eq!(t.mtu(), 512);
    let caps = t.capabilities();
    assert_eq!(caps.max_peers, 100);
    assert_eq!(caps.throughput_bps, u64::MAX);
    assert_eq!(caps.latency_ms, 0);
    assert!(caps.reliable);
    assert!(caps.bidirectional);
}

#[test]
fn hex_encode_is_lowercase_and_padded() {
    assert_eq!(peripheral::hex_encode(&[0x00, 0x0f, 0xa5, 0xff]), "000fa5ff");
    assert_eq!(peripheral::hex_encode(&[]), "");
}

#[test]
fn uuid_matches_ignores_case() {
    let u = RX_CHAR_UUID;
    assert!(uuid_matches(&u.to_string().to_lowercase(), &u));
    assert!(uuid_matches(&u.to_string().to_uppercase(), &u));
    assert!(!uuid_matches("00000000-0000-0000-0000-000000000000", &u));
}

#[test]
fn classify_write_accepts_tx_with_payload() {
    let tx_str = TX_CHAR_UUID.to_string();
    assert_eq!(
        classify_write(&tx_str, &TX_CHAR_UUID, 42),
        WriteRouteDecision::Deliver
    );
    assert_eq!(
        classify_write(&tx_str.to_uppercase(), &TX_CHAR_UUID, 1),
        WriteRouteDecision::Deliver
    );
}

#[test]
fn classify_write_ignores_ctrl_char_writes() {
    let ctrl_str = CTRL_CHAR_UUID.to_string();
    assert_eq!(
        classify_write(&ctrl_str, &TX_CHAR_UUID, 8),
        WriteRouteDecision::Ignore
    );
    let rx_str = RX_CHAR_UUID.to_string();
    assert_eq!(
        classify_write(&rx_str, &TX_CHAR_UUID, 8),
        WriteRouteDecision::Ignore
    );
    assert_eq!(
        classify_write("00000000-0000-0000-0000-000000000000", &TX_CHAR_UUID, 8),
        WriteRouteDecision::Ignore
    );
}

#[test]
fn classify_write_ignores_empty_payload_even_on_tx() {
    let tx_str = TX_CHAR_UUID.to_string();
    assert_eq!(
        classify_write(&tx_str, &TX_CHAR_UUID, 0),
        WriteRouteDecision::Ignore
    );
}

#[test]
fn tcp_transport_metadata() {
    let t = TcpTransport::new();
    assert_eq!(t.id(), "tcp");
    assert_eq!(t.mtu(), tcp::DEFAULT_MTU);
    let caps = t.capabilities();
    assert_eq!(caps.max_peers, 32);
    assert_eq!(caps.throughput_bps, 100_000_000);
    assert_eq!(caps.latency_ms, 1);
    assert!(caps.reliable);
    assert!(caps.bidirectional);
}

#[test]
fn tcp_room_hash_round_trips() {
    let mut t = TcpTransport::new();
    assert!(t.room_hash().is_none());
    let h = [0xCD; 8];
    t.set_room_hash(h);
    assert_eq!(t.room_hash(), Some(&h));
    t.clear_room_hash();
    assert!(t.room_hash().is_none());
}

#[test]
fn tcp_set_local_name_updates_field() {
    let mut t = TcpTransport::new();
    t.set_local_name("node-a".to_string());
    assert_eq!(t.local_name(), "node-a");
}

#[test]
fn hex_roundtrip() {
    let bytes = [0x01, 0x23, 0x45, 0x67, 0x89, 0xab, 0xcd, 0xef];
    let s = tcp::hex_encode(&bytes);
    assert_eq!(s, "0123456789abcdef");
    let back = hex_decode_8(&s).unwrap();
    assert_eq!(back, bytes);
}

#[test]
fn hex_decode_rejects_bad_length() {
    assert!(hex_decode_8("abcd").is_none());
}

#[test]
fn hex_decode_rejects_non_hex() {
    assert!(hex_decode_8("zzzzzzzzzzzzzzzz").is_none());
}

#[test]
fn sanitize_replaces_non_alnum() {
    assert_eq!(sanitize_instance("foo bar_baz!"), "foo-bar-baz-");
}

#[test]
fn test_ble_transport_new() {
    let t = BleTransport::new();
    assert_eq!(t.id(), "ble");
    let _default = BleTransport::default();
    let _configured = BleTransport::new().with_scan_duration(Duration::from_secs(1));
}

#[test]
fn test_ble_capabilities() {
    let t = BleTransport::new();
    let caps = t.capabilities();
    assert_eq!(
        caps.throughput_bps, 1_200_000,
        "ARCHITECTURE.md requires 1.2 Mbps (1_200_000 bps)"
    );
    assert_eq!(
        caps.latency_ms, 15,
        "ARCHITECTURE.md requires 15ms typical latency"
    );
    assert!(caps.reliable);
    assert!(caps.bidirectional);
    assert!(caps.max_peers > 0);
}

#[test]
fn test_ble_service_uuids() {
    let expected_parts = [8, 4, 4, 4, 12];
    for (name, uuid) in [
        ("service", MLINK_SERVICE_UUID),
        ("tx", TX_CHAR_UUID),
        ("rx", RX_CHAR_UUID),
        ("ctrl", CTRL_CHAR_UUID),
    ] {
        let s = uuid.to_string();
        assert_eq!(s.len(), 36, "{name} uuid len should be 36: {s}");
        let parts: Vec<&str> = s.split('-').collect();
        assert_eq!(parts.len(), 5, "{name} uuid should have 5 parts: {s}");
        for (i, expected) in expected_parts.iter().enumerate() {
            assert_eq!(
                parts[i].len(),
                *expected,
                "{name} uuid part {i} wrong length: {s}"
            );
            assert!(
                parts[i].chars().all(|c| c.is_ascii_hexdigit()),
                "{name} uuid part {i} not hex: {s}"
            );
        }
    }

    let all = [MLINK_SERVICE_UUID, TX_CHAR_UUID, RX_CHAR_UUID, CTRL_CHAR_UUID];
    for i in 0..all.len() {
        for j in (i + 1)..all.len() {
            assert_ne!(all[i], all[j], "uuid collision at {i},{j}");
        }
    }
}

#[test]
fn test_ble_peripheral_exists() {
    let t = mlink_core::transport::ble::BleTransport::new();
    assert_eq!(t.id(), "ble");
    let caps = t.capabilities();
    assert!(caps.reliable);
    assert!(caps.bidirectional);
    assert!(caps.max_peers > 0);
}

#[test]
fn phase9_tests_test_peripheral_module_exists() {
    let _e = PeripheralEvent::Received(vec![1, 2, 3]);
    let _e = PeripheralEvent::CentralSubscribed { central_id: "cx".into() };
    let _e = PeripheralEvent::ServiceAdded(Ok(()));
    let _e = PeripheralEvent::ServiceAdded(Err("nope".into()));
    let _e = PeripheralEvent::AdvertisingStarted(Ok(()));
    let _e = PeripheralEvent::AdvertisingStarted(Err("nope".into()));
}
