use std::path::PathBuf;
use std::sync::Arc;
use std::time::{Duration, Instant};

use mlink_core::mesh::connection::{
    perform_handshake, ConnectionManager, HandshakeAction, HandshakeEvent, IoOutcome, Role,
    HANDSHAKE_IO_TIMEOUT,
};
use mlink_core::mesh::link::{Link, TransportKind};
use mlink_core::mesh::node::connect::{
    default_caps_for_kind, default_caps_for_wire, make_link_id, make_link_id_with, AcceptEvent,
    ConnectAction, ConnectEvent, Registration, TransportInfo, ACCEPT_MTU,
};
use mlink_core::mesh::node::io::{is_alive_after, ReaderAction};
use mlink_core::mesh::node::types::{
    NodeConfig, NodeEvent, NodeState, HEARTBEAT_INTERVAL, HEARTBEAT_TIMEOUT,
};
use mlink_core::mesh::node::Node;
use mlink_core::mesh::security::TrustStore;
use mlink_core::mesh::session::manager::AttachOutcome;
use mlink_core::mesh::session::types::{LinkRole, SessionEvent, SwitchCause};
use mlink_core::protocol::errors::MlinkError;
use mlink_core::protocol::frame::{decode_frame, encode_frame};
use mlink_core::protocol::types::{
    decode_flags, encode_flags, Frame, Handshake, MessageType, MAGIC, PROTOCOL_VERSION,
};
use mlink_core::transport::mock::MockTransport;
use mlink_core::transport::{DiscoveredPeer, TransportCapabilities};

fn node_with(app_uuid: &str, encrypt: bool) -> Node<str> {
    let path = PathBuf::from("/nowhere/trust.json");
    Node::new(
        NodeConfig {
            name: "test-node".to_string(),
            encrypt,
            trust_store_path: Some(path.clone()),
        },
        app_uuid.to_string(),
        TrustStore::new(path, Vec::new()),
    )
}

fn node(app_uuid: &str) -> Node<str> {
    node_with(app_uuid, false)
}

fn conn(name: &str) -> Arc<str> {
    Arc::from(name)
}

fn handshake(app_uuid: &str, room: Option<[u8; 8]>) -> Handshake {
    Handshake {
        app_uuid: app_uuid.to_string(),
        version: PROTOCOL_VERSION,
        mtu: 512,
        compress: true,
        encrypt: false,
        last_seq: 0,
        resume_streams: vec![],
        room_hash: room,
        session_id: None,
        session_last_seq: 0,
    }
}

fn done(action: ConnectAction<str>) -> Registration<str> {
    match action {
        ConnectAction::Done(r) => r,
        _ => panic!("expected Done"),
    }
}

fn accept(n: &mut Node<str>, c: &str, hs: Handshake, transport: &str) -> Registration<str> {
    match n.accept_incoming(AcceptEvent::Incoming(conn(c)), c, transport, "mock-peer".to_string()) {
        ConnectAction::Greet(_, own) => {
            assert_eq!(own.app_uuid, n.app_uuid());
            assert_eq!(own.mtu, ACCEPT_MTU);
        }
        _ => panic!("expected Greet"),
    }
    done(n.accept_incoming(
        AcceptEvent::Greeted(conn(c), Ok(hs)),
        c,
        transport,
        "mock-peer".to_string(),
    ))
}

fn discovered(id: &str) -> DiscoveredPeer {
    DiscoveredPeer {
        id: id.to_string(),
        name: "node-b".to_string(),
        rssi: None,
        metadata: vec![],
    }
}

fn staged() -> TransportInfo {
    TransportInfo {
        id: "tcp".to_string(),
        mtu: 512,
        capabilities: TransportCapabilities {
            max_peers: 1,
            throughput_bps: u64::MAX,
            latency_ms: 0,
            reliable: true,
            bidirectional: true,
        },
    }
}

fn dial(n: &mut Node<str>, wire: &str, hs: Handshake) -> Registration<str> {
    let d = discovered(wire);
    let t = staged();
    assert!(matches!(n.connect_peer(ConnectEvent::Start, &d, &t), ConnectAction::Dial));
    assert_eq!(n.peer_state(wire), Some(NodeState::Connecting));
    match n.connect_peer(ConnectEvent::Dialed(Ok(conn(wire))), &d, &t) {
        ConnectAction::Greet(c, own) => {
            assert_eq!(&*c, wire);
            assert_eq!(own.mtu, 512);
            assert!(!own.encrypt);
        }
        _ => panic!("expected Greet"),
    }
    done(n.connect_peer(ConnectEvent::Greeted(conn(wire), Ok(hs)), &d, &t))
}

#[test]
fn tests_new_starts_idle() {
    let n = node("me");
    assert_eq!(n.state(), NodeState::Idle);
    assert_eq!(n.app_uuid(), "me");
    assert_eq!(n.config().name, "test-node");
    assert_eq!(n.connection_count(), 0);
    assert!(n.trust_store().list().is_empty());
}

#[test]
fn tests_start_transitions_to_discovering() {
    let mut n = node("me");
    n.start().unwrap();
    assert_eq!(n.state(), NodeState::Discovering);
}

#[test]
fn tests_start_rejects_double_start() {
    let mut n = node("me");
    n.start().unwrap();
    assert!(matches!(n.start(), Err(MlinkError::HandlerError(_))));
}

#[test]
fn tests_stop_returns_to_idle() {
    let mut n = node("me");
    n.start().unwrap();
    let shutdown = n.stop();
    assert_eq!(n.state(), NodeState::Idle);
    assert!(shutdown.conns.is_empty());
    assert!(shutdown.events.is_empty());
}

#[test]
fn stop_disconnects_every_peer() {
    let mut n = node("me");
    n.attach_connection("a".to_string(), conn("ca"));
    n.attach_connection("b".to_string(), conn("cb"));
    let shutdown = n.stop();
    let mut closed: Vec<String> = shutdown.conns.iter().map(|c| c.to_string()).collect();
    closed.sort();
    assert_eq!(closed, vec!["ca", "cb"]);
    assert_eq!(shutdown.events.len(), 2);
    assert_eq!(n.connection_count(), 0);
    assert_eq!(n.state(), NodeState::Idle);
}

#[test]
fn tests_role_for_is_deterministic() {
    let n = node("m");
    assert_eq!(n.role_for("z"), Role::Central);
    assert_eq!(n.role_for("a"), Role::Peripheral);
    assert_eq!(n.role_for("z"), n.role_for("z"));
}

#[test]
fn tests_send_raw_on_missing_peer_fails() {
    let mut n = node("me");
    match n.send_raw("ghost", MessageType::Message, b"x") {
        Err(MlinkError::PeerGone { peer_id }) => assert_eq!(peer_id, "ghost"),
        _ => panic!("expected PeerGone"),
    }
}

#[test]
fn tests_connect_peer_via_mock_transport_errors_cleanly() {
    let mut n = node("me");
    let d = discovered("x");
    let t = staged();
    let _ = n.connect_peer(ConnectEvent::Start, &d, &t);
    let refused = MockTransport::new().connect();
    let r = done(n.connect_peer(ConnectEvent::Dialed(Err(refused)), &d, &t));
    assert!(matches!(r.result, Err(MlinkError::HandlerError(_))));
    assert!(r.close.is_none());
    assert_eq!(n.connection_count(), 0);
}

#[test]
fn failed_handshake_closes_the_connection() {
    let mut n = node("me");
    let d = discovered("x");
    let t = staged();
    let r = done(n.connect_peer(
        ConnectEvent::Greeted(conn("x"), Err(MlinkError::Timeout)),
        &d,
        &t,
    ));
    assert!(matches!(r.result, Err(MlinkError::Timeout)));
    assert_eq!(r.close.as_deref(), Some("x"));
    let r = done(n.accept_incoming(
        AcceptEvent::Greeted(conn("y"), Err(MlinkError::Timeout)),
        "y",
        "mock",
        "n".to_string(),
    ));
    assert!(matches!(r.result, Err(MlinkError::Timeout)));
    assert_eq!(r.close.as_deref(), Some("y"));
}

#[test]
fn tests_check_heartbeat_missing_peer_fails() {
    let n = node("me");
    assert!(matches!(n.check_heartbeat("no-such"), Err(MlinkError::PeerGone { .. })));
}

#[test]
fn heartbeat_within_the_limit_counts_as_alive() {
    let mut n = node("me");
    n.attach_connection("p".to_string(), conn("c"));
    assert!(n.check_heartbeat("p").unwrap());
    assert!(is_alive_after(44_999));
    assert!(!is_alive_after(45_000));
    assert_eq!(HEARTBEAT_INTERVAL, 15);
    assert_eq!(HEARTBEAT_TIMEOUT, 45);
}

#[test]
fn tests_accept_incoming_matching_room_registers_peer() {
    let mut a = node("a");
    let room = [0x55u8; 8];
    a.add_room_hash(room);
    let r = accept(&mut a, "wire", handshake("b", Some(room)), "mock");
    assert_eq!(r.result.unwrap(), "b");
    assert!(r.close.is_none());
    assert_eq!(a.connection_count(), 1);
    let p = a.get_peer("b").unwrap();
    assert_eq!(p.name, "mock-peer");
    assert_eq!(p.transport_id, "mock");
    assert_eq!(r.events.len(), 2);
    assert!(matches!(
        &r.events[0],
        NodeEvent::LinkAdded { peer_id, transport: TransportKind::Mock, .. } if peer_id == "b"
    ));
    assert!(matches!(&r.events[1], NodeEvent::PeerConnected { peer_id } if peer_id == "b"));
    assert!(matches!(r.session_event, Some(SessionEvent::LinkAdded { .. })));
}

#[test]
fn tests_accept_incoming_mismatched_room_rejects() {
    let mut a = node("a");
    a.add_room_hash([0x11; 8]);
    let r = accept(&mut a, "wire", handshake("b", Some([0x22u8; 8])), "mock");
    assert!(matches!(r.result, Err(MlinkError::RoomMismatch { ref peer_id }) if peer_id == "wire"));
    assert_eq!(r.close.as_deref(), Some("wire"));
    assert!(r.events.is_empty());
    assert_eq!(a.connection_count(), 0);
}

#[test]
fn tests_connect_peer_matching_room_roundtrip_is_accepted() {
    let mut n = node("me");
    assert!(n.room_hashes().is_empty());
    assert_eq!(n.wire_room_hash(), None);
    n.add_room_hash([0xFE; 8]);
    n.add_room_hash([0xFE; 8]);
    assert_eq!(n.room_hashes(), vec![[0xFE; 8]]);
    assert_eq!(n.wire_room_hash(), Some([0xFE; 8]));
    n.remove_room_hash(&[0xFE; 8]);
    assert!(n.room_hashes().is_empty());
}

#[test]
fn tests_node_in_multiple_rooms_accepts_peers_from_any_of_them() {
    let mut a = node("a");
    a.add_room_hash([0xAA; 8]);
    a.add_room_hash([0xBB; 8]);
    assert_eq!(a.room_hashes().len(), 2);
    let r = accept(&mut a, "wire", handshake("b", Some([0xBB; 8])), "mock");
    assert_eq!(r.result.unwrap(), "b");
    assert_eq!(a.connection_count(), 1);
}

#[test]
fn tests_node_rejects_peer_whose_room_is_not_in_set() {
    let mut a = node("a");
    a.add_room_hash([0xAA; 8]);
    a.add_room_hash([0xBB; 8]);
    let r = accept(&mut a, "wire", handshake("b", Some([0xCC; 8])), "mock");
    assert!(matches!(r.result, Err(MlinkError::RoomMismatch { .. })));
    let r = accept(&mut a, "wire", handshake("b", None), "mock");
    assert!(matches!(r.result, Err(MlinkError::RoomMismatch { .. })));
    assert_eq!(a.connection_count(), 0);
}

#[test]
fn tests_attach_connection_enables_send_recv_without_handshake() {
    let mut n = node("me");
    let event = n.attach_connection("mock-peer-b".to_string(), conn("c"));
    assert!(matches!(event, NodeEvent::PeerConnected { ref peer_id } if peer_id == "mock-peer-b"));
    assert_eq!(n.connection_count(), 1);
    assert_eq!(n.peer_state("mock-peer-b"), Some(NodeState::Connected));
    assert_eq!(n.state(), NodeState::Connected);
    let (c, bytes) = n.send_raw("mock-peer-b", MessageType::Message, b"hello").unwrap();
    assert_eq!(&*c, "c");
    let frame = decode_frame(&bytes).unwrap();
    let (_, _, mt) = decode_flags(frame.flags);
    assert_eq!(mt, MessageType::Message);
    assert_eq!(frame.payload, b"hello");
    let (_, bytes) = n.send_raw("mock-peer-b", MessageType::Message, b"hello").unwrap();
    assert_eq!(decode_frame(&bytes).unwrap().seq, frame.seq + 1);
}

#[test]
fn tests_accept_incoming_is_idempotent_when_already_connected() {
    let mut a = node("a");
    a.attach_connection("b".to_string(), conn("existing"));
    assert_eq!(a.connection_count(), 1);
    assert!(a.has_peer("b"));
    let r = accept(&mut a, "dup", handshake("b", None), "mock");
    assert_eq!(r.result.unwrap(), "b");
    assert_eq!(r.close.as_deref(), Some("dup"));
    assert_eq!(a.connection_count(), 1);
    assert_eq!(&*a.peer_conn("b").unwrap(), "existing");
}

#[test]
fn tests_has_peer_tracks_attach_and_disconnect() {
    let mut n = node("me");
    assert!(!n.has_peer("peer-x"));
    n.attach_connection("peer-x".to_string(), conn("c"));
    assert!(n.has_peer("peer-x"));
    let d = n.disconnect_peer("peer-x");
    assert_eq!(d.conns.len(), 1);
    assert!(matches!(d.event, NodeEvent::PeerDisconnected { ref peer_id } if peer_id == "peer-x"));
    assert!(!n.has_peer("peer-x"));
}

#[test]
fn tests_spawn_peer_reader_emits_message_received_event() {
    let mut a = node("a");
    let mut b = node("b");
    a.attach_connection("peer-b".to_string(), conn("x"));
    b.attach_connection("peer-a".to_string(), conn("y"));
    let (_, bytes) = b.send_raw("peer-a", MessageType::Message, b"hello chat").unwrap();
    match a.reader_step("peer-b", Ok(bytes)) {
        ReaderAction::Continue(Some(NodeEvent::MessageReceived { peer_id, payload })) => {
            assert_eq!(peer_id, "peer-b");
            assert_eq!(payload, b"hello chat".to_vec());
        }
        _ => panic!("expected MessageReceived"),
    }
    let (_, bytes) = b.send_raw("peer-a", MessageType::Request, b"q").unwrap();
    assert!(matches!(a.reader_step("peer-b", Ok(bytes)), ReaderAction::Continue(None)));
    let (_, bytes) = b.send_heartbeat("peer-a").unwrap();
    assert!(matches!(a.reader_step("peer-b", Ok(bytes)), ReaderAction::Continue(None)));
}

#[test]
fn reader_eof_cleans_up_connection_and_peer_manager() {
    let mut n = node("me");
    let r = accept(&mut n, "wire", handshake("bye-peer", None), "mock");
    assert!(r.result.is_ok());
    assert!(n.has_peer("bye-peer"));
    assert!(n.get_peer("bye-peer").is_some());
    match n.reader_step("bye-peer", Err(MlinkError::HandlerError("peer closed".to_string()))) {
        ReaderAction::Stop(d) => {
            assert!(matches!(d.event, NodeEvent::PeerDisconnected { ref peer_id } if peer_id == "bye-peer"));
        }
        _ => panic!("expected Stop"),
    }
    assert!(!n.has_peer("bye-peer"));
    assert!(n.get_peer("bye-peer").is_none());
    assert_eq!(n.connection_count(), 0);
    assert_eq!(n.peer_state("bye-peer"), Some(NodeState::Disconnected));
    // Nothing is left that would keep the peer from coming back.
    let r = accept(&mut n, "again", handshake("bye-peer", None), "mock");
    assert_eq!(r.result.unwrap(), "bye-peer");
    assert!(r.close.is_none());
    assert_eq!(n.connection_count(), 1);
}

#[test]
fn garbage_ends_the_reader() {
    let mut n = node("me");
    n.attach_connection("p".to_string(), conn("c"));
    assert!(matches!(n.reader_step("p", Ok(b"nonsense".to_vec())), ReaderAction::Stop(_)));
    assert!(!n.has_peer("p"));
}

#[test]
fn connect_peer_matching_room_happy_path() {
    let mut a = node("a");
    let room = [0x7Au8; 8];
    a.add_room_hash(room);
    let r = dial(&mut a, "wire-peer-b", handshake("b", Some(room)));
    assert_eq!(r.result.unwrap(), "b");
    assert_eq!(a.connection_count(), 1);
    assert!(a.has_peer("b"));
    assert_eq!(a.get_peer("b").unwrap().name, "node-b");
    assert_eq!(a.peers().len(), 1);
    let status = a.peer_link_status("b");
    assert_eq!(status.len(), 1);
    assert_eq!(status[0].kind, TransportKind::Tcp);
    assert_eq!(status[0].role, LinkRole::Active);
}

#[test]
fn connect_peer_dedup_when_already_connected() {
    let mut a = node("a");
    a.attach_connection("b".to_string(), conn("existing"));
    let r = dial(&mut a, "wire-b", handshake("b", None));
    assert_eq!(r.result.unwrap(), "b");
    assert_eq!(r.close.as_deref(), Some("wire-b"));
    assert_eq!(a.connection_count(), 1);
}

#[test]
fn connect_peer_rejects_mismatched_room() {
    let mut a = node("a");
    a.add_room_hash([0x01; 8]);
    let r = dial(&mut a, "wire-b", handshake("b", Some([0x02; 8])));
    assert!(matches!(r.result, Err(MlinkError::RoomMismatch { ref peer_id }) if peer_id == "wire-b"));
    assert_eq!(r.close.as_deref(), Some("wire-b"));
    assert_eq!(a.connection_count(), 0);
}

#[test]
fn second_transport_becomes_a_second_link() {
    let mut a = node("a");
    accept(&mut a, "first", handshake("b", None), "ble");
    let r = accept(&mut a, "second", handshake("b", None), "tcp");
    assert!(r.close.is_none());
    assert_eq!(r.events.len(), 1);
    assert!(matches!(r.events[0], NodeEvent::LinkAdded { .. }));
    assert_eq!(a.peer_link_status("b").len(), 2);
    assert_eq!(&*a.peer_conn("b").unwrap(), "second");
    let r = accept(&mut a, "third", handshake("b", None), "tcp");
    assert_eq!(r.close.as_deref(), Some("third"));
    assert_eq!(a.peer_link_status("b").len(), 2);
    assert_eq!(&*a.peer_conn("b").unwrap(), "second");
}

#[test]
fn secondary_links_need_a_session_and_a_new_kind() {
    let mut a = node("a");
    assert!(matches!(
        a.attach_secondary_link("b", conn("x"), TransportKind::Tcp),
        Err(MlinkError::HandlerError(ref m)) if m == "no session for peer b; cannot attach secondary"
    ));
    accept(&mut a, "first", handshake("b", None), "ble");
    let s = a.attach_secondary_link("b", conn("x"), TransportKind::Tcp).unwrap();
    assert!(s.link_id.starts_with("tcp:b:"));
    assert!(matches!(
        a.attach_secondary_link("b", conn("y"), TransportKind::Tcp),
        Err(MlinkError::HandlerError(ref m)) if m == "peer b already has a Tcp link"
    ));
    a.attach_secondary_link("b", conn("z"), TransportKind::Ipc).unwrap();
    a.attach_secondary_link("b", conn("w"), TransportKind::Mock).unwrap();
    assert!(matches!(
        a.attach_secondary_link("b", conn("v"), TransportKind::Mock),
        Err(MlinkError::HandlerError(ref m)) if m == "peer b reached MAX_LINKS_PER_PEER"
    ));
}

#[test]
fn link_ids_name_the_kind_and_the_peer() {
    assert_eq!(
        make_link_id_with(TransportKind::Tcp, "abcdefg-ijk", 0xBEEF),
        "tcp:abcdefg:0000beef"
    );
    let a = make_link_id(TransportKind::Ble, "peer");
    assert!(a.starts_with("ble:peer:"));
    assert_eq!(a.len(), "ble:peer:".len() + 8);
    assert_ne!(a, make_link_id(TransportKind::Ble, "peer"));
}

#[test]
fn default_capabilities_by_kind_and_by_name() {
    assert_eq!(default_caps_for_kind(TransportKind::Ble).throughput_bps, 200_000);
    assert_eq!(default_caps_for_kind(TransportKind::Ipc).max_peers, 16);
    assert_eq!(default_caps_for_wire("tcp").throughput_bps, 10_000_000);
    assert_eq!(default_caps_for_wire("staged").max_peers, 1);
}

#[test]
fn lost_and_reconnecting_peers_are_told() {
    let mut n = node("me");
    assert!(matches!(n.mark_lost("p"), NodeEvent::PeerLost { ref peer_id } if peer_id == "p"));
    assert!(matches!(
        n.mark_reconnecting("p", 3),
        NodeEvent::Reconnecting { ref peer_id, attempt: 3 } if peer_id == "p"
    ));
    assert_eq!(n.peer_state("p"), Some(NodeState::Reconnecting));
    assert_eq!(n.peer_state("q"), None);
}

#[test]
fn test_node_attach_and_send_raw() {
    let mut a = node("a");
    let mut b = node("b");
    a.attach_connection("b".to_string(), conn("x"));
    b.attach_connection("a".to_string(), conn("y"));
    let (_, bytes) = a.send_raw("b", MessageType::Message, b"hi").unwrap();
    let (frame, payload) = b.recv_raw("a", &bytes).unwrap();
    assert_eq!(decode_flags(frame.flags).2, MessageType::Message);
    assert_eq!(payload, b"hi");
}

#[test]
fn test_e2e_large_payload_roundtrip() {
    let mut a = node("a");
    let mut b = node("b");
    a.attach_connection("b".to_string(), conn("x"));
    b.attach_connection("a".to_string(), conn("y"));
    let payload: Vec<u8> = (0..16 * 1024).map(|i| (i % 251) as u8).collect();
    let (_, bytes) = a.send_raw("b", MessageType::Message, &payload).unwrap();
    let frame = decode_frame(&bytes).unwrap();
    assert_eq!(decode_flags(frame.flags), (true, false, MessageType::Message));
    assert_ne!(frame.payload, payload);
    assert_eq!(b.recv_raw("a", &bytes).unwrap().1, payload);
}

#[test]
fn test_node_encrypted_send_recv() {
    let mut a = node_with("a", true);
    let mut b = node_with("b", true);
    a.attach_connection("b".to_string(), conn("x"));
    b.attach_connection("a".to_string(), conn("y"));
    // Without a key nothing is encrypted, and nothing claims to be.
    let (_, bytes) = a.send_raw("b", MessageType::Message, b"plain").unwrap();
    assert_eq!(decode_flags(decode_frame(&bytes).unwrap().flags), (false, false, MessageType::Message));
    a.set_peer_aes_key("b", vec![7u8; 32]);
    b.set_peer_aes_key("a", vec![7u8; 32]);
    let (_, bytes) = a.send_raw("b", MessageType::Message, b"secret").unwrap();
    let frame = decode_frame(&bytes).unwrap();
    assert_eq!(decode_flags(frame.flags), (false, true, MessageType::Message));
    assert_ne!(frame.payload, b"secret");
    assert_eq!(b.recv_raw("a", &bytes).unwrap().1, b"secret");
    b.set_peer_aes_key("a", vec![8u8; 32]);
    assert!(matches!(b.recv_raw("a", &bytes), Err(MlinkError::SecurityError(_))));
}

#[test]
fn faults_of_sending_and_receiving() {
    let mut n = node_with("a", true);
    n.attach_connection("p".to_string(), conn("c"));
    // Bytes that do not compress below the limit.
    let mut x: u32 = 1;
    let noise: Vec<u8> = (0..70_000)
        .map(|_| {
            x = x.wrapping_mul(1_664_525).wrapping_add(1_013_904_223);
            (x >> 24) as u8
        })
        .collect();
    assert!(matches!(
        n.send_raw("p", MessageType::Message, &noise),
        Err(MlinkError::PayloadTooLarge { max: 0xFFFF, .. })
    ));
    n.set_peer_aes_key("p", vec![1u8; 5]);
    assert!(matches!(
        n.send_raw("p", MessageType::Message, b"x"),
        Err(MlinkError::SecurityError(_))
    ));
    assert!(matches!(n.recv_raw("p", b"short"), Err(MlinkError::CodecError(_))));
    let bad = encode_frame(&Frame {
        magic: MAGIC,
        version: PROTOCOL_VERSION,
        flags: encode_flags(true, false, MessageType::Message),
        seq: 0,
        length: 3,
        payload: vec![1, 2, 3],
    });
    assert!(matches!(n.recv_raw("p", &bad), Err(MlinkError::CompressError(_))));
}

#[test]
fn test_node_disconnect_removes_connection() {
    let mut n = node("a");
    n.attach_connection("p".to_string(), conn("c"));
    let _ = n.disconnect_peer("p");
    assert_eq!(n.connection_count(), 0);
    assert!(matches!(n.peer_conn("p"), Err(MlinkError::PeerGone { .. })));
    assert!(matches!(
        n.send_raw("p", MessageType::Message, b"x"),
        Err(MlinkError::PeerGone { .. })
    ));
}

#[test]
fn test_node_isolated_pairs() {
    let mut a = node("a");
    a.attach_connection("b".to_string(), conn("cb"));
    a.attach_connection("c".to_string(), conn("cc"));
    let (to_b, _) = a.send_raw("b", MessageType::Message, b"1").unwrap();
    let (to_c, _) = a.send_raw("c", MessageType::Message, b"2").unwrap();
    assert_eq!(&*to_b, "cb");
    assert_eq!(&*to_c, "cc");
}

#[test]
fn heartbeat_is_a_sign_of_life() {
    let mut a = node("a");
    let mut b = node("b");
    a.attach_connection("b".to_string(), conn("x"));
    b.attach_connection("a".to_string(), conn("y"));
    let (_, bytes) = a.send_heartbeat("b").unwrap();
    let (frame, payload) = b.recv_raw_at("a", &bytes, Instant::now()).unwrap();
    assert_eq!(decode_flags(frame.flags).2, MessageType::Heartbeat);
    assert!(payload.is_empty());
    assert!(b.check_heartbeat("a").unwrap());
}

#[test]
fn manager_add_and_count() {
    let mut mgr: ConnectionManager<str> = ConnectionManager::new();
    mgr.add("a".to_string(), conn("a"));
    mgr.add("b".to_string(), conn("b"));
    assert_eq!(mgr.count(), 2);
    let mut ids = mgr.list_ids();
    ids.sort();
    assert_eq!(ids, vec!["a".to_string(), "b".to_string()]);
}

#[test]
fn manager_remove_returns_conn() {
    let mut mgr: ConnectionManager<str> = ConnectionManager::new();
    mgr.add("a".to_string(), conn("a"));
    assert!(mgr.remove("a").is_some());
    assert_eq!(mgr.count(), 0);
    assert!(mgr.remove("a").is_none());
}

#[test]
fn manager_shared_returns_clone() {
    let mut mgr: ConnectionManager<str> = ConnectionManager::new();
    mgr.add("a".to_string(), conn("a"));
    assert_eq!(&*mgr.shared("a").expect("present"), "a");
    assert!(mgr.shared("missing").is_none());
}

#[test]
fn attach_link_async_creates_session_and_exposes_via_session_manager() {
    let mut mgr: ConnectionManager<str> = ConnectionManager::new();
    let (outcome, _) = mgr.attach_link_async(
        "peer-a",
        conn("peer-a"),
        TransportKind::Tcp,
        default_caps_for_kind(TransportKind::Tcp),
    );
    assert!(matches!(outcome, AttachOutcome::CreatedNew { .. }));
    assert!(mgr.session_manager().contains("peer-a"));
    let status = mgr.peer_link_status("peer-a");
    assert_eq!(status.len(), 1);
    assert_eq!(status[0].kind, TransportKind::Tcp);
}

fn two_links() -> ConnectionManager<str> {
    let mut mgr: ConnectionManager<str> = ConnectionManager::new();
    let (outcome, _) = mgr.attach_link_async(
        "peer-c",
        conn("peer-c"),
        TransportKind::Ble,
        default_caps_for_kind(TransportKind::Ble),
    );
    let sid = match outcome {
        AttachOutcome::CreatedNew { session_id } => session_id,
        _ => panic!("expected CreatedNew"),
    };
    let second = Link::new(
        "tcp:peer:1".to_string(),
        conn("second"),
        TransportKind::Tcp,
        default_caps_for_kind(TransportKind::Tcp),
    );
    let (outcome, _) = mgr.attach_secondary_link("peer-c", second, Some(sid));
    assert_eq!(outcome, AttachOutcome::AttachedExisting);
    mgr
}

#[test]
fn attach_secondary_link_merges_when_session_id_matches() {
    assert_eq!(two_links().peer_link_status("peer-c").len(), 2);
}

#[test]
fn switch_active_link_emits_manual_switched_event() {
    let mut mgr = two_links();
    match mgr.switch_active_link("peer-c", "tcp:peer:1").expect("switch ok") {
        Some(SessionEvent::Switched { to, cause, .. }) => {
            assert_eq!(to, "tcp:peer:1");
            assert_eq!(cause, SwitchCause::ManualUserRequest);
        }
        other => panic!("expected Switched, got {other:?}"),
    }
    assert!(mgr.switch_active_link("peer-c", "tcp:peer:1").unwrap().is_none());
}

#[test]
fn switch_active_link_rejects_unknown_peer_or_link() {
    let mut mgr = two_links();
    assert!(matches!(
        mgr.switch_active_link("nope", "tcp:xxx:0"),
        Err(MlinkError::NoHealthyLink { .. })
    ));
    assert!(matches!(
        mgr.switch_active_link("peer-c", "wrong-link"),
        Err(MlinkError::NoHealthyLink { .. })
    ));
}

#[test]
fn sync_and_async_paths_are_independent() {
    let mut mgr: ConnectionManager<str> = ConnectionManager::new();
    mgr.add("sync-peer".to_string(), conn("sync-peer"));
    assert!(mgr.contains("sync-peer"));
    assert_eq!(mgr.count(), 1);
    assert!(!mgr.session_manager().contains("sync-peer"));
    mgr.attach_link_async(
        "async-peer",
        conn("async-peer"),
        TransportKind::Tcp,
        default_caps_for_kind(TransportKind::Tcp),
    );
    assert!(!mgr.contains("async-peer"));
    assert!(mgr.session_manager().contains("async-peer"));
    assert!(mgr.drop_peer_async("async-peer").is_some());
    assert!(mgr.drop_peer_async("async-peer").is_none());
}

#[test]
fn perform_handshake_round_trip() {
    let sent = match perform_handshake(HandshakeEvent::Encoded(b"greetings".to_vec())) {
        HandshakeAction::Write(bytes) => bytes,
        _ => panic!("expected Write"),
    };
    let frame = decode_frame(&sent).unwrap();
    assert_eq!(decode_flags(frame.flags), (false, false, MessageType::Handshake));
    assert_eq!(frame.seq, 0);
    assert_eq!(frame.payload, b"greetings");
    assert!(matches!(
        perform_handshake(HandshakeEvent::Written(IoOutcome::Done(()))),
        HandshakeAction::Read
    ));
    match perform_handshake(HandshakeEvent::Received(IoOutcome::Done(sent))) {
        HandshakeAction::Decode(payload) => assert_eq!(payload, b"greetings"),
        _ => panic!("expected Decode"),
    }
}

#[test]
fn perform_handshake_rejects_non_handshake_reply() {
    let bogus = encode_frame(&Frame {
        magic: MAGIC,
        version: PROTOCOL_VERSION,
        flags: encode_flags(false, false, MessageType::Message),
        seq: 0,
        length: 0,
        payload: vec![],
    });
    assert!(matches!(
        perform_handshake(HandshakeEvent::Received(IoOutcome::Done(bogus))),
        HandshakeAction::Fail(MlinkError::CodecError(_))
    ));
    assert!(matches!(
        perform_handshake(HandshakeEvent::Received(IoOutcome::Done(vec![1, 2]))),
        HandshakeAction::Fail(MlinkError::CodecError(_))
    ));
}

#[test]
fn perform_handshake_times_out_on_silent_peer() {
    assert!(matches!(
        perform_handshake(HandshakeEvent::Received(IoOutcome::TimedOut)),
        HandshakeAction::Fail(MlinkError::HandlerError(ref msg)) if msg.contains("timed out")
    ));
    assert!(matches!(
        perform_handshake(HandshakeEvent::Written(IoOutcome::TimedOut)),
        HandshakeAction::Fail(MlinkError::HandlerError(ref msg)) if msg.contains("timed out")
    ));
    assert!(matches!(
        perform_handshake(HandshakeEvent::Written(IoOutcome::Failed(MlinkError::Backpressure))),
        HandshakeAction::Fail(MlinkError::Backpressure)
    ));
    assert_eq!(HANDSHAKE_IO_TIMEOUT, 10);
}

#[test]
fn perform_handshake_refuses_an_oversized_greeting() {
    assert!(matches!(
        perform_handshake(HandshakeEvent::Encoded(vec![0u8; 0x1_0000])),
        HandshakeAction::Fail(_)
    ));
}

#[test]
fn a_lost_connection_takes_only_its_own_link_along() {
    let mut a = node("a");
    accept(&mut a, "first", handshake("b", None), "ble");
    accept(&mut a, "second", handshake("b", None), "tcp");
    let d = a.disconnect_peer("b");
    assert_eq!(d.conns.len(), 1);
    assert_eq!(&*d.conns[0], "second");
    assert!(!a.has_peer("b"));
    let left = a.peer_link_status("b");
    assert_eq!(left.len(), 1);
    assert_eq!(left[0].kind, TransportKind::Ble);
    assert_eq!(left[0].role, LinkRole::Active);
    // The same kind of transport can be dialled again.
    let r = accept(&mut a, "third", handshake("b", None), "tcp");
    assert!(r.close.is_none());
    assert_eq!(a.peer_link_status("b").len(), 2);
    assert_eq!(&*a.peer_conn("b").unwrap(), "third");
}

#[test]
fn a_session_goes_with_its_last_link() {
    let mut a = node("a");
    accept(&mut a, "only", handshake("b", None), "tcp");
    assert!(matches!(a.reader_step("b", Ok(b"nonsense".to_vec())), ReaderAction::Stop(_)));
    assert!(a.peer_link_status("b").is_empty());
}

#[test]
fn a_connection_without_a_link_leaves_the_session_alone() {
    let mut a = node("a");
    accept(&mut a, "link", handshake("b", None), "tcp");
    a.attach_connection("b".to_string(), conn("bare"));
    let d = a.disconnect_peer("b");
    assert_eq!(&*d.conns[0], "bare");
    assert_eq!(a.peer_link_status("b").len(), 1);
}

#[test]
fn silence_is_measured_from_the_last_heartbeat() {
    let mut n = node("me");
    let at = Instant::now();
    n.attach_connection_at("p".to_string(), conn("c"), at);
    let almost = at + Duration::from_millis(HEARTBEAT_TIMEOUT * 1000 - 1);
    let over = at + Duration::from_secs(HEARTBEAT_TIMEOUT);
    assert!(n.check_heartbeat_at("p", at).unwrap());
    assert!(n.check_heartbeat_at("p", almost).unwrap());
    assert!(!n.check_heartbeat_at("p", over).unwrap());
    assert!(matches!(n.check_heartbeat_at("x", at), Err(MlinkError::PeerGone { .. })));
    let long_ago = at.checked_sub(Duration::from_secs(HEARTBEAT_TIMEOUT)).unwrap();
    n.attach_connection_at("q".to_string(), conn("d"), long_ago);
    assert!(!n.check_heartbeat("q").unwrap());
}

#[test]
fn a_lost_peer_is_disconnected() {
    let mut n = node("me");
    accept(&mut n, "wire", handshake("a", None), "tcp");
    n.attach_connection("b".to_string(), conn("cb"));
    assert_eq!(n.peer_state("a"), Some(NodeState::Connected));
    assert_eq!(n.peer_state("b"), Some(NodeState::Connected));
    let _ = n.stop();
    assert_eq!(n.peer_state("a"), Some(NodeState::Disconnected));
    assert_eq!(n.peer_state("b"), Some(NodeState::Disconnected));
}
