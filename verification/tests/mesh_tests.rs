use std::collections::HashSet;
use std::path::PathBuf;
use std::sync::Arc;
use std::time::{Duration, Instant};

use mlink_core::mesh::connection::{negotiate_role, Role};
use mlink_core::mesh::link::{Link, TransportKind, LINK_UNHEALTHY_ERR_MILLI};
use mlink_core::mesh::node::types::{NodeConfig, NodeState};
use mlink_core::mesh::peer::generate_app_uuid;
use mlink_core::mesh::reconnect::{
    ReconnectManager, ReconnectMode, ReconnectPolicy, StreamProgress,
};
use mlink_core::mesh::room::{generate_room_code, room_app_id, room_hash, RoomManager};
use mlink_core::mesh::security::{
    decrypt, derive_aes_key, derive_shared_secret, derive_verification_code, encrypt,
    generate_keypair, TrustStore, TrustedPeer,
};
use mlink_core::mesh::session::reader::ack_should_flush;
use mlink_core::mesh::session::types::{
    AckPending, SchedulerState, SessionEvent, ACK_MAX_DELAY_MS, ACK_MAX_PENDING,
    EXPLICIT_OVERRIDE_TTL_SECS, MAX_LINKS_PER_PEER, SWITCHBACK_HYSTERESIS,
};
use mlink_core::protocol::errors::MlinkError;
use mlink_core::transport::TransportCapabilities;

fn test_config() -> NodeConfig {
    NodeConfig {
        name: "test-node".into(),
        encrypt: false,
        trust_store_path: None,
    }
}

fn caps(throughput: u64) -> TransportCapabilities {
    TransportCapabilities {
        max_peers: 8,
        throughput_bps: throughput,
        latency_ms: 1,
        reliable: true,
        bidirectional: true,
    }
}

fn make_peer(uuid: &str) -> TrustedPeer {
    TrustedPeer {
        app_uuid: uuid.into(),
        public_key: vec![1, 2, 3],
        name: format!("peer-{}", uuid),
        trusted_at: "2026-04-19T00:00:00Z".into(),
    }
}

fn trusted(uuid: &str, name: &str) -> TrustedPeer {
    TrustedPeer {
        app_uuid: uuid.into(),
        public_key: vec![0xAA, 0xBB, 0xCC],
        name: name.into(),
        trusted_at: "2026-04-19T00:00:00Z".into(),
    }
}

fn make_link(kind: TransportKind, throughput: u64) -> Link<str> {
    Link::new(
        format!("{}:test:1", kind.as_wire()),
        Arc::from("connection"),
        kind,
        caps(throughput),
    )
}

#[test]
fn role_negotiation_smaller_uuid_is_central() {
    assert_eq!(negotiate_role("aaa", "bbb"), Role::Central);
    assert_eq!(negotiate_role("bbb", "aaa"), Role::Peripheral);
}

#[test]
fn role_negotiation_is_deterministic_pairwise() {
    let a = "uuid-a";
    let b = "uuid-z";
    let a_role = negotiate_role(a, b);
    let b_role = negotiate_role(b, a);
    assert_eq!(a_role, Role::Central);
    assert_eq!(b_role, Role::Peripheral);
}

#[test]
fn role_negotiation_handles_equal_uuids() {
    let r = negotiate_role("same", "same");
    assert_eq!(r, Role::Peripheral);
}

#[test]
fn node_node_state_is_copy() {
    let s = NodeState::Connecting;
    let t = s;
    assert_eq!(s, t);
}

#[test]
fn node_node_config_default_encrypt_false() {
    let c = NodeConfig::default();
    assert!(!c.encrypt);
    assert!(c.trust_store_path.is_none());
}

#[test]
fn node_test_config_helper_used() {
    let _c = test_config();
}

#[test]
fn tests_node_state_is_copy() {
    let s = NodeState::Connecting;
    let t = s;
    assert_eq!(s, t);
}

#[test]
fn tests_node_config_default_encrypt_false() {
    let c = NodeConfig::default();
    assert!(!c.encrypt);
    assert!(c.trust_store_path.is_none());
}

#[test]
fn tests_test_config_helper_used() {
    let _c = test_config();
}

#[test]
fn generate_app_uuid_is_unique() {
    let a = generate_app_uuid();
    let b = generate_app_uuid();
    assert_ne!(a, b);
    assert_eq!(a.len(), 36);
}

#[test]
fn generate_room_code_is_six_digits() {
    for _ in 0..50 {
        let c = generate_room_code();
        assert_eq!(c.len(), 6);
        assert!(c.chars().all(|ch| ch.is_ascii_digit()));
    }
}

#[test]
fn generate_room_code_preserves_leading_zeros() {
    let c = "000042".to_string();
    assert_eq!(c.len(), 6);
    let formatted = format!("{:06}", 42u32);
    assert_eq!(formatted, "000042");
}

#[test]
fn room_hash_is_deterministic() {
    let a = room_hash("123456");
    let b = room_hash("123456");
    assert_eq!(a, b);
}

#[test]
fn room_hash_differs_per_code() {
    let a = room_hash("111111");
    let b = room_hash("222222");
    assert_ne!(a, b);
}

#[test]
fn room_hash_is_eight_bytes() {
    let h = room_hash("000000");
    assert_eq!(h.len(), 8);
}

#[test]
fn room_app_id_is_32_hex_chars() {
    let id = room_app_id("my-uuid", "123456");
    assert_eq!(id.len(), 32);
    assert!(id.chars().all(|c| c.is_ascii_hexdigit()));
}

#[test]
fn room_app_id_is_deterministic() {
    let a = room_app_id("uuid-x", "654321");
    let b = room_app_id("uuid-x", "654321");
    assert_eq!(a, b);
}

#[test]
fn room_app_id_differs_per_uuid() {
    let a = room_app_id("uuid-a", "123456");
    let b = room_app_id("uuid-b", "123456");
    assert_ne!(a, b);
}

#[test]
fn room_app_id_differs_per_code() {
    let a = room_app_id("uuid-x", "111111");
    let b = room_app_id("uuid-x", "222222");
    assert_ne!(a, b);
}

#[test]
fn manager_join_and_is_joined() {
    let mut m = RoomManager::new();
    assert!(!m.is_joined("123456"));
    let state = m.join("123456");
    assert_eq!(state.code, "123456");
    assert_eq!(state.hash, room_hash("123456"));
    assert!(state.peers.is_empty());
    assert!(m.is_joined("123456"));
}

#[test]
fn manager_leave_returns_state() {
    let mut m = RoomManager::new();
    m.join("123456");
    let left = m.leave("123456");
    assert!(left.is_some());
    assert!(!m.is_joined("123456"));
    assert!(m.leave("123456").is_none());
}

#[test]
fn manager_list_returns_all_rooms() {
    let mut m = RoomManager::new();
    m.join("111111");
    m.join("222222");
    assert_eq!(m.list().len(), 2);
}

#[test]
fn manager_active_hashes_matches_rooms() {
    let mut m = RoomManager::new();
    m.join("111111");
    m.join("222222");
    let hashes = m.active_hashes();
    assert_eq!(hashes.len(), 2);
    assert!(hashes.contains(&room_hash("111111")));
    assert!(hashes.contains(&room_hash("222222")));
}

#[test]
fn manager_add_and_remove_peer() {
    let mut m = RoomManager::new();
    m.join("123456");
    m.add_peer("123456", "peer-1");
    m.add_peer("123456", "peer-2");
    m.add_peer("123456", "peer-1");
    let peers = m.peers("123456");
    assert_eq!(peers.len(), 2);

    m.remove_peer("123456", "peer-1");
    let peers = m.peers("123456");
    assert_eq!(peers, vec!["peer-2".to_string()]);
}

#[test]
fn manager_peers_on_missing_room_empty() {
    let m = RoomManager::new();
    assert!(m.peers("nope").is_empty());
}

#[test]
fn manager_add_peer_on_missing_room_is_noop() {
    let mut m = RoomManager::new();
    m.add_peer("nope", "peer-1");
    assert!(m.peers("nope").is_empty());
}

#[test]
fn keypair_has_32_byte_public() {
    let kp = generate_keypair().expect("gen");
    assert_eq!(kp.public_key_bytes.len(), 32);
}

#[test]
fn ecdh_both_sides_agree() {
    let a = generate_keypair().expect("a");
    let b = generate_keypair().expect("b");
    let a_pub = a.public_key_bytes.clone();
    let b_pub = b.public_key_bytes.clone();

    let a_shared = derive_shared_secret(a.private, &b_pub).expect("a shared");
    let b_shared = derive_shared_secret(b.private, &a_pub).expect("b shared");

    assert_eq!(a_shared, b_shared);
    assert!(!a_shared.is_empty());
}

#[test]
fn verification_code_is_six_digits() {
    let secret = vec![0xFF, 0xFF, 0xFF, 0xFF, 0xAA, 0xBB];
    let code = derive_verification_code(&secret);
    assert!(code < 1_000_000);
}

#[test]
fn verification_code_same_secret_same_code() {
    let secret = vec![0x12, 0x34, 0x56, 0x78];
    assert_eq!(
        derive_verification_code(&secret),
        derive_verification_code(&secret)
    );
}

#[test]
fn verification_code_handles_short_secret() {
    let short = vec![0x01, 0x02];
    let code = derive_verification_code(&short);
    assert!(code < 1_000_000);
}

#[test]
fn derive_aes_key_is_32_bytes_and_stable() {
    let secret = b"some-shared-secret-from-ecdh";
    let k1 = derive_aes_key(secret);
    let k2 = derive_aes_key(secret);
    assert_eq!(k1.len(), 32);
    assert_eq!(k1, k2);
}

#[test]
fn different_secrets_give_different_keys() {
    let a = derive_aes_key(b"secret-a");
    let b = derive_aes_key(b"secret-b");
    assert_ne!(a, b);
}

#[test]
fn encrypt_decrypt_round_trip() {
    let key = derive_aes_key(b"shared");
    let plaintext = b"hello mlink";
    let ct = encrypt(plaintext, &key, 42).expect("encrypt");
    assert_ne!(&ct[..], plaintext);
    assert!(ct.len() > plaintext.len(), "tag should be appended");
    let pt = decrypt(&ct, &key, 42).expect("decrypt");
    assert_eq!(pt, plaintext);
}

#[test]
fn decrypt_wrong_seq_fails() {
    let key = derive_aes_key(b"shared");
    let ct = encrypt(b"payload", &key, 10).expect("encrypt");
    let err = decrypt(&ct, &key, 11).unwrap_err();
    assert!(matches!(err, MlinkError::SecurityError(_)));
}

#[test]
fn decrypt_wrong_key_fails() {
    let key_a = derive_aes_key(b"a");
    let key_b = derive_aes_key(b"b");
    let ct = encrypt(b"payload", &key_a, 1).expect("encrypt");
    let err = decrypt(&ct, &key_b, 1).unwrap_err();
    assert!(matches!(err, MlinkError::SecurityError(_)));
}

#[test]
fn encrypt_rejects_bad_key_len() {
    let err = encrypt(b"x", &[0u8; 16], 0).unwrap_err();
    assert!(matches!(err, MlinkError::SecurityError(_)));
}

#[test]
fn trust_store_new_on_missing_file() {
    let path = PathBuf::from("trusted.json");
    let store = TrustStore::new(path, Vec::new());
    assert!(store.list().is_empty());
}

#[test]
fn trust_store_add_and_query() {
    let path = PathBuf::from("trusted.json");
    let mut store = TrustStore::new(path, Vec::new());

    store.add(make_peer("uuid-a"));
    assert!(store.is_trusted("uuid-a"));
    assert!(!store.is_trusted("uuid-b"));
    assert_eq!(store.list().len(), 1);
}

#[test]
fn trust_store_add_updates_existing() {
    let path = PathBuf::from("trusted.json");
    let mut store = TrustStore::new(path, Vec::new());

    store.add(make_peer("uuid-a"));
    let mut updated = make_peer("uuid-a");
    updated.name = "renamed".into();
    store.add(updated);

    assert_eq!(store.list().len(), 1);
    assert_eq!(store.get("uuid-a").unwrap().name, "renamed");
}

#[test]
fn trust_store_remove() {
    let path = PathBuf::from("trusted.json");
    let mut store = TrustStore::new(path, Vec::new());

    store.add(make_peer("uuid-a"));
    store.add(make_peer("uuid-b"));
    store.remove("uuid-a");

    assert!(!store.is_trusted("uuid-a"));
    assert!(store.is_trusted("uuid-b"));
}

#[test]
fn ack_should_flush_honors_count_threshold() {
    let p = AckPending {
        count: ACK_MAX_PENDING as u32,
        first_pending_at: Some(Instant::now()),
    };
    assert!(ack_should_flush(&p));
}

#[test]
fn ack_should_flush_false_when_empty() {
    let p = AckPending::default();
    assert!(!ack_should_flush(&p));
}

#[test]
fn constants_match_contract() {
    assert_eq!(MAX_LINKS_PER_PEER, 4);
    assert_eq!(SWITCHBACK_HYSTERESIS, 3);
    assert_eq!(ACK_MAX_DELAY_MS, 50);
    assert_eq!(ACK_MAX_PENDING, 8);
    assert_eq!(EXPLICIT_OVERRIDE_TTL_SECS, 600);
}

#[test]
fn scheduler_state_default_is_empty() {
    let s = SchedulerState::default();
    assert!(s.better_streak.is_empty());
    assert_eq!(s.tick, 0);
}

#[test]
fn session_event_is_clone() {
    let ev = SessionEvent::LinkAdded {
        peer_id: "p".into(),
        link_id: "l".into(),
        kind: TransportKind::Tcp,
    };
    let ev2 = ev.clone();
    match ev2 {
        SessionEvent::LinkAdded { peer_id, .. } => assert_eq!(peer_id, "p"),
        _ => panic!("clone variant mismatch"),
    }
}

#[test]
fn transport_kind_wire_roundtrip() {
    for k in [
        TransportKind::Ble,
        TransportKind::Tcp,
        TransportKind::Ipc,
        TransportKind::Mock,
    ] {
        assert_eq!(TransportKind::from_wire(k.as_wire()), Some(k));
    }
    assert_eq!(TransportKind::from_wire("zigbee"), None);
}

#[test]
fn initial_state_is_healthy() {
    let l = make_link(TransportKind::Tcp, 1_000_000);
    assert!(l.is_healthy());
    assert_eq!(l.health().inflight, 0);
}

#[test]
fn score_rewards_throughput_penalises_rtt_and_errors() {
    let fast = make_link(TransportKind::Tcp, 1_000_000);
    let slow = make_link(TransportKind::Ble, 100_000);
    assert!(fast.score() > slow.score());

    let mut high_rtt = make_link(TransportKind::Tcp, 1_000_000);
    high_rtt.record_rtt(1_000_000);
    let mut low_rtt = make_link(TransportKind::Tcp, 1_000_000);
    low_rtt.record_rtt(1_000);
    assert!(low_rtt.score() > high_rtt.score());

    let mut erroring = make_link(TransportKind::Tcp, 1_000_000);
    for _ in 0..64 {
        erroring.record_error();
    }
    let clean = make_link(TransportKind::Tcp, 1_000_000);
    assert!(clean.score() > erroring.score());
}

#[test]
fn is_healthy_falls_after_sustained_errors() {
    let mut l = make_link(TransportKind::Tcp, 1_000_000);
    for _ in 0..64 {
        l.record_error();
    }
    assert!(l.health().err_rate_milli >= LINK_UNHEALTHY_ERR_MILLI);
    assert!(!l.is_healthy());
}

#[test]
fn record_success_recovers_health() {
    let mut l = make_link(TransportKind::Tcp, 1_000_000);
    for _ in 0..64 {
        l.record_error();
    }
    assert!(!l.is_healthy());
    for _ in 0..200 {
        l.record_success();
    }
    assert!(l.health().err_rate_milli < LINK_UNHEALTHY_ERR_MILLI);
    assert!(l.is_healthy());
}

#[test]
fn record_rtt_updates_ema_and_last_ok() {
    let mut l = make_link(TransportKind::Tcp, 1_000_000);
    l.record_rtt(800);
    assert_eq!(l.health().rtt_ema_us, 800);
    l.record_rtt(1600);
    assert_eq!(l.health().rtt_ema_us, 900);
}

#[test]
fn inflight_counters_are_saturating() {
    let mut l = make_link(TransportKind::Tcp, 1_000_000);
    l.dec_inflight();
    assert_eq!(l.health().inflight, 0);
    l.inc_inflight();
    l.inc_inflight();
    assert_eq!(l.health().inflight, 2);
    l.dec_inflight();
    assert_eq!(l.health().inflight, 1);
}

#[test]
fn test_generate_app_uuid() {
    let uuid = generate_app_uuid();
    assert_eq!(uuid.len(), 36, "uuid length should be 36, got {}", uuid);

    let parts: Vec<&str> = uuid.split('-').collect();
    assert_eq!(parts.len(), 5, "uuid should have 5 hyphen-separated parts: {}", uuid);
    assert_eq!(parts[0].len(), 8, "part 0 should be 8 chars: {}", parts[0]);
    assert_eq!(parts[1].len(), 4, "part 1 should be 4 chars: {}", parts[1]);
    assert_eq!(parts[2].len(), 4, "part 2 should be 4 chars: {}", parts[2]);
    assert_eq!(parts[3].len(), 4, "part 3 should be 4 chars: {}", parts[3]);
    assert_eq!(parts[4].len(), 12, "part 4 should be 12 chars: {}", parts[4]);

    for part in parts {
        assert!(
            part.chars().all(|c| c.is_ascii_hexdigit()),
            "non-hex char in part: {}",
            part
        );
    }

    let a = generate_app_uuid();
    let b = generate_app_uuid();
    assert_ne!(a, b, "uuids should be unique per call");
}

#[test]
fn test_negotiate_role_central() {
    assert_eq!(negotiate_role("aaa", "bbb"), Role::Central);
    assert_eq!(negotiate_role("uuid-1", "uuid-2"), Role::Central);
}

#[test]
fn test_negotiate_role_peripheral() {
    assert_eq!(negotiate_role("bbb", "aaa"), Role::Peripheral);
    assert_eq!(negotiate_role("uuid-2", "uuid-1"), Role::Peripheral);
}

#[test]
fn test_negotiate_role_equal() {
    assert_eq!(negotiate_role("same", "same"), Role::Peripheral);
}

#[test]
fn test_ecdh_shared_secret() {
    let kp_a = generate_keypair().expect("kp a");
    let kp_b = generate_keypair().expect("kp b");

    let a_pub = kp_a.public_key_bytes.clone();
    let b_pub = kp_b.public_key_bytes.clone();

    let secret_a = derive_shared_secret(kp_a.private, &b_pub).expect("a derive");
    let secret_b = derive_shared_secret(kp_b.private, &a_pub).expect("b derive");

    assert_eq!(secret_a, secret_b, "ECDH secrets must agree");
    assert!(!secret_a.is_empty());
    assert_eq!(secret_a.len(), 32, "X25519 shared secret is 32 bytes");
}

#[test]
fn test_verification_code() {
    let secret = vec![0x12, 0x34, 0x56, 0x78, 0x9a, 0xbc];

    let code1 = derive_verification_code(&secret);
    let code2 = derive_verification_code(&secret);
    assert_eq!(code1, code2, "same secret -> same code");

    assert!(code1 < 1_000_000, "verification code must fit in 6 digits, got {}", code1);

    let different = derive_verification_code(&[0xde, 0xad, 0xbe, 0xef]);
    assert_ne!(code1, different, "different secrets should almost always yield different codes");
}

#[test]
fn test_encrypt_decrypt_roundtrip() {
    let key = derive_aes_key(b"unit-test-secret");
    let plaintext = b"hello from phase4 tests";
    let ciphertext = encrypt(plaintext, &key, 7).expect("encrypt");

    assert_ne!(&ciphertext[..], plaintext, "ciphertext must differ from plaintext");
    assert!(
        ciphertext.len() > plaintext.len(),
        "ciphertext must include GCM tag"
    );

    let recovered = decrypt(&ciphertext, &key, 7).expect("decrypt");
    assert_eq!(recovered, plaintext);
}

#[test]
fn test_decrypt_wrong_key() {
    let key_right = derive_aes_key(b"right");
    let key_wrong = derive_aes_key(b"wrong");
    assert_ne!(key_right, key_wrong);

    let ciphertext = encrypt(b"payload", &key_right, 1).expect("encrypt");
    let err = decrypt(&ciphertext, &key_wrong, 1).expect_err("wrong key must fail");
    assert!(matches!(err, MlinkError::SecurityError(_)));
}

#[test]
fn test_decrypt_wrong_seq() {
    let key = derive_aes_key(b"seq-test");
    let ciphertext = encrypt(b"payload", &key, 10).expect("encrypt");

    let err = decrypt(&ciphertext, &key, 11).expect_err("wrong seq must fail");
    assert!(matches!(err, MlinkError::SecurityError(_)));
}

#[test]
fn test_trust_store_crud() {
    let path = PathBuf::from("trusted.json");
    let mut store = TrustStore::new(path, Vec::new());

    assert!(store.list().is_empty());
    assert!(!store.is_trusted("uuid-x"));

    store.add(trusted("uuid-x", "Alice"));
    store.add(trusted("uuid-y", "Bob"));

    assert!(store.is_trusted("uuid-x"));
    assert!(store.is_trusted("uuid-y"));
    assert!(!store.is_trusted("uuid-z"));
    assert_eq!(store.list().len(), 2);

    store.remove("uuid-x");
    assert!(!store.is_trusted("uuid-x"));
    assert!(store.is_trusted("uuid-y"));
    assert_eq!(store.list().len(), 1);
}

#[test]
fn test_exponential_backoff() {
    let mut p = ReconnectPolicy::new();
    let d0 = p.next_delay().expect("fg");
    assert_eq!(d0, Duration::ZERO, "first attempt should be immediate");

    let d1 = p.next_delay().expect("fg");
    assert_eq!(d1, Duration::from_secs(1), "2nd attempt = 1s");

    let d2 = p.next_delay().expect("fg");
    assert_eq!(d2, Duration::from_secs(2), "3rd attempt = 2s");

    let d3 = p.next_delay().expect("fg");
    assert_eq!(d3, Duration::from_secs(4), "4th attempt = 4s");

    let d4 = p.next_delay().expect("fg");
    assert_eq!(d4, Duration::from_secs(8), "5th attempt = 8s");
}

#[test]
fn test_backoff_cap_60s() {
    let mut p = ReconnectPolicy::new();
    for _ in 0..20 {
        if let Some(d) = p.next_delay() {
            assert!(
                d <= Duration::from_secs(60),
                "foreground delay exceeded 60s cap: {:?}",
                d
            );
        }
    }
    let capped = p.next_delay().unwrap_or(Duration::ZERO);
    assert_eq!(capped, Duration::from_secs(60), "should cap at 60s");
}

#[test]
fn test_reset() {
    let mut p = ReconnectPolicy::new();
    for _ in 0..5 {
        p.next_delay();
    }
    assert!(p.attempt() > 0, "attempt should have incremented");

    p.reset();
    assert_eq!(p.attempt(), 0, "reset should zero attempt");
    assert_eq!(p.mode(), ReconnectMode::Foreground, "reset to foreground");

    let d = p.next_delay().expect("post-reset delay");
    assert_eq!(d, Duration::ZERO, "first attempt after reset = 0");
}

#[test]
fn phase5_tests_test_stream_progress() {
    let mut m = ReconnectManager::new();
    let p1 = StreamProgress {
        stream_id: 1,
        received_bitmap: vec![0xff, 0x0f],
        total_chunks: 12,
    };
    let p2 = StreamProgress {
        stream_id: 2,
        received_bitmap: vec![0xaa],
        total_chunks: 8,
    };
    m.record_stream_progress(p1);
    m.record_stream_progress(p2);

    let mut taken = m.take_resume_streams();
    taken.sort_by_key(|s| s.stream_id);
    assert_eq!(taken.len(), 2);
    assert_eq!(taken[0].stream_id, 1);
    assert_eq!(taken[0].received_bitmap, vec![0xff, 0x0f]);
    assert_eq!(taken[0].total_chunks, 12);
    assert_eq!(taken[1].stream_id, 2);
    assert_eq!(taken[1].received_bitmap, vec![0xaa]);
    assert_eq!(taken[1].total_chunks, 8);

    let again = m.take_resume_streams();
    assert!(again.is_empty(), "take should drain the manager");
}

#[test]
fn test_generate_room_code_format() {
    for _ in 0..64 {
        let code = generate_room_code();
        assert_eq!(code.len(), 6, "expected 6-char code, got {:?}", code);
        assert!(
            code.chars().all(|c| c.is_ascii_digit()),
            "expected all digits, got {:?}",
            code
        );
    }
}

#[test]
fn test_generate_room_code_unique() {
    let mut seen = HashSet::new();
    let mut collisions = 0usize;
    for _ in 0..256 {
        let c = generate_room_code();
        if !seen.insert(c) {
            collisions += 1;
        }
    }
    assert!(
        collisions <= 2,
        "too many collisions ({collisions}/256) — RNG quality likely broken"
    );
}

#[test]
fn test_room_hash_consistency() {
    let a = room_hash("123456");
    let b = room_hash("123456");
    assert_eq!(a, b, "same code must produce same hash");
    assert_eq!(a.len(), 8);
}

#[test]
fn test_room_hash_different_codes() {
    let a = room_hash("123456");
    let b = room_hash("654321");
    assert_ne!(a, b, "distinct codes must hash differently");
}

#[test]
fn test_room_app_id_isolation() {
    let uuid = "11111111-2222-3333-4444-555555555555";
    let id_a = room_app_id(uuid, "123456");
    let id_b = room_app_id(uuid, "654321");

    assert_ne!(id_a, id_b, "same uuid + different rooms must unlink");
    assert_eq!(id_a, room_app_id(uuid, "123456"));
    assert_eq!(id_a.len(), 32, "expected 16-byte hex id, got {id_a:?}");
    assert!(id_a.chars().all(|c| c.is_ascii_hexdigit()));
}

#[test]
fn test_room_manager_join_leave() {
    let mut mgr = RoomManager::new();
    assert!(!mgr.is_joined("123456"));
    assert!(mgr.list().is_empty());

    let state = mgr.join("123456");
    assert_eq!(state.code, "123456");
    assert_eq!(state.hash, room_hash("123456"));
    assert!(mgr.is_joined("123456"));
    assert_eq!(mgr.list().len(), 1);

    mgr.join("123456");
    assert_eq!(mgr.list().len(), 1);

    mgr.join("654321");
    let mut codes: Vec<String> = mgr.list().iter().map(|r| r.code.clone()).collect();
    codes.sort();
    assert_eq!(codes, vec!["123456".to_string(), "654321".to_string()]);

    let gone = mgr.leave("123456");
    assert!(gone.is_some(), "leave must return the removed state");
    assert!(!mgr.is_joined("123456"));
    assert!(mgr.is_joined("654321"));

    mgr.leave("654321");
    assert!(mgr.list().is_empty());
    assert!(mgr.leave("nope").is_none());
}

#[test]
fn test_room_manager_peers() {
    let mut mgr = RoomManager::new();
    mgr.join("123456");

    mgr.add_peer("123456", "peer-a");
    mgr.add_peer("123456", "peer-b");

    let mut peers = mgr.peers("123456");
    peers.sort();
    assert_eq!(peers, vec!["peer-a".to_string(), "peer-b".to_string()]);

    mgr.add_peer("123456", "peer-a");
    assert_eq!(mgr.peers("123456").len(), 2);

    mgr.remove_peer("123456", "peer-a");
    assert_eq!(mgr.peers("123456"), vec!["peer-b".to_string()]);

    assert!(mgr.peers("999999").is_empty());
}

#[test]
fn test_room_manager_active_hashes() {
    let mut mgr = RoomManager::new();
    mgr.join("111111");
    mgr.join("222222");
    mgr.join("333333");

    let mut got = mgr.active_hashes();
    got.sort();

    let mut expected = vec![
        room_hash("111111"),
        room_hash("222222"),
        room_hash("333333"),
    ];
    expected.sort();

    assert_eq!(got, expected, "active_hashes must cover all joined rooms");

    mgr.leave("222222");
    let got = mgr.active_hashes();
    assert_eq!(got.len(), 2);
    assert!(!got.contains(&room_hash("222222")));
}

#[test]
fn test_room_join_creates_state() {
    let mut mgr = RoomManager::new();
    assert!(!mgr.is_joined("424242"));

    let state = mgr.join("424242");
    assert_eq!(state.code, "424242");
    assert_eq!(state.hash, room_hash("424242"));
    assert!(mgr.is_joined("424242"));
    assert_eq!(mgr.list().len(), 1);
}

#[test]
fn test_room_distinct_managers_do_not_share_state() {
    let mut a = RoomManager::new();
    let b = RoomManager::new();
    a.join("123456");
    assert!(a.is_joined("123456"));
    assert!(!b.is_joined("123456"));
}
