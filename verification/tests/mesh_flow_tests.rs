use std::path::PathBuf;
use std::sync::Arc;
use std::time::{Duration, Instant};

use mlink_core::mesh::connection::{negotiate_role, Role};
use mlink_core::mesh::link::{Link, TransportKind};
use mlink_core::mesh::payload::{frame_body, pack_payload, unpack_payload};
use mlink_core::mesh::peer::{
    choose_app_uuid, generate_app_uuid, is_white_space, AppUuid, Peer, PeerManager,
};
use mlink_core::mesh::reconnect::{ReconnectManager, ReconnectMode, ReconnectPolicy, StreamProgress};
use mlink_core::mesh::room::{room_app_id, room_code, room_hash};
use mlink_core::mesh::scanner::{metadata_matches_any_room, Scanner, DEFAULT_SCAN_INTERVAL};
use mlink_core::mesh::security::{
    decrypt, derive_aes_key, derive_shared_secret, derive_verification_code, encrypt,
    generate_keypair, keypair_of, TrustStore, TrustedPeer,
};
use mlink_core::protocol::errors::MlinkError;
use mlink_core::protocol::types::MessageType;
use mlink_core::transport::{DiscoveredPeer, TransportCapabilities};

fn peer(id: &str) -> DiscoveredPeer {
    peer_with_meta(id, Vec::new())
}

fn peer_with_meta(id: &str, metadata: Vec<u8>) -> DiscoveredPeer {
    DiscoveredPeer {
        id: id.to_string(),
        name: format!("name-{id}"),
        rssi: Some(-50),
        metadata,
    }
}

fn scanner() -> Scanner {
    Scanner::new("self-uuid".to_string())
}

fn record(id: &str) -> Peer {
    Peer {
        id: id.to_string(),
        name: format!("name-{id}"),
        app_uuid: id.to_string(),
        connected_at: Instant::now(),
        transport_id: "mock".to_string(),
    }
}

fn trusted(uuid: &str, name: &str) -> TrustedPeer {
    TrustedPeer {
        app_uuid: uuid.to_string(),
        public_key: vec![1, 2, 3],
        name: name.to_string(),
        trusted_at: "now".to_string(),
    }
}

fn unhex(s: &str) -> Vec<u8> {
    (0..s.len() / 2).map(|i| u8::from_str_radix(&s[2 * i..2 * i + 2], 16).unwrap()).collect()
}

#[test]
fn discover_once_returns_new_peers() {
    let mut s = scanner();
    let got = s.discover_once(vec![peer("a"), peer("b")]);
    assert_eq!(got.len(), 2);
    assert_eq!(s.seen_count(), 2);
}

#[test]
fn discover_once_dedupes_across_calls() {
    let mut s = scanner();
    assert_eq!(s.discover_once(vec![peer("a"), peer("b")]).len(), 2);
    let second = s.discover_once(vec![peer("b"), peer("c")]);
    assert_eq!(second.len(), 1);
    assert_eq!(second[0].id, "c");
    assert_eq!(s.seen_count(), 3);
    assert!(s.discover_once(vec![peer("b"), peer("c")]).is_empty());
}

#[test]
fn discover_once_filters_self() {
    let mut s = scanner();
    let got = s.discover_once(vec![peer("self-uuid"), peer("b")]);
    assert_eq!(got.len(), 1);
    assert_eq!(got[0].id, "b");
    assert_eq!(s.seen_count(), 1);
}

#[test]
fn reset_clears_seen() {
    let mut s = scanner();
    s.discover_once(vec![peer("a")]);
    assert_eq!(s.seen_count(), 1);
    s.reset();
    assert_eq!(s.seen_count(), 0);
    assert_eq!(s.discover_once(vec![peer("a")]).len(), 1);
}

#[test]
fn with_interval_sets_custom_interval() {
    assert_eq!(scanner().scan_interval(), Duration::from_secs(DEFAULT_SCAN_INTERVAL));
    let s = scanner().with_interval(Duration::from_millis(42));
    assert_eq!(s.scan_interval(), Duration::from_millis(42));
    assert_eq!(s.app_uuid(), "self-uuid");
}

#[test]
fn no_room_hashes_means_no_filter() {
    let mut s = scanner();
    let got = s.discover_once(vec![peer_with_meta("a", vec![1, 2, 3]), peer("b")]);
    assert_eq!(got.len(), 2);
}

#[test]
fn room_hash_filter_keeps_matching_peers() {
    let hash: [u8; 8] = [0xAA, 0xBB, 0xCC, 0xDD, 0xEE, 0xFF, 0x00, 0x11];
    let mut meta_with = vec![0x01, 0x02];
    meta_with.extend_from_slice(&hash);
    meta_with.push(0x99);
    let mut s = scanner();
    s.set_room_hashes(vec![hash]);
    let mut got = s.discover_once(vec![
        peer_with_meta("a", meta_with),
        peer_with_meta("b", vec![0, 0, 0, 0, 0, 0, 0, 0]),
        peer("c"),
    ]);
    got.sort_by(|a, b| a.id.cmp(&b.id));
    assert_eq!(got.len(), 2);
    assert_eq!(got[0].id, "a");
    assert_eq!(got[1].id, "c");
}

#[test]
fn empty_metadata_passes_under_room_filter() {
    let mut s = scanner();
    s.set_room_hashes(vec![[9; 8]]);
    let got = s.discover_once(vec![peer("x")]);
    assert_eq!(got.len(), 1);
    assert_eq!(got[0].id, "x");
}

#[test]
fn room_hash_filter_matches_any_of_multiple() {
    let mut s = scanner();
    s.set_room_hashes(vec![[1; 8], [2; 8]]);
    let mut got = s.discover_once(vec![
        peer_with_meta("a", vec![1; 8]),
        peer_with_meta("b", vec![2; 8]),
        peer_with_meta("c", vec![9; 8]),
    ]);
    got.sort_by(|a, b| a.id.cmp(&b.id));
    assert_eq!(got.len(), 2);
    assert_eq!(got[0].id, "a");
    assert_eq!(got[1].id, "b");
}

#[test]
fn unsee_allows_peer_to_resurface() {
    let mut s = scanner();
    assert_eq!(s.discover_once(vec![peer("a")]).len(), 1);
    assert_eq!(s.discover_once(vec![peer("a")]).len(), 0);
    s.unsee("a");
    let again = s.discover_once(vec![peer("a")]);
    assert_eq!(again.len(), 1);
    assert_eq!(again[0].id, "a");
}

#[test]
fn set_room_hashes_stores_hashes() {
    let mut s = scanner();
    s.set_room_hashes(vec![[1; 8]]);
    assert_eq!(s.room_hashes(), &[[1u8; 8]]);
}

#[test]
fn rooms_are_found_anywhere_in_the_metadata() {
    assert!(metadata_matches_any_room(&[0, 7, 7, 7, 7, 7, 7, 7, 7], &[[7; 8]]));
    assert!(!metadata_matches_any_room(&[7; 7], &[[7; 8]]));
    assert!(!metadata_matches_any_room(&[6; 8], &[[7; 8]]));
    // Without rooms there is no filter.
    assert!(metadata_matches_any_room(&[6; 8], &[]));
}

#[test]
fn add_and_get() {
    let mut m = PeerManager::new();
    m.add(record("a"));
    assert_eq!(m.get("a").unwrap().name, "name-a");
    assert!(m.get("b").is_none());
    assert_eq!(m.count(), 1);
}

#[test]
fn remove_returns_peer() {
    let mut m = PeerManager::new();
    m.add(record("a"));
    assert_eq!(m.remove("a").unwrap().id, "a");
    assert_eq!(m.count(), 0);
}

#[test]
fn list_returns_all() {
    let mut m = PeerManager::new();
    m.add(record("a"));
    m.add(record("b"));
    m.add(record("b"));
    let mut ids: Vec<String> = m.list().into_iter().map(|p| p.id).collect();
    ids.sort();
    assert_eq!(ids, vec!["a", "b"]);
}

#[test]
fn remove_missing_returns_none() {
    assert!(PeerManager::new().remove("nope").is_none());
}

#[test]
fn stored_ids_are_trimmed_and_blank_ones_replaced() {
    match choose_app_uuid(Some(" \tabc def\u{3000}\n")) {
        AppUuid::Stored(s) => assert_eq!(s, "abc def"),
        AppUuid::Fresh(_) => panic!("expected the stored id"),
    }
    let fresh = |stored| match choose_app_uuid(stored) {
        AppUuid::Stored(_) => panic!("expected a fresh id"),
        AppUuid::Fresh(s) => s,
    };
    let a = fresh(None);
    let b = fresh(Some(" \n "));
    assert_ne!(a, b);
    for id in [a, b, generate_app_uuid()] {
        assert_eq!(id.len(), 36);
        assert_eq!(&id[14..15], "4");
    }
}

#[test]
fn delays_double_then_slow_down_then_stop() {
    let at = Instant::now();
    let mut p = ReconnectPolicy::new_at(at);
    let mut got: Vec<u64> = Vec::new();
    for _ in 0..9 {
        got.push(p.next_delay_at(at, 0, 0).unwrap());
    }
    assert_eq!(got, vec![0, 1, 2, 4, 8, 16, 32, 60, 60]);
    assert_eq!(p.attempt(), 9);
    assert_eq!(p.next_delay_at(at, 299_999, 0), Some(60));
    assert_eq!(p.mode(), ReconnectMode::Foreground);
    assert_eq!(p.next_delay_at(at, 300_000, 0), Some(120));
    assert_eq!(p.mode(), ReconnectMode::Background);
    assert_eq!(p.attempt(), 1);
    assert_eq!(p.next_delay_at(at, 300_000, 1_799_999), Some(120));
    assert_eq!(p.next_delay_at(at, 300_000, 1_800_000), None);
    assert_eq!(p.next_delay_at(at, 300_000, 1_900_000), None);
    p.reset();
    assert_eq!(p.next_delay(), Some(Duration::from_secs(0)));
    assert_eq!(p.next_delay(), Some(Duration::from_secs(1)));
}

#[test]
fn resume_streams_are_handed_out_once() {
    let mut m = ReconnectManager::new();
    m.record_stream_progress(StreamProgress {
        stream_id: 3,
        received_bitmap: vec![0xFF],
        total_chunks: 8,
    });
    let got = m.take_resume_streams();
    assert_eq!(got.len(), 1);
    assert_eq!(got[0].stream_id, 3);
    assert!(m.take_resume_streams().is_empty());
}

#[test]
fn room_digests_are_exact() {
    assert_eq!(room_hash("123456").to_vec(), unhex("d62f2a305fe55d4a"));
    assert_eq!(room_app_id("app-1", "123456"), "b0a981ee8711079a2ebc3011fd66fb38");
    assert_eq!(room_code([0xFF; 4]), "967295");
    assert_eq!(room_code([0, 0, 0, 7]), "000007");
}

#[test]
fn key_derivation_is_exact() {
    let secret: Vec<u8> = (0..32).collect();
    assert_eq!(
        derive_aes_key(&secret),
        unhex("aae3462ec3d4dace9140cad4a0491586e06ed4dad1b56f8ff471bc3ba0401232")
    );
    assert_eq!(derive_verification_code(&[0xFF; 32]), 967_295);
    assert_eq!(derive_verification_code(&[1]), 777_216);
}

#[test]
fn encryption_is_exact() {
    let key = [0u8; 32];
    assert_eq!(encrypt(&[], &key, 0).unwrap(), unhex("530f8afbc74536b9a963b4f1c4cb738b"));
    let sealed = encrypt(&[0u8; 16], &key, 0).unwrap();
    assert_eq!(
        sealed,
        unhex("cea7403d4d606b6e074ec5d3baf39d18d0d1c8a799996bf0265b98b5d48ab919")
    );
    assert_eq!(decrypt(&sealed, &key, 0).unwrap(), vec![0u8; 16]);
    // Another sequence number is another nonce.
    assert_ne!(encrypt(&[0u8; 16], &key, 1).unwrap(), sealed);
    assert!(matches!(
        decrypt(&sealed, &key[..31], 0),
        Err(MlinkError::SecurityError(ref m)) if m == "aes key must be 32 bytes, got 31"
    ));
    assert!(matches!(
        decrypt(&sealed[..15], &key, 0),
        Err(MlinkError::SecurityError(ref m)) if m == "AES-256-GCM decrypt failed"
    ));
}

#[test]
fn agreement_gives_both_sides_one_key() {
    let a = generate_keypair().unwrap();
    let b = generate_keypair().unwrap();
    assert_ne!(a.public_key_bytes, b.public_key_bytes);
    let (pa, pb) = (a.public_key_bytes.clone(), b.public_key_bytes.clone());
    let sa = derive_shared_secret(a.private, &pb).unwrap();
    let sb = derive_shared_secret(b.private, &pa).unwrap();
    assert_eq!(sa, sb);
    assert_ne!(sa, pa);
    assert_ne!(sa, pb);
    assert_eq!(derive_aes_key(&sa), derive_aes_key(&sb));
    let c = generate_keypair().unwrap();
    assert!(matches!(
        derive_shared_secret(c.private, &[1, 2, 3]),
        Err(MlinkError::SecurityError(ref m)) if m == "ECDH agreement failed"
    ));
}

#[test]
fn trust_store_keeps_one_entry_per_peer() {
    let mut s = TrustStore::new(PathBuf::from("/x/trust.json"), Vec::new());
    s.add(trusted("a", "one"));
    s.add(trusted("b", "two"));
    s.add(trusted("a", "three"));
    assert_eq!(s.list().len(), 2);
    assert_eq!(s.get("a").unwrap().name, "three");
    s.remove("a");
    assert!(!s.is_trusted("a"));
    assert!(s.is_trusted("b"));
    assert!(s.get("a").is_none());
    assert_eq!(s.path(), &PathBuf::from("/x/trust.json"));
}

#[test]
fn roles_of_two_nodes_are_opposite() {
    assert_eq!(negotiate_role("a", "ab"), Role::Central);
    assert_eq!(negotiate_role("ab", "a"), Role::Peripheral);
    assert_eq!(negotiate_role("Z", "a"), Role::Central);
    assert_eq!(negotiate_role("z", "\u{e9}"), Role::Central);
}

#[test]
fn packed_payloads_are_unpacked_again() {
    let long = vec![b'x'; 1000];
    let key = [3u8; 32];
    let p = pack_payload(&long, true, Some(&key), 9).unwrap();
    assert!(p.compressed && p.encrypted);
    assert!(p.body.len() < long.len());
    assert_eq!(unpack_payload(&p.body, true, Some(&key), 9).unwrap(), long);
    let p = pack_payload(b"short", true, None, 9).unwrap();
    assert!(!p.compressed && !p.encrypted);
    assert_eq!(p.body, b"short");
    let p = pack_payload(&long, false, None, 9).unwrap();
    assert!(!p.compressed);
    assert!(matches!(
        frame_body(false, false, MessageType::Message, 0, vec![0; 0x1_0000]),
        Err(MlinkError::PayloadTooLarge { size: 0x1_0000, max: 0xFFFF })
    ));
}

#[test]
fn link_formulas_are_exact() {
    let caps = TransportCapabilities {
        max_peers: 1,
        throughput_bps: 1_000_000,
        latency_ms: 1,
        reliable: true,
        bidirectional: true,
    };
    let mut l: Link<str> = Link::new("l".to_string(), Arc::from("c"), TransportKind::Tcp, caps);
    assert_eq!(l.score(), 1_000_000);
    l.record_rtt_at(800, 10);
    assert_eq!(l.health().rtt_ema_us, 800);
    l.record_rtt_at(1600, 20);
    assert_eq!(l.health().rtt_ema_us, 900);
    assert_eq!(l.health().last_ok_at_ms, 20);
    l.record_error();
    assert_eq!(l.health().err_rate_milli, 125);
    assert_eq!(l.score(), 875_000 - 90);
    assert!(l.is_healthy_at(5_019));
    assert!(!l.is_healthy_at(5_020));
    l.record_outcome_at(true, 6_000);
    assert_eq!(l.health().err_rate_milli, 109);
    assert!(l.is_healthy_at(6_000));
    for _ in 0..6 {
        l.record_outcome_at(false, 0);
    }
    assert!(!l.is_healthy_at(6_000));
}

#[test]
fn the_clock_moves_a_policy_on() {
    let long_ago = Instant::now().checked_sub(Duration::from_secs(300)).unwrap();
    let mut p = ReconnectPolicy::new_at(long_ago);
    assert_eq!(p.next_delay(), Some(Duration::from_secs(120)));
    assert_eq!(p.mode(), ReconnectMode::Background);
}

#[test]
fn a_private_key_has_one_public_key() {
    let rng = ring::rand::SystemRandom::new();
    let private =
        ring::agreement::EphemeralPrivateKey::generate(&ring::agreement::X25519, &rng).unwrap();
    let public = private.compute_public_key().unwrap();
    let kp = keypair_of(private).unwrap();
    assert_eq!(kp.public_key_bytes, public.as_ref().to_vec());
    assert_eq!(kp.public_key_bytes.len(), 32);
}

#[test]
fn white_space_is_what_the_standard_library_says() {
    for c in '\0'..=char::MAX {
        assert_eq!(is_white_space(c), c.is_whitespace(), "{:?}", c);
    }
}
