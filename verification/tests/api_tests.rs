use mlink_core::api::pubsub::PubSubManager;
use mlink_core::api::stream::{
    next_stream_id_central, next_stream_id_peripheral, xor8_checksum, StreamIds,
};

#[test]
fn subscribe_adds_peer_once() {
    let mut m = PubSubManager::new();
    m.subscribe("news", "peer-a");
    m.subscribe("news", "peer-a");
    assert_eq!(m.subscribers("news"), vec!["peer-a".to_string()]);
}

#[test]
fn subscribe_tracks_multiple_peers() {
    let mut m = PubSubManager::new();
    m.subscribe("news", "peer-a");
    m.subscribe("news", "peer-b");
    let subs = m.subscribers("news");
    assert_eq!(subs.len(), 2);
    assert!(subs.contains(&"peer-a".to_string()));
    assert!(subs.contains(&"peer-b".to_string()));
}

#[test]
fn unsubscribe_removes_peer() {
    let mut m = PubSubManager::new();
    m.subscribe("news", "peer-a");
    m.subscribe("news", "peer-b");
    m.unsubscribe("news", "peer-a");
    assert_eq!(m.subscribers("news"), vec!["peer-b".to_string()]);
}

#[test]
fn unsubscribe_last_peer_drops_topic() {
    let mut m = PubSubManager::new();
    m.subscribe("news", "peer-a");
    m.unsubscribe("news", "peer-a");
    assert_eq!(m.topic_count(), 0);
    assert!(m.subscribers("news").is_empty());
}

#[test]
fn unsubscribe_missing_is_noop() {
    let mut m = PubSubManager::new();
    m.unsubscribe("news", "nobody");
    m.subscribe("news", "a");
    m.unsubscribe("other", "a");
    assert_eq!(m.subscribers("news"), vec!["a".to_string()]);
}

#[test]
fn topics_for_peer_lists_all() {
    let mut m = PubSubManager::new();
    m.subscribe("t1", "peer-a");
    m.subscribe("t2", "peer-a");
    m.subscribe("t3", "peer-b");
    let mut got = m.topics_for_peer("peer-a");
    got.sort();
    assert_eq!(got, vec!["t1".to_string(), "t2".to_string()]);
}

#[test]
fn remove_peer_cleans_all_subscriptions() {
    let mut m = PubSubManager::new();
    m.subscribe("t1", "peer-a");
    m.subscribe("t2", "peer-a");
    m.subscribe("t1", "peer-b");
    m.remove_peer("peer-a");
    assert_eq!(m.subscribers("t1"), vec!["peer-b".to_string()]);
    assert!(m.subscribers("t2").is_empty());
    assert_eq!(m.topic_count(), 1);
}

#[test]
fn is_subscribed_reflects_state() {
    let mut m = PubSubManager::new();
    m.subscribe("t1", "peer-a");
    assert!(m.is_subscribed("t1", "peer-a"));
    assert!(!m.is_subscribed("t1", "peer-b"));
    assert!(!m.is_subscribed("missing", "peer-a"));
}

#[test]
fn xor8_checksum_basic() {
    assert_eq!(xor8_checksum(&[]), 0);
    assert_eq!(xor8_checksum(&[0xAA]), 0xAA);
    assert_eq!(xor8_checksum(&[0xFF, 0x0F]), 0xF0);
}

#[test]
fn central_counter_steps_by_two_even() {
    let mut ids = StreamIds::new();
    let a = next_stream_id_central(&mut ids);
    let b = next_stream_id_central(&mut ids);
    let c = next_stream_id_central(&mut ids);
    assert_eq!(a % 2, 0);
    assert_eq!(b, a + 2);
    assert_eq!(c, b + 2);
}

#[test]
fn peripheral_counter_steps_by_two_odd() {
    let mut ids = StreamIds::new();
    let a = next_stream_id_peripheral(&mut ids);
    let b = next_stream_id_peripheral(&mut ids);
    assert_eq!(a % 2, 1);
    assert_eq!(b, a + 2);
}

#[test]
fn test_stream_id_allocation() {
    let mut ids = StreamIds::new();
    let c1 = next_stream_id_central(&mut ids);
    let c2 = next_stream_id_central(&mut ids);
    assert_eq!(c1 % 2, 0, "central ids must be even, got {}", c1);
    assert_eq!(c2 % 2, 0, "central ids must be even, got {}", c2);
    assert_eq!(c2, c1.wrapping_add(2), "central step = 2");

    let p1 = next_stream_id_peripheral(&mut ids);
    let p2 = next_stream_id_peripheral(&mut ids);
    assert_eq!(p1 % 2, 1, "peripheral ids must be odd, got {}", p1);
    assert_eq!(p2 % 2, 1, "peripheral ids must be odd, got {}", p2);
    assert_eq!(p2, p1.wrapping_add(2), "peripheral step = 2");

    assert_ne!(c1, p1);
    assert_ne!(c1, p2);
    assert_ne!(c2, p1);
}

#[test]
fn test_pubsub_subscribe_unsubscribe() {
    let mut m = PubSubManager::new();
    m.subscribe("news", "peer-a");
    assert!(m.is_subscribed("news", "peer-a"));
    assert_eq!(m.subscribers("news"), vec!["peer-a".to_string()]);

    m.subscribe("news", "peer-a");
    assert_eq!(m.subscribers("news").len(), 1);

    m.subscribe("news", "peer-b");
    let mut subs = m.subscribers("news");
    subs.sort();
    assert_eq!(subs, vec!["peer-a".to_string(), "peer-b".to_string()]);

    m.unsubscribe("news", "peer-a");
    assert!(!m.is_subscribed("news", "peer-a"));
    assert!(m.is_subscribed("news", "peer-b"));

    m.unsubscribe("news", "peer-b");
    assert!(m.subscribers("news").is_empty());
    assert_eq!(m.topic_count(), 0);
}

#[test]
fn test_pubsub_remove_peer() {
    let mut m = PubSubManager::new();
    m.subscribe("t1", "peer-a");
    m.subscribe("t2", "peer-a");
    m.subscribe("t1", "peer-b");
    m.subscribe("t3", "peer-c");

    m.remove_peer("peer-a");

    assert!(!m.is_subscribed("t1", "peer-a"));
    assert!(!m.is_subscribed("t2", "peer-a"));
    assert!(m.subscribers("t2").is_empty());
    assert_eq!(m.subscribers("t1"), vec!["peer-b".to_string()]);
    assert_eq!(m.subscribers("t3"), vec!["peer-c".to_string()]);

    assert!(m.topics_for_peer("peer-a").is_empty());
}
