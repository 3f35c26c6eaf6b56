use std::sync::Arc;
use std::time::{Duration, Instant};

use mlink_core::mesh::link::{Link, LinkHealth, TransportKind};
use mlink_core::mesh::session::io::{session_frame, SendOutcome, Transmit};
use mlink_core::mesh::session::manager::{AttachOutcome, SessionManager};
use mlink_core::mesh::session::reader::{
    ack_is_due, encode_ack_frame, ReadOutcome, IDLE_WAIT_MS, SESSION_SEQ_HEADER,
};
use mlink_core::mesh::session::types::{
    LinkRole, LinkStatus, SessionEvent, SwitchCause, ACK_MAX_DELAY_MS, ACK_MAX_PENDING,
    MAX_LINKS_PER_PEER, SWITCHBACK_HYSTERESIS,
};
use mlink_core::mesh::session::Session;
use mlink_core::protocol::ack::{decode_ack, AckFrame};
use mlink_core::protocol::errors::MlinkError;
use mlink_core::protocol::frame::{decode_frame, encode_frame};
use mlink_core::protocol::types::{
    decode_flags, encode_flags, Frame, MessageType, MAGIC, PROTOCOL_VERSION,
};
use mlink_core::transport::TransportCapabilities;

fn caps(throughput: u64) -> TransportCapabilities {
    TransportCapabilities {
        max_peers: 8,
        throughput_bps: throughput,
        latency_ms: 5,
        reliable: true,
        bidirectional: true,
    }
}

fn link(id: &str, kind: TransportKind, throughput: u64) -> Link<str> {
    Link::new(id.to_string(), Arc::from(id), kind, caps(throughput))
}

fn new_link(id: &str, kind: TransportKind) -> Link<str> {
    link(id, kind, 1_000_000)
}

fn created(outcome: AttachOutcome) -> [u8; 16] {
    match outcome {
        AttachOutcome::CreatedNew { session_id } => session_id,
        other => panic!("expected CreatedNew, got {:?}", other),
    }
}

fn mk_session(peer_id: &str) -> Session<str> {
    Session::new(peer_id.to_string(), [0u8; 16])
}

fn session_with_one_link() -> Session<str> {
    let mut s = mk_session("peer-x");
    s.push_link(new_link("mock:x:1", TransportKind::Mock));
    let _ = s.switch_active("mock:x:1").unwrap();
    s
}

fn encode_message(seq: u32, payload: &[u8]) -> Vec<u8> {
    let mut body = seq.to_be_bytes().to_vec();
    body.extend_from_slice(payload);
    encode_frame(&Frame {
        magic: MAGIC,
        version: PROTOCOL_VERSION,
        flags: encode_flags(false, false, MessageType::Message),
        seq: 0,
        length: body.len() as u16,
        payload: body,
    })
}

fn active_of(s: &Session<str>) -> Option<String> {
    s.status().into_iter().find(|l| l.role == LinkRole::Active).map(|l| l.link_id)
}

fn waiting(s: &Session<str>, over: &str) -> usize {
    s.flush_unacked_over(over).unwrap().1.len()
}

fn send_ok(s: &mut Session<str>, payload: &[u8]) -> u32 {
    let t = s.send(MessageType::Message, payload, None, false).unwrap();
    match s.finish_send(t, true) {
        SendOutcome::Sent(seq) => seq,
        _ => panic!("expected Sent"),
    }
}

#[test]
fn attach_first_link_creates_new_session() {
    let mut mgr: SessionManager<str> = SessionManager::new();
    let (outcome, event) = mgr.attach_link("peer-1", new_link("tcp:p1:0", TransportKind::Tcp), None);
    assert_ne!(created(outcome), [0u8; 16]);
    match event {
        Some(SessionEvent::LinkAdded { peer_id, link_id, kind }) => {
            assert_eq!(peer_id, "peer-1");
            assert_eq!(link_id, "tcp:p1:0");
            assert_eq!(kind, TransportKind::Tcp);
        }
        other => panic!("expected LinkAdded, got {:?}", other),
    }
    assert!(mgr.contains("peer-1"));
    assert_eq!(mgr.count(), 1);
    let status = mgr.peer_link_status("peer-1");
    assert_eq!(status.len(), 1);
    assert_eq!(status[0].role, LinkRole::Active);
    assert_eq!(status[0].kind, TransportKind::Tcp);
}

#[test]
fn sessions_get_different_ids() {
    let mut mgr: SessionManager<str> = SessionManager::new();
    let a = created(mgr.attach_link("a", new_link("tcp:a:0", TransportKind::Tcp), None).0);
    let b = created(mgr.attach_link("b", new_link("tcp:b:0", TransportKind::Tcp), None).0);
    assert_ne!(a, b);
    assert_eq!(mgr.get("a").unwrap().session_id(), a);
    assert_eq!(mgr.get("b").unwrap().session_id(), b);
}

#[test]
fn attach_second_link_with_matching_session_id() {
    let mut mgr: SessionManager<str> = SessionManager::new();
    let session_id = created(mgr.attach_link("p", new_link("tcp:p:0", TransportKind::Tcp), None).0);
    let (outcome, _) =
        mgr.attach_link("p", new_link("ble:p:1", TransportKind::Ble), Some(session_id));
    assert_eq!(outcome, AttachOutcome::AttachedExisting);
    assert_eq!(mgr.peer_link_status("p").len(), 2);
}

#[test]
fn attach_rejects_duplicate_transport_kind() {
    let mut mgr: SessionManager<str> = SessionManager::new();
    let session_id = created(mgr.attach_link("p", new_link("tcp:p:0", TransportKind::Tcp), None).0);
    let (outcome, event) =
        mgr.attach_link("p", new_link("tcp:p:1", TransportKind::Tcp), Some(session_id));
    assert_eq!(outcome, AttachOutcome::RejectedDuplicateKind);
    assert!(event.is_none());
    assert_eq!(mgr.peer_link_status("p").len(), 1);
}

#[test]
fn attach_rejects_wrong_session_id_hint() {
    let mut mgr: SessionManager<str> = SessionManager::new();
    mgr.attach_link("p", new_link("tcp:p:0", TransportKind::Tcp), None);
    let (outcome, _) =
        mgr.attach_link("p", new_link("ble:p:1", TransportKind::Ble), Some([0u8; 16]));
    assert_eq!(outcome, AttachOutcome::RejectedSessionMismatch);
    assert_eq!(mgr.peer_link_status("p").len(), 1);
}

#[test]
fn attach_first_link_rejects_foreign_session_id() {
    let mut mgr: SessionManager<str> = SessionManager::new();
    let (outcome, _) =
        mgr.attach_link("p", new_link("tcp:p:0", TransportKind::Tcp), Some([9u8; 16]));
    assert_eq!(outcome, AttachOutcome::RejectedSessionMismatch);
    assert!(!mgr.contains("p"));
}

#[test]
fn attach_accepts_up_to_max_distinct_kinds() {
    let mut mgr: SessionManager<str> = SessionManager::new();
    let session_id = created(mgr.attach_link("p", new_link("tcp:p:0", TransportKind::Tcp), None).0);
    for (i, kind) in [TransportKind::Ble, TransportKind::Ipc, TransportKind::Mock]
        .into_iter()
        .enumerate()
    {
        let (outcome, _) =
            mgr.attach_link("p", new_link(&format!("x:{}", i), kind), Some(session_id));
        assert_eq!(outcome, AttachOutcome::AttachedExisting, "iter {}", i);
    }
    assert_eq!(mgr.peer_link_status("p").len(), 4);
    let (outcome, _) =
        mgr.attach_link("p", new_link("x:dup", TransportKind::Mock), Some(session_id));
    assert_eq!(outcome, AttachOutcome::RejectedCapacity);
    assert_eq!(mgr.peer_link_status("p").len(), 4);
}

#[test]
fn rejects_capacity_when_preloaded_to_max() {
    let mut mgr: SessionManager<str> = SessionManager::new();
    let session_id = created(mgr.attach_link("p", new_link("l0", TransportKind::Tcp), None).0);
    let session = mgr.get_mut("p").unwrap();
    for i in 0..3 {
        session.push_link(new_link(&format!("extra-{i}"), TransportKind::Mock));
    }
    assert_eq!(session.status().len(), MAX_LINKS_PER_PEER);
    let (outcome, _) =
        mgr.attach_link("p", new_link("l1", TransportKind::Ble), Some(session_id));
    assert_eq!(outcome, AttachOutcome::RejectedCapacity);
}

#[test]
fn attaching_to_one_peer_leaves_the_others() {
    let mut mgr: SessionManager<str> = SessionManager::new();
    let a = created(mgr.attach_link("a", new_link("tcp:a:0", TransportKind::Tcp), None).0);
    mgr.attach_link("b", new_link("tcp:b:0", TransportKind::Tcp), None);
    mgr.attach_link("b", new_link("ble:b:1", TransportKind::Ble), None);
    assert_eq!(mgr.get("a").unwrap().session_id(), a);
    assert_eq!(mgr.peer_link_status("a").len(), 1);
    assert_eq!(mgr.peer_link_status("b").len(), 2);
}

#[test]
fn detach_link_removes_link_and_drops_empty_peer() {
    let mut mgr: SessionManager<str> = SessionManager::new();
    let session_id = created(mgr.attach_link("p", new_link("tcp:p:0", TransportKind::Tcp), None).0);
    mgr.attach_link("p", new_link("ble:p:1", TransportKind::Ble), Some(session_id));
    let gone = mgr.detach_link("p", "tcp:p:0").unwrap();
    assert!(!gone.peer_dropped);
    assert_eq!(&*gone.conn, "tcp:p:0");
    assert!(matches!(gone.event, SessionEvent::LinkRemoved { ref link_id, .. } if link_id == "tcp:p:0"));
    let remaining = mgr.peer_link_status("p");
    assert_eq!(remaining.len(), 1);
    assert_eq!(remaining[0].link_id, "ble:p:1");
    assert!(mgr.detach_link("p", "ble:p:1").unwrap().peer_dropped);
    assert!(!mgr.contains("p"));
}

#[test]
fn detach_unknown_link_returns_false() {
    let mut mgr: SessionManager<str> = SessionManager::new();
    mgr.attach_link("p", new_link("tcp:p:0", TransportKind::Tcp), None);
    assert!(mgr.detach_link("p", "does-not-exist").is_none());
    assert!(mgr.detach_link("no-peer", "any").is_none());
}

#[test]
fn detach_active_link_downgrades_role_of_remaining() {
    let mut mgr: SessionManager<str> = SessionManager::new();
    let session_id = created(mgr.attach_link("p", new_link("tcp:p:0", TransportKind::Tcp), None).0);
    mgr.attach_link("p", new_link("ble:p:1", TransportKind::Ble), Some(session_id));
    let status = mgr.peer_link_status("p");
    let active_count = status.iter().filter(|s| s.role == LinkRole::Active).count();
    assert_eq!(active_count, 1, "one active before detach");
    assert!(!mgr.detach_link("p", "tcp:p:0").unwrap().peer_dropped);
    let status = mgr.peer_link_status("p");
    assert_eq!(status.len(), 1);
    assert_eq!(status[0].role, LinkRole::Standby);
}

#[test]
fn drop_peer_removes_session() {
    let mut mgr: SessionManager<str> = SessionManager::new();
    mgr.attach_link("p", new_link("tcp:p:0", TransportKind::Tcp), None);
    assert!(mgr.drop_peer("p").is_some());
    assert!(!mgr.contains("p"));
    assert!(mgr.drop_peer("p").is_none());
}

#[test]
fn peers_and_list_status_snapshot() {
    let mut mgr: SessionManager<str> = SessionManager::new();
    mgr.attach_link("a", new_link("tcp:a:0", TransportKind::Tcp), None);
    mgr.attach_link("b", new_link("tcp:b:0", TransportKind::Tcp), None);
    let mut peers = mgr.peers();
    peers.sort();
    assert_eq!(peers, vec!["a".to_string(), "b".to_string()]);
    assert_eq!(mgr.list_status().len(), 2);
}

#[test]
fn count_reflects_create_and_drop() {
    let mut mgr: SessionManager<str> = SessionManager::new();
    assert_eq!(mgr.count(), 0);
    mgr.attach_link("p", new_link("tcp:p:0", TransportKind::Tcp), None);
    assert_eq!(mgr.count(), 1);
    mgr.drop_peer("p");
    assert_eq!(mgr.count(), 0);
}

#[test]
fn send_single_link_records_unacked() {
    let mut s = mk_session("peer1");
    s.push_link(new_link("link-a", TransportKind::Tcp));
    let t = s.send(MessageType::Message, b"hi", None, false).unwrap();
    assert_eq!(t.seq, 0);
    assert_eq!(t.link_id, "link-a");
    assert_eq!(&*t.conn, "link-a");
    assert_eq!(t.bytes, encode_message(0, b"hi"));
    assert!(!t.retry);
    assert!(matches!(s.finish_send(t, true), SendOutcome::Sent(0)));
    assert_eq!(waiting(&s, "link-a"), 1);
    assert_eq!(active_of(&s).as_deref(), Some("link-a"));
}

#[test]
fn send_no_links_returns_no_healthy() {
    let mut s = mk_session("peer-dead");
    match s.send(MessageType::Message, b"x", None, false) {
        Err(MlinkError::NoHealthyLink { peer_id }) => assert_eq!(peer_id, "peer-dead"),
        _ => panic!("expected NoHealthyLink"),
    }
}

#[test]
fn send_failover_to_standby() {
    let mut s = mk_session("peer2");
    s.push_link(link("primary", TransportKind::Ble, 100_000));
    s.push_link(link("standby", TransportKind::Tcp, 10_000_000));
    let _ = s.switch_active("primary").unwrap();
    let t = s.send(MessageType::Message, b"failover-msg", None, false).unwrap();
    assert_eq!(t.link_id, "primary");
    let bytes = t.bytes.clone();
    let again: Transmit<str> = match s.finish_send(t, false) {
        SendOutcome::Retry(again, event) => {
            match event {
                SessionEvent::Switched { peer_id, from, to, cause } => {
                    assert_eq!(peer_id, "peer2");
                    assert_eq!(from, "primary");
                    assert_eq!(to, "standby");
                    assert_eq!(cause, SwitchCause::ActiveFailed);
                }
                other => panic!("expected Switched, got {:?}", other),
            }
            again
        }
        _ => panic!("expected Retry"),
    };
    assert_eq!(again.link_id, "standby");
    assert_eq!(again.bytes, bytes);
    assert!(again.retry);
    assert!(matches!(s.finish_send(again, true), SendOutcome::Sent(0)));
    assert_eq!(active_of(&s).as_deref(), Some("standby"));
}

#[test]
fn send_fails_when_no_other_link_is_left() {
    let mut s = mk_session("peer2");
    s.push_link(new_link("only", TransportKind::Ble));
    let t = s.send(MessageType::Message, b"x", None, false).unwrap();
    match s.finish_send(t, false) {
        SendOutcome::Failed(MlinkError::NoHealthyLink { peer_id }) => assert_eq!(peer_id, "peer2"),
        _ => panic!("expected NoHealthyLink"),
    }
}

#[test]
fn process_ack_clears_unacked() {
    let mut s = mk_session("peer3");
    s.push_link(new_link("l", TransportKind::Tcp));
    for i in 0..5 {
        assert_eq!(send_ok(&mut s, b"m"), i);
    }
    assert_eq!(waiting(&s, "l"), 5);
    s.on_ack(&AckFrame { ack: 2, bitmap: 0 });
    assert_eq!(waiting(&s, "l"), 2);
    s.on_ack(&AckFrame { ack: 2, bitmap: 0 });
    assert_eq!(waiting(&s, "l"), 2);
    s.on_ack(&AckFrame { ack: 2, bitmap: 0b11 });
    assert_eq!(waiting(&s, "l"), 0);
}

#[test]
fn flush_unacked_replays_over_new_link() {
    let mut s = mk_session("peer4");
    s.push_link(link("p", TransportKind::Ble, 200_000));
    send_ok(&mut s, b"a");
    send_ok(&mut s, b"b");
    s.push_link(link("q", TransportKind::Tcp, 5_000_000));
    let (conn, frames) = s.flush_unacked_over("q").unwrap();
    assert_eq!(&*conn, "q");
    let sent = |seq, payload: &[u8]| {
        session_frame(seq, MessageType::Message, payload, None, false).unwrap()
    };
    assert_eq!(frames, vec![sent(0, b"a"), sent(1, b"b")]);
    assert!(matches!(
        s.flush_unacked_over("nowhere"),
        Err(MlinkError::NoHealthyLink { .. })
    ));
}

#[test]
fn should_switchback_requires_hysteresis() {
    let mut s = mk_session("peer5");
    assert!(!s.should_switchback("a", "a"));
    for _ in 0..(SWITCHBACK_HYSTERESIS as usize - 1) {
        assert!(!s.should_switchback("a", "b"));
    }
    assert!(s.should_switchback("a", "b"));
    assert!(s.should_switchback("a", "b"));
    // The count of one link is not that of another.
    assert!(!s.should_switchback("a", "c"));
    // It starts anew when the link carries the traffic itself.
    assert!(!s.should_switchback("b", "b"));
    assert!(!s.should_switchback("a", "b"));
}

#[test]
fn best_link_has_the_highest_score_and_the_last_of_equals_wins() {
    let mut s = mk_session("p");
    s.push_link(link("slow", TransportKind::Ble, 100));
    s.push_link(link("fast", TransportKind::Tcp, 1_000));
    s.push_link(link("as-fast", TransportKind::Ipc, 1_000));
    let all = s.health_flags();
    assert_eq!(all, vec![true, true, true]);
    assert_eq!(s.pick_best(&all), Some(2));
    assert_eq!(s.best_excluding("as-fast", &all), Some(1));
    assert_eq!(s.best_excluding("as-fast", &vec![true, false, true]), Some(0));
    assert_eq!(s.pick_best(&vec![false, false, false]), None);
    assert_eq!(s.position("fast"), Some(1));
    assert_eq!(s.position("none"), None);
}

#[test]
fn displayed_score_is_exact() {
    let status = LinkStatus {
        link_id: "l".to_string(),
        kind: TransportKind::Tcp,
        role: LinkRole::Standby,
        health: LinkHealth { rtt_ema_us: 505, err_rate_milli: 250, last_ok_at_ms: 0, inflight: 0 },
    };
    assert_eq!(Session::<str>::score(&status), 749_950);
}

#[test]
fn switch_active_is_told_once() {
    let mut s = mk_session("p");
    s.push_link(new_link("a", TransportKind::Tcp));
    s.push_link(new_link("b", TransportKind::Ble));
    assert!(matches!(
        s.switch_active("a").unwrap(),
        Some(SessionEvent::Switched { ref from, ref to, cause: SwitchCause::ManualUserRequest, .. })
            if from.is_empty() && to == "a"
    ));
    assert!(s.switch_active("a").unwrap().is_none());
    assert!(matches!(s.switch_active("c"), Err(MlinkError::NoHealthyLink { .. })));
    assert_eq!(active_of(&s).as_deref(), Some("a"));
}

#[test]
fn session_frame_layout_and_limit() {
    let bytes = session_frame(0x01020304, MessageType::Message, b"hi", None, false).unwrap();
    assert_eq!(
        bytes,
        vec![0x4D, 0x4C, 1, 0x10, 0x03, 0x04, 0, 6, 1, 2, 3, 4, b'h', b'i']
    );
    // Only messages carry the session's number.
    let beat = session_frame(5, MessageType::Heartbeat, b"", None, false).unwrap();
    assert_eq!(beat, vec![0x4D, 0x4C, 1, 0x02, 0, 5, 0, 0]);
    let big = vec![0u8; 0x1_0000];
    assert!(matches!(
        session_frame(0, MessageType::Heartbeat, &big, None, false),
        Err(MlinkError::PayloadTooLarge { size: 0x1_0000, max: 0xFFFF })
    ));
}

#[test]
fn recv_returns_message_and_decodes_session_seq() {
    let mut s = session_with_one_link();
    let (outcome, ack) = s.on_read("mock:x:1", &encode_message(7, b"hello"));
    match outcome {
        ReadOutcome::Msg(seq, body) => {
            assert_eq!(seq, 7);
            assert_eq!(body, b"hello");
        }
        _ => panic!("expected a message"),
    }
    assert!(ack.is_none());
    assert_eq!(SESSION_SEQ_HEADER, 4);
}

#[test]
fn recv_drops_duplicate_seq() {
    let mut s = session_with_one_link();
    assert!(matches!(s.on_read("mock:x:1", &encode_message(1, b"a")).0, ReadOutcome::Msg(1, _)));
    assert!(matches!(s.on_read("mock:x:1", &encode_message(1, b"a")).0, ReadOutcome::Continue));
    match s.on_read("mock:x:1", &encode_message(2, b"b")).0 {
        ReadOutcome::Msg(seq, body) => {
            assert_eq!(seq, 2);
            assert_eq!(body, b"b");
        }
        _ => panic!("expected a message"),
    }
}

#[test]
fn garbage_and_short_messages_are_passed_over() {
    let mut s = session_with_one_link();
    assert!(matches!(s.on_read("mock:x:1", b"garbage").0, ReadOutcome::Continue));
    let short = encode_frame(&Frame {
        magic: MAGIC,
        version: PROTOCOL_VERSION,
        flags: encode_flags(false, false, MessageType::Message),
        seq: 0,
        length: 3,
        payload: vec![1, 2, 3],
    });
    assert!(matches!(s.on_read("mock:x:1", &short).0, ReadOutcome::Continue));
}

#[test]
fn ack_flushes_after_eight_accepts() {
    let mut s = session_with_one_link();
    for i in 1..8u32 {
        let (outcome, ack) = s.on_read("mock:x:1", &encode_message(i, &[i as u8]));
        assert!(matches!(outcome, ReadOutcome::Msg(_, _)));
        assert!(ack.is_none());
    }
    let (_, ack) = s.on_read("mock:x:1", &encode_message(8, &[8]));
    let ack = ack.expect("the eighth message is acknowledged at once");
    assert_eq!(ack.link_id, "mock:x:1");
    assert_eq!(&*ack.conn, "mock:x:1");
    let frame = decode_frame(&ack.bytes).unwrap();
    let (_, _, mt) = decode_flags(frame.flags);
    assert_eq!(mt, MessageType::Ack);
    let got = decode_ack(&frame.payload).unwrap();
    assert_eq!(got.ack, 8);
    s.finish_ack(&ack.link_id, true);
    assert_eq!(ACK_MAX_PENDING, 8);
}

#[test]
fn ack_flushes_after_delay_ms() {
    let mut s = session_with_one_link();
    let _ = s.on_read("mock:x:1", &encode_message(1, b"a"));
    let plan = s.plan_recv(Some(ACK_MAX_DELAY_MS + 10)).unwrap();
    let ack = plan.ack.expect("an acknowledgement is due");
    let frame = decode_frame(&ack.bytes).unwrap();
    let (_, _, mt) = decode_flags(frame.flags);
    assert_eq!(mt, MessageType::Ack);
    assert_eq!(decode_ack(&frame.payload).unwrap().ack, 1);
}

#[test]
fn acknowledgements_are_due_by_count_or_by_age() {
    assert!(!ack_is_due(0, None));
    assert!(!ack_is_due(7, Some(49)));
    assert!(ack_is_due(8, Some(0)));
    assert!(ack_is_due(1, Some(50)));
}

#[test]
fn idle_session_waits_a_minute() {
    let mut s = session_with_one_link();
    let plan = s.recv().unwrap();
    assert!(plan.ack.is_none());
    assert_eq!(s.read_wait(), IDLE_WAIT_MS);
    assert_eq!(plan.sources.len(), 1);
    assert_eq!(plan.sources[0].link_id, "mock:x:1");
}

#[test]
fn on_ack_clears_unacked_ring() {
    let mut s = session_with_one_link();
    for _ in 0..6 {
        send_ok(&mut s, b"m");
    }
    s.on_ack(&AckFrame { ack: 3, bitmap: 0 });
    assert_eq!(waiting(&s, "mock:x:1"), 2);
}

#[test]
fn received_ack_frame_releases_frames() {
    let mut s = session_with_one_link();
    send_ok(&mut s, b"a");
    send_ok(&mut s, b"b");
    let bytes = encode_ack_frame(&AckFrame { ack: 0, bitmap: 1 });
    assert!(matches!(s.handle_bytes(&bytes, Instant::now()).0, ReadOutcome::Continue));
    assert_eq!(waiting(&s, "mock:x:1"), 0);
}

#[test]
fn no_links_returns_no_healthy_link() {
    let mut s = mk_session("peer-y");
    assert!(matches!(s.recv(), Err(MlinkError::NoHealthyLink { .. })));
}

#[test]
fn link_recv_error_triggers_linkremoved_event_and_fails() {
    let mut s = session_with_one_link();
    let (outcome, event) = s.read_failed("mock:x:1");
    assert!(matches!(outcome, ReadOutcome::AllLinksGone));
    match event {
        SessionEvent::LinkRemoved { peer_id, link_id, reason } => {
            assert_eq!(peer_id, "peer-x");
            assert_eq!(link_id, "mock:x:1");
            assert_eq!(reason, "recv_error");
        }
        other => panic!("unexpected event: {:?}", other),
    }
}

#[test]
fn multi_link_reads_from_faster_source() {
    let mut s = mk_session("peer-m");
    s.push_link(link("mock:1", TransportKind::Mock, 1_000_000));
    s.push_link(link("mock:2", TransportKind::Mock, 500_000));
    let plan = s.recv().unwrap();
    assert_eq!(plan.sources.len(), 2);
    match s.on_read("mock:1", &encode_message(42, b"via-l1")).0 {
        ReadOutcome::Msg(seq, body) => {
            assert_eq!(seq, 42);
            assert_eq!(body, b"via-l1");
        }
        _ => panic!("expected a message"),
    }
}

#[test]
fn what_one_session_sends_the_other_receives() {
    let mut from = session_with_one_link();
    let mut to = session_with_one_link();
    let t = from.send(MessageType::Message, b"across", None, false).unwrap();
    match to.on_read("mock:x:1", &t.bytes).0 {
        ReadOutcome::Msg(seq, body) => {
            assert_eq!(seq, t.seq);
            assert_eq!(body, b"across");
        }
        _ => panic!("expected a message"),
    }
    // A frame that is sent again is not delivered again.
    assert!(matches!(to.on_read("mock:x:1", &t.bytes).0, ReadOutcome::Continue));
}

#[test]
fn repeated_messages_are_dropped_after_others_too() {
    let mut s = session_with_one_link();
    assert!(matches!(s.on_read("mock:x:1", &encode_message(5, b"a")).0, ReadOutcome::Msg(5, _)));
    for seq in [6u32, 200, 3, 1_000_000] {
        let _ = s.on_read("mock:x:1", &encode_message(seq, b"x"));
        assert!(matches!(s.on_read("mock:x:1", &encode_message(5, b"a")).0, ReadOutcome::Continue));
    }
}

#[test]
fn an_acknowledgement_releases_what_has_arrived() {
    let mut from = session_with_one_link();
    let mut to = session_with_one_link();
    for i in 0..3 {
        let t = from.send(MessageType::Message, &[i], None, false).unwrap();
        assert!(matches!(to.on_read("mock:x:1", &t.bytes).0, ReadOutcome::Msg(_, _)));
        assert!(matches!(from.finish_send(t, true), SendOutcome::Sent(_)));
    }
    assert_eq!(waiting(&from, "mock:x:1"), 3);
    let ack = to.flush_ack_now().expect("three messages wait to be acknowledged");
    assert!(matches!(from.on_read("mock:x:1", &ack.bytes).0, ReadOutcome::Continue));
    assert_eq!(waiting(&from, "mock:x:1"), 0);
    assert!(to.flush_ack_now().is_none());
}

#[test]
fn age_of_a_link_counts_from_when_it_was_made() {
    let mut s = mk_session("peer-age");
    let before_first = Instant::now();
    s.push_link(new_link("mock:age:1", TransportKind::Mock));
    let after_first = Instant::now();
    while after_first.elapsed().as_millis() < 60 {}
    let before_second = Instant::now();
    s.push_link(new_link("tcp:age:2", TransportKind::Tcp));
    let younger = s.link_age_ms(1);
    let older = s.link_age_ms(0);
    assert!(younger <= before_second.elapsed().as_millis() as u64);
    assert!(older >= younger + 59);
    assert!(older <= before_first.elapsed().as_millis() as u64);
}

#[test]
fn an_acknowledgement_leaves_what_has_not_arrived() {
    let mut from = session_with_one_link();
    let mut to = session_with_one_link();
    for i in 0..3 {
        let t = from.send(MessageType::Message, &[i], None, false).unwrap();
        assert!(matches!(to.on_read("mock:x:1", &t.bytes).0, ReadOutcome::Msg(_, _)));
        assert!(matches!(from.finish_send(t, true), SendOutcome::Sent(_)));
    }
    // Two more are on their way when the acknowledgement is sent.
    let fourth = from.send(MessageType::Message, b"fourth", None, false).unwrap();
    let late = fourth.bytes.clone();
    assert!(matches!(from.finish_send(fourth, true), SendOutcome::Sent(3)));
    assert_eq!(send_ok(&mut from, b"fifth"), 4);
    let ack = to.flush_ack_now().unwrap();
    let frame = decode_frame(&ack.bytes).unwrap();
    assert_eq!(decode_ack(&frame.payload).unwrap(), AckFrame { ack: 2, bitmap: 0 });
    let _ = from.on_read("mock:x:1", &ack.bytes);
    let (_, frames) = from.flush_unacked_over("mock:x:1").unwrap();
    assert_eq!(frames.len(), 2);
    assert_eq!(frames[0], late);
    // What was left arrives when it is sent again.
    match to.on_read("mock:x:1", &frames[0]).0 {
        ReadOutcome::Msg(seq, body) => {
            assert_eq!(seq, 3);
            assert_eq!(body, b"fourth");
        }
        _ => panic!("expected a message"),
    }
}

#[test]
fn a_failed_acknowledgement_is_tried_again_soon() {
    let mut s = session_with_one_link();
    let _ = s.on_read("mock:x:1", &encode_message(1, b"a"));
    let ack = s.plan_recv(Some(ACK_MAX_DELAY_MS)).unwrap().ack.expect("it is due");
    let at = Instant::now();
    s.settle_ack(&ack.link_id, false, 0, at);
    assert_eq!(s.read_wait_at(at), ACK_MAX_DELAY_MS);
    assert_eq!(s.read_wait_at(at + Duration::from_millis(20)), ACK_MAX_DELAY_MS - 20);
    assert_eq!(s.read_wait_at(at + Duration::from_secs(1)), 0);
    let again = s.plan_recv(Some(ACK_MAX_DELAY_MS)).unwrap().ack.expect("still due");
    assert_eq!(again.bytes, ack.bytes);
    s.finish_ack(&again.link_id, true);
    assert_eq!(s.read_wait(), IDLE_WAIT_MS);
    assert!(s.recv().unwrap().ack.is_none());
}

#[test]
fn an_acknowledgement_is_due_once_its_time_is_up() {
    let mut s = session_with_one_link();
    let _ = s.on_read("mock:x:1", &encode_message(1, b"a"));
    assert!(s.recv().unwrap().ack.is_none());
    let start = Instant::now();
    while start.elapsed().as_millis() < ACK_MAX_DELAY_MS as u128 {}
    assert!(s.recv().unwrap().ack.is_some());
}

#[test]
fn links_keep_when_they_were_made() {
    let mut s = mk_session("peer-old");
    let long_ago = Instant::now().checked_sub(Duration::from_secs(2)).unwrap();
    s.push_link(Link::new_at(
        "mock:old:1".to_string(),
        Arc::from("old"),
        TransportKind::Mock,
        caps(1_000_000),
        long_ago,
    ));
    let _ = s.switch_active("mock:old:1").unwrap();
    send_ok(&mut s, b"x");
    let _ = s.on_read("mock:old:1", &encode_message(1, b"a"));
    s.finish_ack("mock:old:1", true);
    s.push_link(new_link("tcp:old:2", TransportKind::Tcp));
    assert!(s.link_age_ms(0) >= 2_000);
    assert!(s.status()[0].health.last_ok_at_ms >= 2_000);
}

#[test]
fn stale_links_are_told_by_the_clock() {
    let stale = Instant::now().checked_sub(Duration::from_secs(6)).unwrap();
    let mut l: Link<str> = Link::new_at(
        "mock:s:1".to_string(),
        Arc::from("s"),
        TransportKind::Mock,
        caps(1_000_000),
        stale,
    );
    l.record_rtt_at(1_000, 0);
    assert!(!l.is_healthy());
    l.record_success();
    assert!(l.is_healthy());
    assert!(l.health().last_ok_at_ms >= 6_000);
}

#[test]
fn nothing_is_acknowledged_before_anything_came() {
    let mut s = session_with_one_link();
    s.finish_ack("mock:x:1", false);
    assert!(s.flush_ack_now().is_none());
    let _ = s.on_read("mock:x:1", &encode_message(9, b"a"));
    let ack = s.flush_ack_now().unwrap();
    let frame = decode_frame(&ack.bytes).unwrap();
    assert_eq!(decode_ack(&frame.payload).unwrap(), AckFrame { ack: 9, bitmap: 0 });
}

#[test]
fn a_dropped_session_hands_out_its_connections() {
    let mut mgr: SessionManager<str> = SessionManager::new();
    let _ = mgr.attach_link("p", new_link("ble:p:1", TransportKind::Ble), None);
    let _ = mgr.attach_link("p", new_link("tcp:p:2", TransportKind::Tcp), None);
    let session = mgr.drop_peer("p").unwrap();
    let conns: Vec<String> = session.conns().iter().map(|c| c.to_string()).collect();
    assert_eq!(conns, vec!["ble:p:1", "tcp:p:2"]);
}
