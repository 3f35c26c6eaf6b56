use std::path::PathBuf;
use std::sync::Arc;

use mlink_core::api::message::{broadcast_message, recv_message, send_message};
use mlink_core::api::pubsub::{publish, send_subscribe, send_unsubscribe, PubSubManager};
use mlink_core::api::rpc::{
    dispatch_request, response_result, rpc_request, send_request, send_response, PendingRequests,
    RpcEnd, RpcRegistry, RpcResponse, RPC_STATUS_ERROR, RPC_STATUS_OK,
};
use mlink_core::api::stream::{
    create_stream, create_stream_with_chunk_size, send_stream_chunk, send_stream_end,
    send_stream_start, stream_event, xor8_checksum, Progress, StreamChunkMsg, StreamEndMsg, StreamEvent,
    StreamIds, StreamReader, StreamStep, DEFAULT_CHUNK_SIZE,
};
use mlink_core::mesh::node::types::NodeConfig;
use mlink_core::mesh::node::Node;
use mlink_core::mesh::security::TrustStore;
use mlink_core::protocol::errors::MlinkError;
use mlink_core::protocol::frame::decode_frame;
use mlink_core::protocol::types::{decode_flags, MessageType, StreamInfo};

fn node(app_uuid: &str) -> Node<str> {
    Node::new(
        NodeConfig::default(),
        app_uuid.to_string(),
        TrustStore::new(PathBuf::from("/nowhere"), Vec::new()),
    )
}

fn pair() -> (Node<str>, Node<str>) {
    let mut a = node("a");
    let mut b = node("b");
    a.attach_connection("b".to_string(), Arc::from("to-b"));
    b.attach_connection("a".to_string(), Arc::from("to-a"));
    (a, b)
}

fn kind_of(bytes: &[u8]) -> MessageType {
    decode_flags(decode_frame(bytes).unwrap().flags).2
}

#[test]
fn send_message_missing_peer_errors() {
    let mut n = node("a");
    assert!(matches!(
        send_message(&mut n, "ghost", b"x"),
        Err(MlinkError::PeerGone { .. })
    ));
}

#[test]
fn broadcast_empty_peers_is_ok() {
    let mut n = node("a");
    let peers = n.peers();
    assert!(broadcast_message(&mut n, &peers, 0, b"x").is_none());
}

#[test]
fn test_send_message() {
    let (mut a, mut b) = pair();
    let (conn, bytes) = send_message(&mut a, "b", b"hello").unwrap();
    assert_eq!(&*conn, "to-b");
    assert_eq!(recv_message(&mut b, "a", &bytes).unwrap(), Some(b"hello".to_vec()));
}

#[test]
fn recv_message_passes_over_other_frames() {
    let (mut a, mut b) = pair();
    let (_, bytes) = send_request(&mut a, "b", b"call").unwrap();
    assert_eq!(kind_of(&bytes), MessageType::Request);
    assert_eq!(recv_message(&mut b, "a", &bytes).unwrap(), None);
    assert!(recv_message(&mut b, "a", b"junk").is_err());
}

#[test]
fn publish_with_no_subscribers_is_ok() {
    let mut n = node("a");
    let ps = PubSubManager::new();
    assert!(publish(&mut n, &ps, "news", 0, b"x").is_none());
}

#[test]
fn publish_goes_to_each_subscriber_once() {
    let mut n = node("a");
    n.attach_connection("p".to_string(), Arc::from("cp"));
    n.attach_connection("q".to_string(), Arc::from("cq"));
    let mut ps = PubSubManager::new();
    ps.subscribe("news", "p");
    ps.subscribe("news", "q");
    ps.subscribe("news", "p");
    ps.subscribe("other", "r");
    let mut to: Vec<String> = Vec::new();
    let mut i = 0;
    while let Some(sent) = publish(&mut n, &ps, "news", i, b"x") {
        let (conn, bytes) = sent.unwrap();
        assert_eq!(kind_of(&bytes), MessageType::Publish);
        to.push(conn.to_string());
        i += 1;
    }
    to.sort();
    assert_eq!(to, vec!["cp", "cq"]);
    // A subscriber that is gone is an error.
    assert!(matches!(
        publish(&mut n, &ps, "other", 0, b"x"),
        Some(Err(MlinkError::PeerGone { .. }))
    ));
}

#[test]
fn subscriptions_travel_as_topic_names() {
    let (mut a, mut b) = pair();
    let (_, bytes) = send_subscribe(&mut a, "b", "news").unwrap();
    assert_eq!(kind_of(&bytes), MessageType::Subscribe);
    assert_eq!(b.recv_raw("a", &bytes).unwrap().1, b"news");
    let (_, bytes) = send_unsubscribe(&mut a, "b", "news").unwrap();
    assert_eq!(kind_of(&bytes), MessageType::Unsubscribe);
    assert_eq!(b.recv_raw("a", &bytes).unwrap().1, b"news");
}

#[test]
fn registry_register_and_handle() {
    let mut reg: RpcRegistry<str> = RpcRegistry::new();
    reg.register("echo".to_string(), Arc::from("handler"));
    assert!(reg.has("echo"));
    assert_eq!(&*reg.handle_request("echo").unwrap(), "handler");
}

#[test]
fn registry_unknown_method() {
    let reg: RpcRegistry<str> = RpcRegistry::new();
    match reg.handle_request("nope") {
        Err(MlinkError::UnknownMethod(m)) => assert_eq!(m, "nope"),
        _ => panic!("expected UnknownMethod"),
    }
}

#[test]
fn registry_unregister_removes() {
    let mut reg: RpcRegistry<str> = RpcRegistry::new();
    reg.register("tmp".to_string(), Arc::from("h"));
    assert!(reg.unregister("tmp"));
    assert!(!reg.unregister("tmp"));
    assert!(!reg.has("tmp"));
}

#[test]
fn pending_requests_next_id_is_monotonic_with_wrap() {
    let mut p: PendingRequests<&str> = PendingRequests::new();
    let first = p.next_id();
    assert_eq!(p.next_id(), first.wrapping_add(1));
    for _ in 0..65_534 {
        p.next_id();
    }
    assert_eq!(p.next_id(), first);
}

#[test]
fn pending_requests_complete_delivers_response() {
    let mut p: PendingRequests<&str> = PendingRequests::new();
    let req = p.open_call("echo", b"ping", "waiter");
    assert_eq!(req.method, "echo");
    assert_eq!(req.data, b"ping");
    assert_eq!(p.pending_count(), 1);
    let resp = RpcResponse { request_id: req.request_id, status: RPC_STATUS_OK, data: b"pong".to_vec() };
    let (waiter, resp) = p.complete(resp).unwrap();
    assert_eq!(waiter, "waiter");
    assert_eq!(p.pending_count(), 0);
    assert_eq!(rpc_request(&mut p, req.request_id, RpcEnd::Replied(resp)).unwrap(), b"pong");
}

#[test]
fn pending_requests_complete_missing_returns_false() {
    let mut p: PendingRequests<&str> = PendingRequests::new();
    assert!(p
        .complete(RpcResponse { request_id: 999, status: RPC_STATUS_OK, data: vec![] })
        .is_none());
}

#[test]
fn pending_requests_cancel_removes() {
    let mut p: PendingRequests<&str> = PendingRequests::new();
    p.register(7, "w");
    assert!(p.cancel(7));
    assert!(!p.cancel(7));
    assert_eq!(p.pending_count(), 0);
}

#[test]
fn calls_end_in_an_answer_a_timeout_or_a_closed_channel() {
    let mut p: PendingRequests<&str> = PendingRequests::new();
    let id = p.open_call("m", b"", "w").request_id;
    assert!(matches!(rpc_request(&mut p, id, RpcEnd::TimedOut), Err(MlinkError::Timeout)));
    assert_eq!(p.pending_count(), 0);
    assert!(matches!(
        rpc_request(&mut p, id, RpcEnd::Closed),
        Err(MlinkError::HandlerError(ref m)) if m == "response channel closed"
    ));
    let failed = RpcResponse { request_id: id, status: RPC_STATUS_ERROR, data: b"boom".to_vec() };
    assert!(matches!(
        rpc_request(&mut p, id, RpcEnd::Replied(failed)),
        Err(MlinkError::HandlerError(ref m)) if m == "boom"
    ));
    let garbled = RpcResponse { request_id: id, status: RPC_STATUS_ERROR, data: vec![0xFF, 0xFE] };
    assert!(matches!(
        response_result(garbled),
        Err(MlinkError::HandlerError(ref m)) if m == "rpc error"
    ));
}

#[test]
fn registry_handler_error_propagates() {
    let resp = dispatch_request(3, Err(MlinkError::HandlerError("kaput".to_string())));
    assert_eq!(resp.request_id, 3);
    assert_eq!(resp.status, RPC_STATUS_ERROR);
    match response_result(resp) {
        Err(MlinkError::HandlerError(m)) => assert!(m.contains("kaput")),
        _ => panic!("expected HandlerError"),
    }
}

#[test]
fn answers_name_the_method_that_is_not_offered() {
    let resp = dispatch_request(4, Err(MlinkError::UnknownMethod("nope".to_string())));
    assert_eq!(resp.data, b"nope");
    let ok = dispatch_request(5, Ok(vec![1, 2]));
    assert_eq!((ok.status, ok.data), (RPC_STATUS_OK, vec![1, 2]));
}

#[test]
fn answers_travel_as_response_frames() {
    let (mut a, mut b) = pair();
    let (_, bytes) = send_response(&mut a, "b", b"payload").unwrap();
    assert_eq!(kind_of(&bytes), MessageType::Response);
    assert_eq!(b.recv_raw("a", &bytes).unwrap().1, b"payload");
}

#[test]
fn test_stream_write_read() {
    let (mut a, mut b) = pair();
    let mut ids = StreamIds::new();
    let data: Vec<u8> = (0..1000).map(|i| (i % 256) as u8).collect();
    let (info, mut w) = create_stream_with_chunk_size(&a, &mut ids, "b", &data, 300).unwrap();
    assert_eq!(info.total_chunks, 4);
    assert_eq!(info.total_size, 1000);
    assert_eq!(info.checksum_algo, "xor8");
    assert_eq!(w.stream_id(), info.stream_id);
    assert_eq!(w.peer_id(), "b");
    assert_eq!(w.chunk_size(), 300);
    assert_eq!(w.total_chunks(), 4);

    let (_, bytes) = send_stream_start(&mut a, "b", b"info").unwrap();
    assert_eq!(kind_of(&bytes), MessageType::StreamStart);
    let mut r = StreamReader::new("a".to_string(), info);
    let mut got: Vec<u8> = Vec::new();
    let mut sent = 0;
    let mut index = 0;
    while let Some(chunk) = w.write(&data, sent).unwrap() {
        assert_eq!(chunk.chunk_index, index);
        sent += chunk.data.len();
        let (_, bytes) = send_stream_chunk(&mut a, "b", &chunk.data).unwrap();
        assert_eq!(kind_of(&bytes), MessageType::StreamChunk);
        let (_, payload) = b.recv_raw("a", &bytes).unwrap();
        let arrived = StreamChunkMsg { data: payload, ..chunk };
        match r.next(StreamEvent::Chunk(Some(arrived))) {
            StreamStep::Item(d, p) => {
                index += 1;
                assert_eq!(p, Progress { received: index, total: 4 });
                got.extend_from_slice(&d);
            }
            _ => panic!("expected Item"),
        }
        w.chunk_sent();
    }
    assert_eq!(got, data);
    let end = w.finish().unwrap();
    assert_eq!(end.checksum, xor8_checksum(&data));
    assert!(w.finish().is_none());
    assert!(matches!(w.write(&data, 0), Err(MlinkError::HandlerError(_))));
    let (_, bytes) = send_stream_end(&mut a, "b", b"end").unwrap();
    assert_eq!(kind_of(&bytes), MessageType::StreamEnd);
    assert!(!r.is_done());
    assert!(matches!(r.next(StreamEvent::End(Some(end))), StreamStep::Over));
    assert!(r.is_done());
    assert!(matches!(r.next(StreamEvent::Other), StreamStep::Over));
}

#[test]
fn stream_reader_passes_over_what_is_not_its_own() {
    let info = StreamInfo {
        stream_id: 2,
        total_chunks: 1,
        total_size: 1,
        checksum_algo: "xor8".to_string(),
    };
    let mut r = StreamReader::new("a".to_string(), info);
    assert_eq!((r.stream_id(), r.total_chunks(), r.peer_id()), (2, 1, "a"));
    let foreign = StreamChunkMsg { stream_id: 4, chunk_index: 0, data: vec![1] };
    assert!(matches!(r.next(StreamEvent::Chunk(Some(foreign))), StreamStep::Continue));
    assert!(matches!(r.next(StreamEvent::Chunk(None)), StreamStep::Continue));
    let foreign = StreamEndMsg { stream_id: 4, checksum: 0 };
    assert!(matches!(r.next(StreamEvent::End(Some(foreign))), StreamStep::Continue));
    assert!(matches!(r.next(StreamEvent::Other), StreamStep::Continue));
    assert!(matches!(r.next(StreamEvent::Failed), StreamStep::Over));
}

#[test]
fn stream_counts_are_exact_at_the_edges() {
    let n = node("a");
    let mut ids = StreamIds::new();
    let count = |data: &[u8], size: usize, ids: &mut StreamIds| {
        create_stream_with_chunk_size(&n, ids, "b", data, size).unwrap().0.total_chunks
    };
    assert_eq!(count(&[], 10, &mut ids), 0);
    assert_eq!(count(&[0; 10], 10, &mut ids), 1);
    assert_eq!(count(&[0; 11], 10, &mut ids), 2);
    assert!(matches!(
        create_stream_with_chunk_size(&n, &mut ids, "b", &[1], 0),
        Err(MlinkError::HandlerError(ref m)) if m == "chunk_size must be > 0"
    ));
    let (_, w) = create_stream(&n, &mut ids, "b", &[0; 600]).unwrap();
    assert_eq!(w.chunk_size(), DEFAULT_CHUNK_SIZE);
    assert_eq!(w.total_chunks(), 3);
}

#[test]
fn stream_ids_of_the_two_ends_never_meet() {
    let central = node("a");
    let peripheral = node("z");
    let mut ids_a = StreamIds::new();
    let mut ids_z = StreamIds::new();
    for _ in 0..5 {
        let (x, _) = create_stream(&central, &mut ids_a, "z", b"d").unwrap();
        let (y, _) = create_stream(&peripheral, &mut ids_z, "a", b"d").unwrap();
        assert_eq!(x.stream_id % 2, 0);
        assert_eq!(y.stream_id % 2, 1);
    }
}

#[test]
fn checksum_of_the_whole_is_that_of_the_parts() {
    let data = [1u8, 2, 4, 8, 0xF0];
    assert_eq!(xor8_checksum(&data), 0xFF);
    assert_eq!(
        xor8_checksum(&data[..2]) ^ xor8_checksum(&data[2..]),
        xor8_checksum(&data)
    );
}

#[test]
fn only_chunks_and_ends_matter_to_a_stream() {
    let chunk = || Some(StreamChunkMsg { stream_id: 2, chunk_index: 0, data: vec![7] });
    let end = || Some(StreamEndMsg { stream_id: 2, checksum: 7 });
    assert!(matches!(
        stream_event(MessageType::StreamChunk, chunk(), end()),
        StreamEvent::Chunk(Some(StreamChunkMsg { stream_id: 2, .. }))
    ));
    assert!(matches!(
        stream_event(MessageType::StreamEnd, chunk(), end()),
        StreamEvent::End(Some(StreamEndMsg { checksum: 7, .. }))
    ));
    assert!(matches!(stream_event(MessageType::StreamChunk, None, end()), StreamEvent::Chunk(None)));
    assert!(matches!(stream_event(MessageType::StreamEnd, chunk(), None), StreamEvent::End(None)));
    for t in [MessageType::StreamStart, MessageType::StreamAck, MessageType::Message] {
        assert!(matches!(stream_event(t, chunk(), end()), StreamEvent::Other));
    }
}
