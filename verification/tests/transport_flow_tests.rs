use std::time::Duration;

use mlink_core::protocol::errors::MlinkError;
use mlink_core::transport::ble::{
    find_characteristics, BleTransport, DialAction, DialEvent, Properties, Sighting, RX_CHAR_UUID,
    TX_CHAR_UUID,
};
use mlink_core::transport::framing::{packet_len, prefix_packet};
use mlink_core::transport::ipc::IpcTransport;
use mlink_core::transport::mock::MockTransport;
use mlink_core::transport::peripheral::{
    advertised_name, next_attempt, start, wait_for_advertising_started, wait_for_central,
    wait_for_powered_on, wait_for_service_added, Awaited, BringUpAction, BringUpStage,
    CentralRoutes, ManagerState, PeripheralEvent, WaitStep,
};
use mlink_core::transport::tcp::{
    browse_once, local_hostname, sanitize_instance, BrowseEvent, ResolvedService, TcpTransport,
};
use mlink_core::transport::DiscoveredPeer;

fn failure(step: WaitStep) -> String {
    match step {
        WaitStep::Fail(MlinkError::HandlerError(m)) => m,
        _ => panic!("expected a failure"),
    }
}

fn peer(id: &str) -> DiscoveredPeer {
    DiscoveredPeer { id: id.to_string(), name: "n".to_string(), rssi: None, metadata: vec![] }
}

#[test]
fn listen_returns_error_with_explanation() {
    match BleTransport::new().listen_unsupported() {
        MlinkError::HandlerError(m) => assert!(m.contains("btleplug")),
        _ => panic!("expected HandlerError"),
    }
}

#[test]
fn advertised_room_is_read_from_the_name() {
    let room = [0xDE, 0xAD, 0xBE, 0xEF, 0, 1, 2, 3];
    let name = advertised_name("node", Some(room));
    assert_eq!(name, "node#deadbeef00010203");
    assert_eq!(advertised_name("node", None), "node");
    let seen = BleTransport::new().discover(vec![
        Sighting {
            id: "1".to_string(),
            properties: Some(Properties {
                local_name: Some(name),
                rssi: Some(-40),
                manufacturer: vec![9],
            }),
        },
        Sighting { id: "2".to_string(), properties: None },
        Sighting {
            id: "3".to_string(),
            properties: Some(Properties { local_name: None, rssi: None, manufacturer: vec![7, 8] }),
        },
    ]);
    assert_eq!(seen.len(), 2);
    assert_eq!(seen[0].id, "1");
    assert_eq!(seen[0].name, "node");
    assert_eq!(seen[0].rssi, Some(-40));
    assert_eq!(seen[0].metadata, room.to_vec());
    assert_eq!(seen[1].id, "3");
    assert_eq!(seen[1].name, "");
    assert_eq!(seen[1].metadata, vec![7, 8]);
}

#[test]
fn dialling_goes_step_by_step() {
    let ids = vec!["x".to_string(), "p".to_string()];
    assert!(matches!(
        BleTransport::connect(DialEvent::Scanned(ids), "p"),
        DialAction::Probe { place: 1 }
    ));
    assert!(matches!(
        BleTransport::connect(DialEvent::Scanned(vec![]), "p"),
        DialAction::Fail(MlinkError::PeerGone { ref peer_id }) if peer_id == "p"
    ));
    assert!(matches!(
        BleTransport::connect(DialEvent::Found { connected: false }, "p"),
        DialAction::Connect
    ));
    assert!(matches!(
        BleTransport::connect(DialEvent::Found { connected: true }, "p"),
        DialAction::DiscoverServices
    ));
    assert!(matches!(
        BleTransport::connect(DialEvent::Connected(Err(MlinkError::Timeout)), "p"),
        DialAction::Fail(MlinkError::Timeout)
    ));
    let uuids = vec!["other".to_string(), RX_CHAR_UUID.to_string(), TX_CHAR_UUID.to_string()];
    assert!(matches!(
        BleTransport::connect(DialEvent::Discovered(Ok(uuids)), "p"),
        DialAction::Subscribe { tx: 2, rx: 1 }
    ));
    assert!(matches!(
        BleTransport::connect(DialEvent::Subscribed(Ok(())), "p"),
        DialAction::Open
    ));
}

#[test]
fn missing_characteristics_are_named() {
    let tx = vec![TX_CHAR_UUID.to_string()];
    let rx = vec![RX_CHAR_UUID.to_string()];
    assert!(matches!(
        find_characteristics(&rx, "p"),
        Err(MlinkError::HandlerError(ref m)) if m == "TX characteristic missing on p"
    ));
    assert!(matches!(
        find_characteristics(&tx, "p"),
        Err(MlinkError::HandlerError(ref m)) if m == "RX characteristic missing on p"
    ));
}

#[test]
fn packets_carry_their_length() {
    assert_eq!(prefix_packet(b"abc").unwrap(), vec![0, 0, 0, 3, b'a', b'b', b'c']);
    assert_eq!(prefix_packet(b"").unwrap(), vec![0, 0, 0, 0]);
    assert_eq!(packet_len(&[0, 1, 0, 2]), 0x1_0002);
    let data = vec![5u8; 2 * 1024 * 1024];
    let packet = prefix_packet(&data).unwrap();
    let head = [packet[0], packet[1], packet[2], packet[3]];
    assert_eq!(packet_len(&head) as usize, data.len());
    assert_eq!(&packet[4..], &data[..]);
}

#[test]
fn discover_missing_socket_returns_empty() {
    assert!(IpcTransport::new("/tmp/none.sock".to_string()).discover(false).is_empty());
}

#[test]
fn discover_existing_socket_returns_peer() {
    let found = IpcTransport::new("/tmp/x.sock".to_string()).discover(true);
    assert_eq!(found.len(), 1);
    assert_eq!(found[0].id, "/tmp/x.sock");
    assert_eq!(found[0].name, "/tmp/x.sock");
}

#[test]
fn ipc_dials_the_peer_or_its_own_socket() {
    let t = IpcTransport::new("/tmp/x.sock".to_string());
    assert_eq!(t.connect(&peer("/tmp/y.sock")), "/tmp/y.sock");
    assert_eq!(t.connect(&peer("")), "/tmp/x.sock");
    assert_eq!(IpcTransport::incoming_id(None), "ipc-peer");
    assert_eq!(IpcTransport::incoming_id(Some("p".to_string())), "p");
}

#[test]
fn discover_returns_empty() {
    let t = MockTransport::new();
    assert!(t.discover().is_empty());
    assert!(matches!(t.connect(), MlinkError::HandlerError(_)));
    assert!(matches!(t.listen(), MlinkError::HandlerError(_)));
}

#[test]
fn per_central_routing_isolates_receivers() {
    let mut routes: CentralRoutes<&str> = CentralRoutes::new();
    assert!(routes.subscribe("a".to_string(), "channel-a").is_none());
    assert!(routes.subscribe("b".to_string(), "channel-b").is_none());
    assert_eq!(routes.route("a"), Some(&"channel-a"));
    assert_eq!(routes.route("b"), Some(&"channel-b"));
    assert_eq!(routes.route("c"), None);
}

#[test]
fn per_central_unsubscribe_closes_receiver() {
    let mut routes: CentralRoutes<&str> = CentralRoutes::new();
    routes.subscribe("a".to_string(), "one");
    assert_eq!(routes.unsubscribe("a"), Some("one"));
    assert_eq!(routes.route("a"), None);
    assert_eq!(routes.unsubscribe("a"), None);
}

#[test]
fn wait_for_central_creates_fresh_channel_on_reconnect() {
    let mut routes: CentralRoutes<&str> = CentralRoutes::new();
    routes.subscribe("a".to_string(), "old");
    assert_eq!(routes.subscribe("a".to_string(), "new"), Some("old"));
    assert_eq!(routes.route("a"), Some(&"new"));
    let came = PeripheralEvent::CentralSubscribed { central_id: "a".to_string() };
    assert_eq!(wait_for_central(Some(came)).unwrap(), Some("a".to_string()));
    assert_eq!(wait_for_central(Some(PeripheralEvent::Received(vec![]))).unwrap(), None);
    assert!(wait_for_central(None).is_err());
}

#[test]
fn waiting_for_the_radio() {
    let on = |s| Awaited::Event(PeripheralEvent::StateChanged(s));
    assert!(matches!(wait_for_powered_on(on(ManagerState::PoweredOn)), WaitStep::Done));
    assert!(matches!(wait_for_powered_on(on(ManagerState::Resetting)), WaitStep::Wait));
    assert_eq!(
        failure(wait_for_powered_on(on(ManagerState::PoweredOff))),
        "CBPeripheralManager in non-usable state CBManagerState(4)"
    );
    assert_eq!(
        failure(wait_for_powered_on(Awaited::TimedOut)),
        "CBPeripheralManager never reached PoweredOn within 10s"
    );
    assert!(failure(wait_for_powered_on(Awaited::Closed)).contains("closed before PoweredOn"));
}

#[test]
fn waiting_for_the_service_and_the_advertisement() {
    let added = |r| Awaited::Event(PeripheralEvent::ServiceAdded(r));
    assert!(matches!(wait_for_service_added(added(Ok(()))), WaitStep::Done));
    assert_eq!(
        failure(wait_for_service_added(added(Err("no".to_string())))),
        "addService failed: no"
    );
    let started = |r| Awaited::Event(PeripheralEvent::AdvertisingStarted(r));
    assert!(matches!(wait_for_advertising_started(started(Ok(()))), WaitStep::Done));
    assert!(matches!(wait_for_advertising_started(added(Ok(()))), WaitStep::Wait));
    assert_eq!(
        failure(wait_for_advertising_started(started(Err("no".to_string())))),
        "startAdvertising failed: no"
    );
}

#[test]
fn bring_up_goes_in_order() {
    let mut stage = BringUpStage::PoweringOn;
    let early = Awaited::Event(PeripheralEvent::ServiceAdded(Ok(())));
    assert!(matches!(start(&mut stage, early), BringUpAction::Wait));
    assert_eq!(stage, BringUpStage::PoweringOn);
    let on = Awaited::Event(PeripheralEvent::StateChanged(ManagerState::PoweredOn));
    assert!(matches!(start(&mut stage, on), BringUpAction::AddService));
    let added = Awaited::Event(PeripheralEvent::ServiceAdded(Ok(())));
    assert!(matches!(start(&mut stage, added), BringUpAction::StartAdvertising));
    let started = Awaited::Event(PeripheralEvent::AdvertisingStarted(Ok(())));
    assert!(matches!(start(&mut stage, started), BringUpAction::Ready));
    assert_eq!(stage, BringUpStage::Up);
    let mut stage = BringUpStage::Advertising;
    assert!(matches!(start(&mut stage, Awaited::TimedOut), BringUpAction::Fail(_)));
    assert_eq!(stage, BringUpStage::Advertising);
}

#[test]
fn notifications_are_tried_fifty_times() {
    assert_eq!(next_attempt(0).unwrap(), 1);
    assert_eq!(next_attempt(49).unwrap(), 50);
    assert!(matches!(
        next_attempt(50),
        Err(MlinkError::HandlerError(ref m)) if m.contains("stayed full")
    ));
}

#[test]
fn discover_parses_room_hash_from_txt() {
    let mut t = TcpTransport::new().with_port(0);
    t.set_local_name("my node".to_string());
    t.set_room_hash([0xA5; 8]);
    t.bound(4242);
    assert_eq!(t.port(), 4242);
    let a = t.announcement();
    assert_eq!(a.instance, "my-node-4242");
    assert_eq!(a.name, "my node");
    let mut found: Vec<DiscoveredPeer> = Vec::new();
    let service = ResolvedService {
        fullname: "full".to_string(),
        name: Some(a.name),
        room: a.room,
        addresses: vec!["10.0.0.1:4242".to_string(), "10.0.0.2:4242".to_string()],
    };
    assert!(browse_once(&mut found, BrowseEvent::Resolved(service)));
    assert_eq!(found.len(), 2);
    assert_eq!(found[0].id, "10.0.0.1:4242");
    assert_eq!(found[0].name, "my node");
    assert_eq!(found[0].metadata, vec![0xA5; 8]);
    let again = ResolvedService {
        fullname: "full".to_string(),
        name: None,
        room: Some("not hex".to_string()),
        addresses: vec!["10.0.0.1:4242".to_string(), "10.0.0.3:4242".to_string()],
    };
    assert!(browse_once(&mut found, BrowseEvent::Resolved(again)));
    assert_eq!(found.len(), 3);
    assert_eq!(found[0].name, "my node");
    assert_eq!(found[2].name, "full");
    assert!(found[2].metadata.is_empty());
    assert!(browse_once(&mut found, BrowseEvent::Other));
    assert!(!browse_once(&mut found, BrowseEvent::Ended));
    assert_eq!(found.len(), 3);
}

#[test]
fn instances_and_hosts_have_names() {
    assert_eq!(sanitize_instance(""), "mlink");
    assert_eq!(sanitize_instance("a_b c"), "a-b-c");
    let some = |s: &str| Some(s.to_string());
    assert_eq!(local_hostname(some("h"), some("g"), some("c")), "h");
    assert_eq!(local_hostname(None, some("g"), some("c")), "g");
    assert_eq!(local_hostname(None, None, some("c")), "c");
    assert_eq!(local_hostname(None, None, None), "mlink-host");
}

#[test]
fn durations_are_three_seconds_unless_set() {
    assert_eq!(TcpTransport::new().discover_duration(), Duration::from_secs(3));
    assert_eq!(BleTransport::new().scan_duration(), Duration::from_secs(3));
    let d = Duration::from_millis(10);
    assert_eq!(TcpTransport::new().with_discover_duration(d).discover_duration(), d);
    assert_eq!(BleTransport::new().with_scan_duration(d).scan_duration(), d);
}
