//! Peers over Bluetooth Low Energy.

use std::time::Duration;

use vstd::prelude::*;

use crate::clock::{duration_of_secs, seconds};
use crate::protocol::errors::{MlinkError, Result};
use crate::text::{
    all_hex, hex_of, hex_value, lemma_unhex_of_hex, parse_hex8, str_eq, unhex,
};
use crate::transport::{DiscoveredPeer, TransportCapabilities};

verus! {

/// The service that every node offers.
pub const MLINK_SERVICE_UUID: &'static str = "0000ffaa-0000-1000-8000-00805f9b34fb";

/// The characteristic that a central writes to.
pub const TX_CHAR_UUID: &'static str = "0000ffab-0000-1000-8000-00805f9b34fb";

/// The characteristic that a central is notified on.
pub const RX_CHAR_UUID: &'static str = "0000ffac-0000-1000-8000-00805f9b34fb";

pub const CTRL_CHAR_UUID: &'static str = "0000ffad-0000-1000-8000-00805f9b34fb";

pub const DEFAULT_MTU: usize = 512;

/// How long a scan lasts, in seconds.
pub const DEFAULT_SCAN_DURATION: u64 = 3;

/// How the radio is used.
pub struct BleTransport {
    negotiated_mtu: usize,
    scan_duration: Duration,
    local_name: String,
    room_hash: Option<[u8; 8]>,
}

/// What a transport is set to.
pub struct BleView {
    pub mtu: usize,
    pub scan_duration: Duration,
    pub local_name: Seq<char>,
    pub room_hash: Option<[u8; 8]>,
}

impl BleTransport {
    pub closed spec fn view(&self) -> BleView {
        BleView {
            mtu: self.negotiated_mtu,
            scan_duration: self.scan_duration,
            local_name: self.local_name@,
            room_hash: self.room_hash,
        }
    }

    pub fn new() -> (t: Self)
        ensures
            t@ == (BleView {
                mtu: DEFAULT_MTU,
                scan_duration: duration_of_secs(DEFAULT_SCAN_DURATION),
                local_name: "mlink"@,
                room_hash: None,
            }),
    {
        BleTransport {
            negotiated_mtu: DEFAULT_MTU,
            scan_duration: seconds(DEFAULT_SCAN_DURATION),
            local_name: "mlink".to_owned(),
            room_hash: None,
        }
    }

    pub fn with_scan_duration(self, duration: Duration) -> (t: Self)
        ensures
            t@ == (BleView { scan_duration: duration, ..self@ }),
    {
        BleTransport {
            negotiated_mtu: self.negotiated_mtu,
            scan_duration: duration,
            local_name: self.local_name,
            room_hash: self.room_hash,
        }
    }

    pub fn scan_duration(&self) -> (d: Duration)
        ensures
            d == self@.scan_duration,
    {
        self.scan_duration
    }

    pub fn set_negotiated_mtu(&mut self, mtu: usize)
        ensures
            final(self)@ == (BleView { mtu, ..old(self)@ }),
    {
        self.negotiated_mtu = mtu;
    }

    /// Sets the name under which this node advertises itself.
    pub fn set_local_name(&mut self, name: String)
        ensures
            final(self)@ == (BleView { local_name: name@, ..old(self)@ }),
    {
        self.local_name = name;
    }

    pub fn local_name(&self) -> (s: &str)
        ensures
            s@ == self@.local_name,
    {
        self.local_name.as_str()
    }

    /// Sets the room that is woven into the advertised name.
    pub fn set_room_hash(&mut self, hash: [u8; 8])
        ensures
            final(self)@ == (BleView { room_hash: Some(hash), ..old(self)@ }),
    {
        self.room_hash = Some(hash);
    }

    pub fn clear_room_hash(&mut self)
        ensures
            final(self)@ == (BleView { room_hash: None, ..old(self)@ }),
    {
        self.room_hash = None;
    }

    pub fn room_hash(&self) -> (r: Option<&[u8; 8]>)
        ensures
            match r {
                Some(h) => self@.room_hash == Some(*h),
                None => self@.room_hash is None,
            },
    {
        match &self.room_hash {
            Some(h) => Some(h),
            None => None,
        }
    }

    pub fn id(&self) -> (s: &'static str)
        ensures
            s@ == "ble"@,
    {
        "ble"
    }

    pub fn capabilities(&self) -> (c: TransportCapabilities)
        ensures
            c == (TransportCapabilities {
                max_peers: 7,
                throughput_bps: 1_200_000,
                latency_ms: 15,
                reliable: true,
                bidirectional: true,
            }),
    {
        TransportCapabilities {
            max_peers: 7,
            throughput_bps: 1_200_000,
            latency_ms: 15,
            reliable: true,
            bidirectional: true,
        }
    }

    /// Why this node cannot wait for centrals where the platform offers no peripheral role.
    pub fn listen_unsupported(&self) -> (e: MlinkError)
        ensures
            e matches MlinkError::HandlerError(m) && m@
                == "BleTransport::listen unsupported on this platform: btleplug has no peripheral-role API; only macOS has a native CBPeripheralManager bridge"@,
    {
        MlinkError::HandlerError(
            "BleTransport::listen unsupported on this platform: btleplug has no peripheral-role API; only macOS has a native CBPeripheralManager bridge".to_owned(),
        )
    }

    pub fn mtu(&self) -> (n: usize)
        ensures
            n == self@.mtu,
    {
        self.negotiated_mtu
    }
}

impl Default for BleTransport {
    fn default() -> (t: Self)
        ensures
            t@ == (BleView {
                mtu: DEFAULT_MTU,
                scan_duration: duration_of_secs(DEFAULT_SCAN_DURATION),
                local_name: "mlink"@,
                room_hash: None,
            }),
    {
        Self::new()
    }
}

/// Whether the last `#` of a name is at place `i`.
pub open spec fn last_mark(name: Seq<char>, i: int) -> bool {
    &&& 0 <= i < name.len()
    &&& name[i] == '#'
    &&& forall|j: int| i < j < name.len() ==> #[trigger] name[j] != '#'
}

/// The parts of a name that ends in `#` and sixteen hexadecimal digits: what stands before, and
/// the bytes that the digits stand for.
pub open spec fn name_parts(name: Seq<char>) -> Option<(Seq<char>, Seq<u8>)> {
    if exists|i: int| last_mark(name, i) {
        let i = choose|i: int| last_mark(name, i);
        let digits = name.skip(i + 1);
        if digits.len() == 16 && all_hex(digits) {
            Some((name.take(i), unhex(digits)))
        } else {
            None
        }
    } else {
        None
    }
}

proof fn lemma_last_mark(name: Seq<char>, i: int)
    requires
        last_mark(name, i),
    ensures
        forall|j: int| last_mark(name, j) ==> j == i,
{
    assert forall|j: int| last_mark(name, j) implies j == i by {
        if i < j {
            assert(name[j] != '#');
        } else if j < i {
            assert(name[i] != '#');
        }
    }
}

/// Takes an advertised name apart into the node's own name and its room.
pub fn parse_room_hash_from_name(name: &str) -> (r: Option<(String, [u8; 8])>)
    ensures
        match r {
            Some((base, hash)) => name_parts(name@) == Some((base@, hash@)),
            None => name_parts(name@) is None,
        },
{
    let n: usize = name.unicode_len();
    let mut i: usize = n;
    while i > 0 && name.get_char(i - 1) != '#'
        invariant
            i <= n,
            n == name@.len(),
            forall|j: int| i <= j < n ==> #[trigger] name@[j] != '#',
        decreases i,
    {
        i = i - 1;
    }
    if i == 0 {
        return None;
    }
    proof {
        assert(last_mark(name@, i - 1));
        lemma_last_mark(name@, i - 1);
    }
    let digits = name.substring_char(i, n);
    assert(digits@ =~= name@.skip(i as int));
    match parse_hex8(digits) {
        None => None,
        Some(hash) => {
            let base = name.substring_char(0, i - 1);
            assert(base@ =~= name@.take(i - 1));
            Some((base.to_owned(), hash))
        },
    }
}

/// The name that a node advertises: its own, and the room's hash behind a `#` if there is one.
pub open spec fn advertised(name: Seq<char>, room: Option<[u8; 8]>) -> Seq<char> {
    match room {
        Some(h) => name + "#"@ + hex_of(h@),
        None => name,
    }
}

/// A scanner reads the room back from the advertised name, whatever the node's own name is.
pub proof fn advertised_room_is_read_back(name: Seq<char>, room: [u8; 8])
    ensures
        name_parts(advertised(name, Some(room))) == Some((name, room@)),
{
    reveal_strlit("#");
    let t = advertised(name, Some(room));
    let i = name.len() as int;
    let digits = hex_of(room@);
    lemma_unhex_of_hex(room@);
    assert(t[i] == '#');
    assert forall|j: int| i < j < t.len() implies #[trigger] t[j] != '#' by {
        assert(t[j] == digits[j - i - 1]);
    }
    assert(last_mark(t, i));
    lemma_last_mark(t, i);
    assert(t.skip(i + 1) =~= digits);
    assert(t.take(i) =~= name);
}

/// What a scan has read of a peer.
pub struct Properties {
    pub local_name: Option<String>,
    pub rssi: Option<i16>,
    /// The bytes of all manufacturers together.
    pub manufacturer: Vec<u8>,
}

/// A peer that a scan has turned up; its properties may not have been read.
pub struct Sighting {
    pub id: String,
    pub properties: Option<Properties>,
}

/// The name in an advertisement; empty where there is none.
pub open spec fn raw_name(props: Properties) -> Seq<char> {
    match props.local_name {
        Some(n) => n@,
        None => Seq::empty(),
    }
}

/// Whether `p` is the peer that an advertisement stands for. Where the name holds no room, the
/// manufacturers' bytes are kept, so that the peer still shows up.
pub open spec fn is_advertised_peer(p: DiscoveredPeer, id: Seq<char>, props: Properties) -> bool {
    &&& p.id@ == id
    &&& p.rssi == props.rssi
    &&& match name_parts(raw_name(props)) {
        Some((base, hash)) => p.name@ == base && p.metadata@ == hash,
        None => p.name@ == raw_name(props) && p.metadata@ == props.manufacturer@,
    }
}

/// The sightings whose properties have been read.
pub open spec fn readable(sightings: Seq<Sighting>) -> Seq<Sighting> {
    sightings.filter(|s: Sighting| s.properties is Some)
}

fn advertised_peer(id: String, props: Properties) -> (p: DiscoveredPeer)
    ensures
        is_advertised_peer(p, id@, props),
{
    let name: String = match props.local_name {
        Some(n) => n,
        None => String::new(),
    };
    assert(name@ =~= raw_name(props));
    match parse_room_hash_from_name(name.as_str()) {
        Some((base, hash)) => DiscoveredPeer {
            id,
            name: base,
            rssi: props.rssi,
            metadata: vstd::slice::slice_to_vec(&hash),
        },
        None => DiscoveredPeer { id, name, rssi: props.rssi, metadata: props.manufacturer },
    }
}

impl BleTransport {
    /// The peers that a scan has turned up, in its order. A sighting without properties is
    /// passed over.
    pub fn discover(&self, sightings: Vec<Sighting>) -> (r: Vec<DiscoveredPeer>)
        ensures
            r@.len() == readable(sightings@).len(),
            forall|i: int|
                0 <= i < r@.len() ==> is_advertised_peer(
                    #[trigger] r@[i],
                    readable(sightings@)[i].id@,
                    readable(sightings@)[i].properties->0,
                ),
    {
        let ghost all = sightings@;
        let mut out: Vec<DiscoveredPeer> = Vec::new();
        proof {
            reveal(Seq::filter);
            assert(all.take(0) =~= Seq::empty());
        }
        for s in it: sightings
            invariant
                it.seq() == all,
                out@.len() == readable(all.take(it.index() as int)).len(),
                forall|i: int|
                    0 <= i < out@.len() ==> is_advertised_peer(
                        #[trigger] out@[i],
                        readable(all.take(it.index() as int))[i].id@,
                        readable(all.take(it.index() as int))[i].properties->0,
                    ),
        {
            proof {
                reveal(Seq::filter);
                let k = it.index() as int;
                assert(all.take(k + 1).drop_last() =~= all.take(k));
            }
            match s.properties {
                Some(props) => {
                    let p = advertised_peer(s.id, props);
                    out.push(p);
                },
                None => {},
            }
        }
        proof {
            assert(all.take(all.len() as int) =~= all);
        }
        out
    }

    /// Dials a peer, one step at a time.
    pub fn connect(event: DialEvent, peer_id: &str) -> (action: DialAction)
        ensures
            dial_step(event, peer_id@, action),
    {
        match event {
            DialEvent::Scanned(ids) => match place_of(&ids, peer_id) {
                Some(place) => DialAction::Probe { place },
                None => DialAction::Fail(MlinkError::PeerGone { peer_id: peer_id.to_owned() }),
            },
            DialEvent::Found { connected } => if connected {
                DialAction::DiscoverServices
            } else {
                DialAction::Connect
            },
            DialEvent::Connected(Ok(_)) => DialAction::DiscoverServices,
            DialEvent::Connected(Err(e)) => DialAction::Fail(e),
            DialEvent::Discovered(Ok(uuids)) => match find_characteristics(&uuids, peer_id) {
                Ok((tx, rx)) => DialAction::Subscribe { tx, rx },
                Err(e) => DialAction::Fail(e),
            },
            DialEvent::Discovered(Err(e)) => DialAction::Fail(e),
            DialEvent::Subscribed(Ok(_)) => DialAction::Open,
            DialEvent::Subscribed(Err(e)) => DialAction::Fail(e),
        }
    }
}

/// Whether `i` is the first place at which `t` stands.
pub open spec fn first_place(texts: Seq<String>, t: Seq<char>, i: int) -> bool {
    &&& 0 <= i < texts.len()
    &&& texts[i]@ == t
    &&& forall|j: int| 0 <= j < i ==> (#[trigger] texts[j])@ != t
}

/// Whether `t` stands nowhere.
pub open spec fn stands_nowhere(texts: Seq<String>, t: Seq<char>) -> bool {
    forall|j: int| 0 <= j < texts.len() ==> (#[trigger] texts[j])@ != t
}

fn place_of(texts: &Vec<String>, t: &str) -> (r: Option<usize>)
    ensures
        match r {
            Some(i) => first_place(texts@, t@, i as int),
            None => stands_nowhere(texts@, t@),
        },
{
    let mut i: usize = 0;
    while i < texts.len()
        invariant
            i <= texts@.len(),
            forall|j: int| 0 <= j < i ==> (#[trigger] texts@[j])@ != t@,
        decreases texts@.len() - i,
    {
        if str_eq(texts[i].as_str(), t) {
            return Some(i);
        }
        i = i + 1;
    }
    None
}

/// Whether `r` says where the two characteristics that carry frames stand, or which is missing.
pub open spec fn characteristics_found(
    uuids: Seq<String>,
    peer: Seq<char>,
    r: Result<(usize, usize)>,
) -> bool {
    if stands_nowhere(uuids, TX_CHAR_UUID@) {
        r matches Err(MlinkError::HandlerError(m)) && m@ == "TX characteristic missing on "@ + peer
    } else if stands_nowhere(uuids, RX_CHAR_UUID@) {
        r matches Err(MlinkError::HandlerError(m)) && m@ == "RX characteristic missing on "@ + peer
    } else {
        r matches Ok((tx, rx)) && first_place(uuids, TX_CHAR_UUID@, tx as int) && first_place(
            uuids,
            RX_CHAR_UUID@,
            rx as int,
        )
    }
}

/// Where the two characteristics that carry frames stand among those that a peer offers.
pub fn find_characteristics(uuids: &Vec<String>, peer_id: &str) -> (r: Result<(usize, usize)>)
    ensures
        characteristics_found(uuids@, peer_id@, r),
{
    let tx: usize = match place_of(uuids, TX_CHAR_UUID) {
        Some(i) => i,
        None => {
            let mut m = "TX characteristic missing on ".to_owned();
            m.append(peer_id);
            return Err(MlinkError::HandlerError(m));
        },
    };
    assert(uuids@[tx as int]@ == TX_CHAR_UUID@);
    match place_of(uuids, RX_CHAR_UUID) {
        Some(rx) => {
            assert(uuids@[rx as int]@ == RX_CHAR_UUID@);
            Ok((tx, rx))
        },
        None => {
            let mut m = "RX characteristic missing on ".to_owned();
            m.append(peer_id);
            Err(MlinkError::HandlerError(m))
        },
    }
}

/// What is waited for while a peer is being dialled.
pub enum DialEvent {
    /// The adapter knows the peers of these ids.
    Scanned(Vec<String>),
    /// The peer was found; it may be connected already.
    Found { connected: bool },
    Connected(Result<()>),
    /// The peer offers these characteristics.
    Discovered(Result<Vec<String>>),
    Subscribed(Result<()>),
}

/// What is to be done next.
pub enum DialAction {
    /// Ask the peer at this place whether it is connected.
    Probe { place: usize },
    Connect,
    DiscoverServices,
    /// Ask to be notified on the characteristic at place `rx`; frames are written to `tx`.
    Subscribe { tx: usize, rx: usize },
    /// The connection is open.
    Open,
    Fail(MlinkError),
}

/// Whether `action` is what follows `event` while a peer is being dialled. Whatever fails ends
/// it.
pub open spec fn dial_step(event: DialEvent, peer: Seq<char>, action: DialAction) -> bool {
    match event {
        DialEvent::Scanned(ids) => if stands_nowhere(ids@, peer) {
            action matches DialAction::Fail(MlinkError::PeerGone { peer_id }) && peer_id@ == peer
        } else {
            action matches DialAction::Probe { place } && first_place(ids@, peer, place as int)
        },
        DialEvent::Found { connected } => if connected {
            action is DiscoverServices
        } else {
            action is Connect
        },
        DialEvent::Connected(Ok(_)) => action is DiscoverServices,
        DialEvent::Connected(Err(e)) => action == DialAction::Fail(e),
        DialEvent::Discovered(Ok(uuids)) => match action {
            DialAction::Subscribe { tx, rx } => characteristics_found(uuids@, peer, Ok((tx, rx))),
            DialAction::Fail(e) => characteristics_found(uuids@, peer, Err(e)),
            _ => false,
        },
        DialEvent::Discovered(Err(e)) => action == DialAction::Fail(e),
        DialEvent::Subscribed(Ok(_)) => action is Open,
        DialEvent::Subscribed(Err(e)) => action == DialAction::Fail(e),
    }
}

/// An advertised name is taken apart where it ends in `#` and sixteen hexadecimal digits, and only
/// there.
pub proof fn room_stands_behind_the_last_mark(base: Seq<char>, digits: Seq<char>, name: Seq<char>)
    ensures
        digits.len() == 16 && all_hex(digits) ==> name_parts(base + "#"@ + digits) == Some(
            (base, unhex(digits)),
        ),
        (forall|i: int| 0 <= i < name.len() ==> #[trigger] name[i] != '#') ==> name_parts(name)
            is None,
        name_parts(name) matches Some((b, h)) ==> {
            let d = name.skip(b.len() as int + 1);
            &&& name == b + "#"@ + d
            &&& d.len() == 16
            &&& all_hex(d)
            &&& h == unhex(d)
        },
{
    reveal_strlit("#");
    if digits.len() == 16 && all_hex(digits) {
        let t = base + "#"@ + digits;
        let i = base.len() as int;
        assert(t[i] == '#');
        assert forall|j: int| i < j < t.len() implies #[trigger] t[j] != '#' by {
            assert(t[j] == digits[j - i - 1]);
            assert(hex_value(digits[j - i - 1]) is Some);
        }
        assert(last_mark(t, i));
        lemma_last_mark(t, i);
        assert(t.skip(i + 1) =~= digits);
        assert(t.take(i) =~= base);
    }
    if let Some((b, h)) = name_parts(name) {
        let i = choose|i: int| last_mark(name, i);
        assert(b.len() == i);
        assert(name =~= b + "#"@ + name.skip(i + 1));
    }
}

/// What a node advertises is its name alone where it is in no room, and else its name, a `#` and
/// the room's hash in digits.
pub proof fn advertised_name_ends_with_the_room(name: Seq<char>, room: [u8; 8])
    ensures
        advertised(name, None) == name,
        advertised(name, Some(room)) == name + "#"@ + hex_of(room@),
{
}

/// A scan turns up a peer for each sighting whose properties were read, and for no other: under
/// its id, with its signal strength; with the name and the room that its advertised name holds, or
/// where that holds no room with the whole name and the manufacturers' bytes.
pub proof fn every_readable_sighting_counts(
    sightings: Seq<Sighting>,
    more: Sighting,
    p: DiscoveredPeer,
    id: Seq<char>,
    props: Properties,
)
    ensures
        readable(Seq::<Sighting>::empty()).len() == 0,
        readable(sightings.push(more)) == if more.properties is Some {
            readable(sightings).push(more)
        } else {
            readable(sightings)
        },
        is_advertised_peer(p, id, props) ==> {
            let name = match props.local_name {
                Some(n) => n@,
                None => Seq::empty(),
            };
            &&& p.id@ == id
            &&& p.rssi == props.rssi
            &&& name_parts(name) is None ==> p.name@ == name && p.metadata@ == props.manufacturer@
            &&& name_parts(name) is Some ==> (p.name@, p.metadata@) == name_parts(name)->0
        },
{
    reveal(Seq::filter);
    assert(sightings.push(more).drop_last() =~= sightings);
}

/// A node that advertises a room is discovered with that room, and under its own name.
pub proof fn advertised_room_is_discovered(
    p: DiscoveredPeer,
    id: Seq<char>,
    props: Properties,
    name: Seq<char>,
    room: [u8; 8],
)
    requires
        is_advertised_peer(p, id, props),
        props.local_name is Some,
        props.local_name->0@ == advertised(name, Some(room)),
    ensures
        p.id@ == id,
        p.name@ == name,
        p.metadata@ == room@,
        p.rssi == props.rssi,
{
    advertised_room_is_read_back(name, room);
}

/// Dialling goes from the scan to the peer's place in it, over a connection where there is none,
/// to its services and its two characteristics, and opens once it notifies. What fails ends it.
pub proof fn dialling_goes_on_until_open(event: DialEvent, peer: Seq<char>, action: DialAction, k: int)
    requires
        dial_step(event, peer, action),
    ensures
        event matches DialEvent::Scanned(ids) ==> {
            &&& 0 <= k < ids@.len() && ids@[k]@ == peer ==> (action matches DialAction::Probe {
                place,
            } && place <= k && ids@[place as int]@ == peer)
            &&& (forall|j: int| 0 <= j < ids@.len() ==> (#[trigger] ids@[j])@ != peer) ==> (action
                matches DialAction::Fail(MlinkError::PeerGone { peer_id }) && peer_id@ == peer)
        },
        event == (DialEvent::Found { connected: true }) ==> action is DiscoverServices,
        event == (DialEvent::Found { connected: false }) ==> action is Connect,
        event matches DialEvent::Connected(Ok(_)) ==> action is DiscoverServices,
        event matches DialEvent::Connected(Err(e)) ==> action == DialAction::Fail(e),
        event matches DialEvent::Discovered(Err(e)) ==> action == DialAction::Fail(e),
        event matches DialEvent::Subscribed(Ok(_)) ==> action is Open,
        event matches DialEvent::Subscribed(Err(e)) ==> action == DialAction::Fail(e),
{
    if let DialEvent::Scanned(ids) = event {
        if 0 <= k < ids@.len() && ids@[k]@ == peer {
            assert(!stands_nowhere(ids@, peer));
        }
    }
}

/// The two characteristics that carry frames are found wherever they stand among those that a
/// peer offers, each at its first place; where one is missing there is no connection.
pub proof fn characteristics_are_found_anywhere(
    uuids: Seq<String>,
    peer: Seq<char>,
    r: Result<(usize, usize)>,
    t: int,
    x: int,
)
    requires
        characteristics_found(uuids, peer, r),
    ensures
        0 <= t < uuids.len() && 0 <= x < uuids.len() && uuids[t]@
            == "0000ffab-0000-1000-8000-00805f9b34fb"@ && uuids[x]@
            == "0000ffac-0000-1000-8000-00805f9b34fb"@ ==> (r matches Ok((tx, rx)) && tx <= t && rx
            <= x && uuids[tx as int]@ == uuids[t]@ && uuids[rx as int]@ == uuids[x]@),
        (forall|j: int|
            0 <= j < uuids.len() ==> (#[trigger] uuids[j])@
                != "0000ffab-0000-1000-8000-00805f9b34fb"@) ==> (r matches Err(
            MlinkError::HandlerError(m),
        ) && m@ == "TX characteristic missing on "@ + peer),
        0 <= t < uuids.len() && uuids[t]@ == "0000ffab-0000-1000-8000-00805f9b34fb"@ && (forall|
            j: int,
        |
            0 <= j < uuids.len() ==> (#[trigger] uuids[j])@
                != "0000ffac-0000-1000-8000-00805f9b34fb"@) ==> (r matches Err(
            MlinkError::HandlerError(m),
        ) && m@ == "RX characteristic missing on "@ + peer),
{
    if 0 <= t < uuids.len() && uuids[t]@ == TX_CHAR_UUID@ {
        assert(!stands_nowhere(uuids, TX_CHAR_UUID@));
    }
    if 0 <= x < uuids.len() && uuids[x]@ == RX_CHAR_UUID@ {
        assert(!stands_nowhere(uuids, RX_CHAR_UUID@));
    }
}

} // verus!
