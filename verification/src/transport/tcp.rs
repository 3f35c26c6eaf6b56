//! Peers on the local network.

use std::time::Duration;

use vstd::prelude::*;

use crate::clock::{duration_of_secs, seconds};
use crate::text::{
    all_hex, decimal, hex_of, hex_string, lemma_unhex_of_hex, parse_hex8, push_decimal, str_eq,
    unhex,
};
use crate::transport::{DiscoveredPeer, TransportCapabilities};

verus! {

/// The service under which nodes are announced.
pub const SERVICE_TYPE: &'static str = "_mlink._tcp.local.";

/// How long a search lasts, in seconds.
pub const DEFAULT_DISCOVER_DURATION: u64 = 3;

pub const DEFAULT_MTU: usize = 65536;

/// How this node is announced, and how it looks for others.
pub struct TcpTransport {
    port: u16,
    room_hash: Option<[u8; 8]>,
    local_name: String,
    discover_duration: Duration,
}

/// What a transport is set to.
pub struct TcpView {
    pub port: u16,
    pub room_hash: Option<[u8; 8]>,
    pub local_name: Seq<char>,
    pub discover_duration: Duration,
}

impl TcpTransport {
    pub closed spec fn view(&self) -> TcpView {
        TcpView {
            port: self.port,
            room_hash: self.room_hash,
            local_name: self.local_name@,
            discover_duration: self.discover_duration,
        }
    }

    pub fn new() -> (t: Self)
        ensures
            t@ == (TcpView {
                port: 0,
                room_hash: None,
                local_name: "mlink"@,
                discover_duration: duration_of_secs(DEFAULT_DISCOVER_DURATION),
            }),
    {
        TcpTransport {
            port: 0,
            room_hash: None,
            local_name: "mlink".to_owned(),
            discover_duration: seconds(DEFAULT_DISCOVER_DURATION),
        }
    }

    pub fn with_port(self, port: u16) -> (t: Self)
        ensures
            t@ == (TcpView { port, ..self@ }),
    {
        TcpTransport {
            port,
            room_hash: self.room_hash,
            local_name: self.local_name,
            discover_duration: self.discover_duration,
        }
    }

    pub fn with_discover_duration(self, duration: Duration) -> (t: Self)
        ensures
            t@ == (TcpView { discover_duration: duration, ..self@ }),
    {
        TcpTransport {
            port: self.port,
            room_hash: self.room_hash,
            local_name: self.local_name,
            discover_duration: duration,
        }
    }

    pub fn discover_duration(&self) -> (d: Duration)
        ensures
            d == self@.discover_duration,
    {
        self.discover_duration
    }

    pub fn set_local_name(&mut self, name: String)
        ensures
            final(self)@ == (TcpView { local_name: name@, ..old(self)@ }),
    {
        self.local_name = name;
    }

    pub fn local_name(&self) -> (s: &str)
        ensures
            s@ == self@.local_name,
    {
        self.local_name.as_str()
    }

    pub fn set_room_hash(&mut self, hash: [u8; 8])
        ensures
            final(self)@ == (TcpView { room_hash: Some(hash), ..old(self)@ }),
    {
        self.room_hash = Some(hash);
    }

    pub fn clear_room_hash(&mut self)
        ensures
            final(self)@ == (TcpView { room_hash: None, ..old(self)@ }),
    {
        self.room_hash = None;
    }

    pub fn room_hash(&self) -> (r: Option<&[u8; 8]>)
        ensures
            match r {
                Some(h) => self@.room_hash == Some(*h),
                None => self@.room_hash is None,
            },
    {
        match &self.room_hash {
            Some(h) => Some(h),
            None => None,
        }
    }

    pub fn port(&self) -> (p: u16)
        ensures
            p == self@.port,
    {
        self.port
    }

    /// Takes note of the port that the listener was bound to.
    pub fn bound(&mut self, port: u16)
        ensures
            final(self)@ == (TcpView { port, ..old(self)@ }),
    {
        self.port = port;
    }

    pub fn id(&self) -> (s: &'static str)
        ensures
            s@ == "tcp"@,
    {
        "tcp"
    }

    pub fn capabilities(&self) -> (c: TransportCapabilities)
        ensures
            c == (TransportCapabilities {
                max_peers: 32,
                throughput_bps: 100_000_000,
                latency_ms: 1,
                reliable: true,
                bidirectional: true,
            }),
    {
        TransportCapabilities {
            max_peers: 32,
            throughput_bps: 100_000_000,
            latency_ms: 1,
            reliable: true,
            bidirectional: true,
        }
    }

    pub fn mtu(&self) -> (n: usize)
        ensures
            n == DEFAULT_MTU,
    {
        DEFAULT_MTU
    }

    /// How this node is announced: the name of the instance, which the port makes unique, and
    /// the records that go with it.
    pub fn announcement(&self) -> (a: Announcement)
        ensures
            a.instance@ == instance_of(self@.local_name, self@.port),
            a.name@ == self@.local_name,
            match self@.room_hash {
                Some(h) => a.room matches Some(t) && t@ == hex_of(h@),
                None => a.room is None,
            },
    {
        let mut instance = sanitize_instance(self.local_name.as_str());
        instance.append("-");
        push_decimal(&mut instance, self.port as u64);
        Announcement {
            instance,
            name: self.local_name.clone(),
            room: match &self.room_hash {
                Some(h) => Some(hex_encode(h)),
                None => None,
            },
        }
    }
}

impl Default for TcpTransport {
    fn default() -> (t: Self)
        ensures
            t@ == (TcpView {
                port: 0,
                room_hash: None,
                local_name: "mlink"@,
                discover_duration: duration_of_secs(DEFAULT_DISCOVER_DURATION),
            }),
    {
        Self::new()
    }
}

/// How a node is announced.
pub struct Announcement {
    pub instance: String,
    /// The record `name`.
    pub name: String,
    /// The record `room`, if the node is in one.
    pub room: Option<String>,
}

/// A character as it may stand in the name of an instance.
pub open spec fn instance_char(c: char) -> char {
    if 'a' <= c <= 'z' || 'A' <= c <= 'Z' || '0' <= c <= '9' || c == '-' {
        c
    } else {
        '-'
    }
}

/// A name as it may stand in the name of an instance.
pub open spec fn sanitized(name: Seq<char>) -> Seq<char> {
    if name.len() == 0 {
        "mlink"@
    } else {
        Seq::new(name.len(), |i: int| instance_char(name[i]))
    }
}

/// The name of an instance.
pub open spec fn instance_of(name: Seq<char>, port: u16) -> Seq<char> {
    sanitized(name) + "-"@ + decimal(port as nat)
}

/// Replaces every character that may not stand in the name of an instance by a hyphen.
pub fn sanitize_instance(name: &str) -> (s: String)
    ensures
        s@ == sanitized(name@),
{
    let n: usize = name.unicode_len();
    if n == 0 {
        return "mlink".to_owned();
    }
    let mut s = String::new();
    let mut i: usize = 0;
    while i < n
        invariant
            i <= n,
            n == name@.len(),
            s@ == Seq::new(i as nat, |j: int| instance_char(name@[j])),
        decreases n - i,
    {
        let c = name.get_char(i);
        let kept = ('a' <= c && c <= 'z') || ('A' <= c && c <= 'Z') || ('0' <= c && c <= '9') || c
            == '-';
        s.push(
            if kept {
                c
            } else {
                '-'
            },
        );
        i = i + 1;
        assert(s@ =~= Seq::new(i as nat, |j: int| instance_char(name@[j])));
    }
    assert(s@ =~= sanitized(name@));
    s
}

/// The name of this machine: the first of these that is set.
pub fn local_hostname(hostname: Option<String>, host: Option<String>, computer: Option<String>) -> (s:
    String)
    ensures
        s@ == match (hostname, host, computer) {
            (Some(a), _, _) => a@,
            (None, Some(b), _) => b@,
            (None, None, Some(c)) => c@,
            (None, None, None) => "mlink-host"@,
        },
{
    match (hostname, host, computer) {
        (Some(a), _, _) => a,
        (None, Some(b), _) => b,
        (None, None, Some(c)) => c,
        (None, None, None) => "mlink-host".to_owned(),
    }
}

/// Two lowercase hexadecimal digits per byte.
pub fn hex_encode(bytes: &[u8]) -> (s: String)
    ensures
        s@ == hex_of(bytes@),
{
    hex_string(bytes)
}

/// Reads sixteen hexadecimal digits of either case as eight bytes.
pub fn hex_decode_8(s: &str) -> (r: Option<[u8; 8]>)
    ensures
        r is Some <==> s@.len() == 16 && all_hex(s@),
        r matches Some(out) ==> out@ == unhex(s@),
{
    parse_hex8(s)
}

/// A room that is announced is read back.
pub proof fn announced_room_is_read_back(room: [u8; 8])
    ensures
        hex_of(room@).len() == 16,
        all_hex(hex_of(room@)),
        unhex(hex_of(room@)) == room@,
{
    lemma_unhex_of_hex(room@);
}

/// A node that was found.
pub struct ResolvedService {
    /// The name of the service itself.
    pub fullname: String,
    /// The record `name`.
    pub name: Option<String>,
    /// The record `room`.
    pub room: Option<String>,
    /// The addresses at which the node can be reached.
    pub addresses: Vec<String>,
}

/// The room in the records of a node: eight bytes, or nothing where there are none.
pub open spec fn service_room(s: ResolvedService) -> Seq<u8> {
    match s.room {
        Some(t) => if t@.len() == 16 && all_hex(t@) {
            unhex(t@)
        } else {
            Seq::empty()
        },
        None => Seq::empty(),
    }
}

/// The name of a node: the record, or the service's own.
pub open spec fn service_name(s: ResolvedService) -> Seq<char> {
    match s.name {
        Some(t) => t@,
        None => s.fullname@,
    }
}

/// Whether a peer of this id is among those that were found.
pub open spec fn has_peer_id(found: Seq<DiscoveredPeer>, id: Seq<char>) -> bool {
    exists|i: int| 0 <= i < found.len() && (#[trigger] found[i]).id@ == id
}

/// No id stands twice.
pub open spec fn ids_unique(found: Seq<DiscoveredPeer>) -> bool {
    forall|i: int, j: int|
        0 <= i < j < found.len() ==> (#[trigger] found[i]).id@ != (#[trigger] found[j]).id@
}

/// Whether `p` is the peer at an address of a node.
pub open spec fn is_service_peer(p: DiscoveredPeer, s: ResolvedService, address: Seq<char>) -> bool {
    p.id@ == address && p.name@ == service_name(s) && p.rssi is None && p.metadata@
        == service_room(s)
}

/// Whether `p` is the peer at one of the addresses of a node.
pub open spec fn from_service(p: DiscoveredPeer, s: ResolvedService) -> bool {
    exists|k: int|
        0 <= k < s.addresses@.len() && is_service_peer(p, s, (#[trigger] s.addresses@[k])@)
}

/// Whether `after` is `before` with the peers at the addresses of a node, as far as these are
/// news: what was found first stays.
pub open spec fn found_more(
    before: Seq<DiscoveredPeer>,
    after: Seq<DiscoveredPeer>,
    s: ResolvedService,
) -> bool {
    &&& before.is_prefix_of(after)
    &&& forall|i: int| before.len() <= i < after.len() ==> from_service(#[trigger] after[i], s)
    &&& forall|k: int|
        0 <= k < s.addresses@.len() ==> has_peer_id(after, (#[trigger] s.addresses@[k])@)
}

fn knows_id(found: &Vec<DiscoveredPeer>, id: &str) -> (r: bool)
    ensures
        r == has_peer_id(found@, id@),
{
    let mut i: usize = 0;
    while i < found.len()
        invariant
            i <= found@.len(),
            forall|j: int| 0 <= j < i ==> (#[trigger] found@[j]).id@ != id@,
        decreases found@.len() - i,
    {
        if str_eq(found[i].id.as_str(), id) {
            assert(found@[i as int].id@ == id@);
            return true;
        }
        i = i + 1;
    }
    false
}

/// Takes note of a node that was found: one peer for each of its addresses.
fn note_resolved(found: &mut Vec<DiscoveredPeer>, service: ResolvedService)
    requires
        ids_unique(old(found)@),
    ensures
        ids_unique(final(found)@),
        found_more(old(found)@, final(found)@, service),
{
    let ghost before = found@;
    let mut k: usize = 0;
    while k < service.addresses.len()
        invariant
            k <= service.addresses@.len(),
            before.is_prefix_of(found@),
            ids_unique(found@),
            forall|i: int|
                before.len() <= i < found@.len() ==> from_service(#[trigger] found@[i], service),
            forall|j: int|
                0 <= j < k ==> has_peer_id(found@, (#[trigger] service.addresses@[j])@),
        decreases service.addresses@.len() - k,
    {
        let ghost had = found@;
        let id = service.addresses[k].clone();
        if !knows_id(found, id.as_str()) {
            let name: String = match &service.name {
                Some(t) => t.clone(),
                None => service.fullname.clone(),
            };
            let metadata: Vec<u8> = match &service.room {
                Some(t) => match hex_decode_8(t.as_str()) {
                    Some(h) => vstd::slice::slice_to_vec(&h),
                    None => Vec::new(),
                },
                None => Vec::new(),
            };
            assert(metadata@ =~= service_room(service));
            let p = DiscoveredPeer { id, name, rssi: None, metadata };
            found.push(p);
            proof {
                assert(is_service_peer(found@[had.len() as int], service, service.addresses@[k as int]@));
                assert(before =~= found@.take(before.len() as int)) by {
                    assert(before =~= had.take(before.len() as int));
                }
                assert forall|i: int| before.len() <= i < found@.len() implies from_service(
                    #[trigger] found@[i],
                    service,
                ) by {
                    if i < had.len() {
                        assert(found@[i] == had[i]);
                    }
                }
            }
        }
        proof {
            assert forall|j: int| 0 <= j < k + 1 implies has_peer_id(
                found@,
                (#[trigger] service.addresses@[j])@,
            ) by {
                let a = service.addresses@[j]@;
                if j < k || has_peer_id(had, a) {
                    let i = choose|i: int| 0 <= i < had.len() && (#[trigger] had[i]).id@ == a;
                    assert(found@[i].id@ == a);
                } else {
                    assert(found@[had.len() as int].id@ == a);
                }
            }
        }
        k = k + 1;
    }
}

/// What a search for nodes waits for.
pub enum BrowseEvent {
    Resolved(ResolvedService),
    /// Something else has happened on the network.
    Other,
    /// The time is up, or the search has ended by itself.
    Ended,
}

/// Searches for nodes, one event at a time: whether the search goes on.
pub fn browse_once(found: &mut Vec<DiscoveredPeer>, event: BrowseEvent) -> (go_on: bool)
    requires
        ids_unique(old(found)@),
    ensures
        ids_unique(final(found)@),
        go_on == !(event is Ended),
        match event {
            BrowseEvent::Resolved(service) => found_more(old(found)@, final(found)@, service),
            _ => final(found)@ == old(found)@,
        },
{
    match event {
        BrowseEvent::Resolved(service) => {
            note_resolved(found, service);
            true
        },
        BrowseEvent::Other => true,
        BrowseEvent::Ended => false,
    }
}

/// The name of an instance keeps the letters, digits and hyphens of a node's name, has a hyphen for
/// each other character, and ends with the port.
pub proof fn instance_name_keeps_letters_and_digits(name: Seq<char>, port: u16, i: int)
    ensures
        name.len() == 0 ==> instance_of(name, port) == "mlink"@ + "-"@ + decimal(port as nat),
        name.len() > 0 ==> sanitized(name).len() == name.len(),
        instance_of(name, port) == sanitized(name) + "-"@ + decimal(port as nat),
        0 <= i < name.len() ==> {
            let c = name[i];
            let kept = ('a' <= c <= 'z') || ('A' <= c <= 'Z') || ('0' <= c <= '9') || c == '-';
            sanitized(name)[i] == if kept {
                c
            } else {
                '-'
            }
        },
{
}

/// Each address of a node that was found is a peer, whatever its place among them: under the
/// node's name, or the service's own, and with the eight bytes of its room, if it tells one in
/// sixteen digits. What was found before stays, in front, and nothing else joins.
pub proof fn every_address_is_found(
    before: Seq<DiscoveredPeer>,
    after: Seq<DiscoveredPeer>,
    s: ResolvedService,
    k: int,
    i: int,
)
    requires
        found_more(before, after, s),
        0 <= k < s.addresses@.len(),
    ensures
        exists|j: int| 0 <= j < after.len() && (#[trigger] after[j]).id@ == s.addresses@[k]@,
        after.len() >= before.len(),
        0 <= i < before.len() ==> after[i] == before[i],
        before.len() <= i < after.len() ==> {
            &&& exists|j: int|
                0 <= j < s.addresses@.len() && (#[trigger] s.addresses@[j])@ == after[i].id@
            &&& after[i].rssi is None
            &&& s.name matches Some(n) ==> after[i].name@ == n@
            &&& s.name is None ==> after[i].name@ == s.fullname@
            &&& s.room is None ==> after[i].metadata@.len() == 0
            &&& s.room matches Some(t) ==> if t@.len() == 16 && all_hex(t@) {
                after[i].metadata@ == unhex(t@)
            } else {
                after[i].metadata@.len() == 0
            }
        },
{
    assert(has_peer_id(after, s.addresses@[k]@));
    if before.len() <= i < after.len() {
        assert(from_service(after[i], s));
        let j = choose|j: int|
            0 <= j < s.addresses@.len() && is_service_peer(after[i], s, (#[trigger] s.addresses@[j])@);
        assert(s.addresses@[j]@ == after[i].id@);
    }
}

/// A node that is announced with a room is found with that room.
pub proof fn announced_room_is_found(
    before: Seq<DiscoveredPeer>,
    after: Seq<DiscoveredPeer>,
    s: ResolvedService,
    room: [u8; 8],
    i: int,
)
    requires
        found_more(before, after, s),
        s.room is Some,
        s.room->0@ == hex_of(room@),
        before.len() <= i < after.len(),
    ensures
        after[i].metadata@ == room@,
{
    announced_room_is_read_back(room);
    assert(from_service(after[i], s));
}

/// No two of the peers that were found have the same id.
pub proof fn every_peer_is_found_once(found: Seq<DiscoveredPeer>, i: int, j: int)
    requires
        ids_unique(found),
        0 <= i < found.len(),
        0 <= j < found.len(),
        found[i].id@ == found[j].id@,
    ensures
        i == j,
{
}

} // verus!
