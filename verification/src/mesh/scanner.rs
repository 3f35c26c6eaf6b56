//! Which of the peers that a transport discovers are news.

use std::time::Duration;

use vstd::prelude::*;

use crate::clock::{duration_of_secs, seconds};
use crate::names::{add_name, drop_name, has_name, lemma_including, lemma_without, texts};
use crate::text::{bytes_eq, str_eq};
use crate::transport::DiscoveredPeer;

verus! {

/// How long a scanner waits between two rounds, in seconds.
pub const DEFAULT_SCAN_INTERVAL: u64 = 3;

/// Remembers which peers have been surfaced.
pub struct Scanner {
    app_uuid: String,
    seen: Vec<String>,
    scan_interval: Duration,
    room_hashes: Vec<[u8; 8]>,
}

/// What a scanner is, as far as decisions depend on it.
pub struct ScannerView {
    pub app_uuid: Seq<char>,
    /// The ids of the peers that have been surfaced.
    pub seen: Set<Seq<char>>,
    pub scan_interval: Duration,
    /// The rooms that are looked for.
    pub rooms: Seq<[u8; 8]>,
}

/// Whether `metadata` holds the eight bytes of `hash` somewhere.
pub open spec fn advertises(metadata: Seq<u8>, hash: [u8; 8]) -> bool {
    exists|i: int| 0 <= i <= metadata.len() - 8 && #[trigger] metadata.subrange(i, i + 8) == hash@
}

/// Whether a peer passes the room filter. The filter is soft: a peer that advertises nothing
/// passes, because some transports cannot read the advertised room before they connect. Only a
/// peer that advertises something else is held back.
pub open spec fn passes_rooms(metadata: Seq<u8>, rooms: Seq<[u8; 8]>) -> bool {
    ||| rooms.len() == 0
    ||| metadata.len() == 0
    ||| exists|k: int| 0 <= k < rooms.len() && advertises(metadata, #[trigger] rooms[k])
}

/// Whether a discovered peer is a candidate at all: it is not this node, and passes the filter.
pub open spec fn is_candidate(p: DiscoveredPeer, s: ScannerView) -> bool {
    p.id@ != s.app_uuid && passes_rooms(p.metadata@, s.rooms)
}

/// The ids that have been seen after a round.
pub open spec fn seen_after(all: Seq<DiscoveredPeer>, s: ScannerView) -> Set<Seq<char>>
    decreases all.len(),
{
    if all.len() == 0 {
        s.seen
    } else {
        let before = seen_after(all.drop_last(), s);
        if is_candidate(all.last(), s) {
            before.insert(all.last().id@)
        } else {
            before
        }
    }
}

/// What a round surfaces: the candidates that have not been seen, each id once.
pub open spec fn surfaced(all: Seq<DiscoveredPeer>, s: ScannerView) -> Seq<DiscoveredPeer>
    decreases all.len(),
{
    if all.len() == 0 {
        Seq::empty()
    } else {
        let before = surfaced(all.drop_last(), s);
        if is_candidate(all.last(), s) && !seen_after(all.drop_last(), s).contains(
            all.last().id@,
        ) {
            before.push(all.last())
        } else {
            before
        }
    }
}

/// What [`seen_after`] holds: what was seen, and the candidates of the round.
pub proof fn lemma_seen_after(all: Seq<DiscoveredPeer>, s: ScannerView)
    ensures
        forall|id: Seq<char>| #[trigger]
            seen_after(all, s).contains(id) <==> (s.seen.contains(id) || exists|i: int|
                0 <= i < all.len() && is_candidate(#[trigger] all[i], s) && all[i].id@ == id),
    decreases all.len(),
{
    if all.len() > 0 {
        let rest = all.drop_last();
        lemma_seen_after(rest, s);
        assert forall|id: Seq<char>| #[trigger]
            seen_after(all, s).contains(id) <==> (s.seen.contains(id) || exists|i: int|
                0 <= i < all.len() && is_candidate(#[trigger] all[i], s) && all[i].id@ == id) by {
            if seen_after(rest, s).contains(id) && !s.seen.contains(id) {
                let i = choose|i: int|
                    0 <= i < rest.len() && is_candidate(#[trigger] rest[i], s) && rest[i].id@ == id;
                assert(is_candidate(all[i], s) && all[i].id@ == id);
            }
            if is_candidate(all.last(), s) && all.last().id@ == id {
                assert(is_candidate(all[all.len() - 1], s));
            }
            if exists|i: int|
                0 <= i < all.len() && is_candidate(#[trigger] all[i], s) && all[i].id@ == id {
                let i = choose|i: int|
                    0 <= i < all.len() && is_candidate(#[trigger] all[i], s) && all[i].id@ == id;
                if i < rest.len() {
                    assert(is_candidate(rest[i], s) && rest[i].id@ == id);
                }
            }
        }
    }
}

/// A round surfaces no peer that was seen before, never this node itself, and no id twice; and
/// every candidate that was not seen before is surfaced.
pub proof fn only_news_is_surfaced(all: Seq<DiscoveredPeer>, s: ScannerView)
    ensures
        forall|i: int|
            0 <= i < surfaced(all, s).len() ==> {
                let p = #[trigger] surfaced(all, s)[i];
                &&& is_candidate(p, s)
                &&& !s.seen.contains(p.id@)
                &&& seen_after(all, s).contains(p.id@)
            },
        forall|i: int, j: int|
            0 <= i < j < surfaced(all, s).len() ==> (#[trigger] surfaced(all, s)[i]).id@ != (
            #[trigger] surfaced(all, s)[j]).id@,
        forall|k: int|
            0 <= k < all.len() && is_candidate(#[trigger] all[k], s) && !s.seen.contains(all[k].id@)
                ==> exists|i: int|
                0 <= i < surfaced(all, s).len() && (#[trigger] surfaced(all, s)[i]).id@
                    == all[k].id@,
    decreases all.len(),
{
    if all.len() > 0 {
        let rest = all.drop_last();
        let last = all.last();
        let before = surfaced(rest, s);
        let after = surfaced(all, s);
        only_news_is_surfaced(rest, s);
        lemma_seen_after(rest, s);
        lemma_seen_after(all, s);
        let is_new = is_candidate(last, s) && !seen_after(rest, s).contains(last.id@);
        assert forall|i: int| 0 <= i < after.len() implies {
            let p = #[trigger] after[i];
            &&& is_candidate(p, s)
            &&& !s.seen.contains(p.id@)
            &&& seen_after(all, s).contains(p.id@)
        } by {
            if i < before.len() {
                assert(after[i] == before[i]);
            }
        }
        assert forall|i: int, j: int| 0 <= i < j < after.len() implies (#[trigger] after[i]).id@ != (
        #[trigger] after[j]).id@ by {
            assert(after[i] == before[i]);
            if j < before.len() {
                assert(after[j] == before[j]);
            } else {
                assert(seen_after(rest, s).contains(before[i].id@));
            }
        }
        assert forall|k: int|
            0 <= k < all.len() && is_candidate(#[trigger] all[k], s) && !s.seen.contains(
                all[k].id@,
            ) implies exists|i: int|
            0 <= i < after.len() && (#[trigger] after[i]).id@ == all[k].id@ by {
            if k < rest.len() {
                assert(is_candidate(rest[k], s));
                let i = choose|i: int|
                    0 <= i < before.len() && (#[trigger] before[i]).id@ == rest[k].id@;
                assert(after[i] == before[i]);
            } else if is_new {
                assert(after[before.len() as int] == last);
            } else {
                let m = choose|m: int|
                    0 <= m < rest.len() && is_candidate(#[trigger] rest[m], s) && rest[m].id@
                        == last.id@;
                let i = choose|i: int|
                    0 <= i < before.len() && (#[trigger] before[i]).id@ == rest[m].id@;
                assert(after[i] == before[i]);
            }
        }
    }
}

/// A second round over the same peers surfaces none of them, unless they are forgotten.
pub proof fn same_round_surfaces_nothing(all: Seq<DiscoveredPeer>, s: ScannerView)
    ensures
        surfaced(all, ScannerView { seen: seen_after(all, s), ..s }).len() == 0,
{
    let t = ScannerView { seen: seen_after(all, s), ..s };
    lemma_seen_after(all, s);
    only_news_is_surfaced(all, t);
    if surfaced(all, t).len() > 0 {
        let p = surfaced(all, t)[0];
        assert(is_candidate(p, t) && !t.seen.contains(p.id@));
        lemma_surfaced_from(all, t, 0);
        let k = choose|k: int| 0 <= k < all.len() && #[trigger] all[k] == p;
        assert(is_candidate(all[k], s));
        assert(seen_after(all, s).contains(all[k].id@));
    }
}

proof fn lemma_surfaced_from(all: Seq<DiscoveredPeer>, s: ScannerView, i: int)
    requires
        0 <= i < surfaced(all, s).len(),
    ensures
        exists|k: int| 0 <= k < all.len() && #[trigger] all[k] == surfaced(all, s)[i],
    decreases all.len(),
{
    let rest = all.drop_last();
    let before = surfaced(rest, s);
    if i < before.len() {
        lemma_surfaced_from(rest, s, i);
        let k = choose|k: int| 0 <= k < rest.len() && #[trigger] rest[k] == before[i];
        assert(all[k] == before[i]);
    } else {
        assert(all[all.len() - 1] == surfaced(all, s)[i]);
    }
}

/// A peer is a candidate for every room that it advertises: whatever the room's place among those
/// that are looked for, and wherever its hash stands in the metadata. Unless the peer was seen or
/// is this node itself, it is surfaced.
pub proof fn every_room_counts(all: Seq<DiscoveredPeer>, s: ScannerView, k: int, room: int, i: int)
    requires
        0 <= k < all.len(),
        0 <= room < s.rooms.len(),
        0 <= i <= all[k].metadata@.len() - 8,
        forall|b: int|
            0 <= b < 8 ==> #[trigger] all[k].metadata@[i + b] == s.rooms[room]@[b],
        all[k].id@ != s.app_uuid,
    ensures
        passes_rooms(all[k].metadata@, s.rooms),
        seen_after(all, s).contains(all[k].id@),
        !s.seen.contains(all[k].id@) ==> exists|j: int|
            0 <= j < surfaced(all, s).len() && (#[trigger] surfaced(all, s)[j]).id@ == all[k].id@,
{
    let meta = all[k].metadata@;
    assert(meta.subrange(i, i + 8) =~= s.rooms[room]@) by {
        assert forall|b: int| 0 <= b < 8 implies meta.subrange(i, i + 8)[b]
            == s.rooms[room]@[b] by {
            assert(all[k].metadata@[i + b] == s.rooms[room]@[b]);
        }
    }
    assert(advertises(meta, s.rooms[room]));
    assert(is_candidate(all[k], s));
    only_news_is_surfaced(all, s);
    lemma_seen_after(all, s);
}

/// It does not matter in which order, or how often, the rooms are listed.
pub proof fn order_of_rooms_does_not_matter(
    metadata: Seq<u8>,
    rooms: Seq<[u8; 8]>,
    others: Seq<[u8; 8]>,
)
    requires
        forall|r: [u8; 8]| #[trigger] rooms.contains(r) <==> others.contains(r),
    ensures
        passes_rooms(metadata, rooms) == passes_rooms(metadata, others),
{
    lemma_rooms_included(metadata, rooms, others);
    lemma_rooms_included(metadata, others, rooms);
}

proof fn lemma_rooms_included(metadata: Seq<u8>, rooms: Seq<[u8; 8]>, others: Seq<[u8; 8]>)
    requires
        forall|r: [u8; 8]| #[trigger] rooms.contains(r) <==> others.contains(r),
    ensures
        passes_rooms(metadata, rooms) ==> passes_rooms(metadata, others),
{
    if rooms.len() == 0 && others.len() > 0 {
        assert(others.contains(others[0]));
        assert(rooms.contains(others[0]));
    }
    if exists|k: int| 0 <= k < rooms.len() && advertises(metadata, #[trigger] rooms[k]) {
        let k = choose|k: int| 0 <= k < rooms.len() && advertises(metadata, #[trigger] rooms[k]);
        assert(rooms.contains(rooms[k]));
        assert(others.contains(rooms[k]));
        let j = choose|j: int| 0 <= j < others.len() && others[j] == rooms[k];
        assert(advertises(metadata, others[j]));
    }
}

/// A peer that advertises nothing passes, and so does every peer where no room is looked for:
/// unless it was seen or is this node itself, it is surfaced.
pub proof fn silent_peer_is_surfaced(all: Seq<DiscoveredPeer>, s: ScannerView, k: int)
    requires
        0 <= k < all.len(),
        all[k].metadata@.len() == 0 || s.rooms.len() == 0,
        all[k].id@ != s.app_uuid,
    ensures
        passes_rooms(all[k].metadata@, s.rooms),
        seen_after(all, s).contains(all[k].id@),
        !s.seen.contains(all[k].id@) ==> exists|j: int|
            0 <= j < surfaced(all, s).len() && (#[trigger] surfaced(all, s)[j]).id@ == all[k].id@,
{
    assert(is_candidate(all[k], s));
    only_news_is_surfaced(all, s);
    lemma_seen_after(all, s);
}

/// What is surfaced was discovered in this round, is not this node, was not seen before and is
/// remembered afterwards. If it advertises something and rooms are looked for, it advertises one
/// of them.
pub proof fn surfaced_peer_shares_a_room(all: Seq<DiscoveredPeer>, s: ScannerView, j: int)
    requires
        0 <= j < surfaced(all, s).len(),
    ensures
        ({
            let p = surfaced(all, s)[j];
            &&& all.contains(p)
            &&& p.id@ != s.app_uuid
            &&& !s.seen.contains(p.id@)
            &&& seen_after(all, s).contains(p.id@)
            &&& s.rooms.len() > 0 && p.metadata@.len() > 0 ==> exists|room: int, i: int|
                0 <= room < s.rooms.len() && 0 <= i <= p.metadata@.len() - 8
                    && #[trigger] p.metadata@.subrange(i, i + 8) == #[trigger] s.rooms[room]@
        }),
        forall|i: int|
            0 <= i < surfaced(all, s).len() && i != j ==> (#[trigger] surfaced(all, s)[i]).id@
                != surfaced(all, s)[j].id@,
{
    let p = surfaced(all, s)[j];
    only_news_is_surfaced(all, s);
    lemma_surfaced_from(all, s, j);
    let k = choose|k: int| 0 <= k < all.len() && #[trigger] all[k] == p;
    assert(all.contains(p));
    if s.rooms.len() > 0 && p.metadata@.len() > 0 {
        let room = choose|room: int|
            0 <= room < s.rooms.len() && advertises(p.metadata@, #[trigger] s.rooms[room]);
        let i = choose|i: int|
            0 <= i <= p.metadata@.len() - 8 && #[trigger] p.metadata@.subrange(i, i + 8)
                == s.rooms[room]@;
        assert(p.metadata@.subrange(i, i + 8) == s.rooms[room]@);
    }
}

/// Peers are looked at one by one, in order: the next one is surfaced, behind the others, exactly
/// where it is not this node, passes the room filter and was not seen, before or in this round.
pub proof fn peers_are_judged_in_order(
    all: Seq<DiscoveredPeer>,
    p: DiscoveredPeer,
    s: ScannerView,
)
    ensures
        surfaced(Seq::<DiscoveredPeer>::empty(), s).len() == 0,
        seen_after(Seq::<DiscoveredPeer>::empty(), s) == s.seen,
        p.id@ != s.app_uuid && passes_rooms(p.metadata@, s.rooms) && !seen_after(all, s).contains(
            p.id@,
        ) ==> surfaced(all.push(p), s) == surfaced(all, s).push(p),
        p.id@ == s.app_uuid || !passes_rooms(p.metadata@, s.rooms) || seen_after(all, s).contains(
            p.id@,
        ) ==> surfaced(all.push(p), s) == surfaced(all, s),
        p.id@ == s.app_uuid || !passes_rooms(p.metadata@, s.rooms) ==> seen_after(all.push(p), s)
            == seen_after(all, s),
        p.id@ != s.app_uuid && passes_rooms(p.metadata@, s.rooms) ==> seen_after(all.push(p), s)
            == seen_after(all, s).insert(p.id@),
{
    assert(all.push(p).drop_last() =~= all);
}

/// A peer that advertises something, but none of the rooms that are looked for, does not pass.
pub proof fn peer_of_other_rooms_is_held_back(metadata: Seq<u8>, rooms: Seq<[u8; 8]>)
    requires
        metadata.len() > 0,
        rooms.len() > 0,
        forall|k: int, i: int|
            0 <= k < rooms.len() && 0 <= i <= metadata.len() - 8 ==> #[trigger] metadata.subrange(
                i,
                i + 8,
            ) != #[trigger] rooms[k]@,
    ensures
        !passes_rooms(metadata, rooms),
{
    assert forall|k: int| 0 <= k < rooms.len() implies !advertises(metadata, #[trigger] rooms[k]) by {
        if advertises(metadata, rooms[k]) {
            let i = choose|i: int|
                0 <= i <= metadata.len() - 8 && #[trigger] metadata.subrange(i, i + 8)
                    == rooms[k]@;
            assert(metadata.subrange(i, i + 8) != rooms[k]@);
        }
    }
}

/// What was seen stays seen, and only what was discovered joins it.
pub proof fn seen_peers_stay_seen(all: Seq<DiscoveredPeer>, s: ScannerView, id: Seq<char>)
    ensures
        s.seen.contains(id) ==> seen_after(all, s).contains(id),
        seen_after(all, s).contains(id) && !s.seen.contains(id) ==> id != s.app_uuid && exists|
            k: int,
        |
            0 <= k < all.len() && (#[trigger] all[k]).id@ == id,
{
    lemma_seen_after(all, s);
    if seen_after(all, s).contains(id) && !s.seen.contains(id) {
        let k = choose|k: int|
            0 <= k < all.len() && is_candidate(#[trigger] all[k], s) && all[k].id@ == id;
        assert(all[k].id@ == id);
    }
}

fn advertised(metadata: &[u8], hash: &[u8; 8]) -> (r: bool)
    ensures
        r == advertises(metadata@, *hash),
{
    if metadata.len() < 8 {
        return false;
    }
    let n: usize = metadata.len() - 8;
    let mut i: usize = 0;
    while i <= n
        invariant
            i <= n + 1,
            n + 8 == metadata@.len(),
            n + 8 <= usize::MAX,
            forall|j: int| 0 <= j < i ==> #[trigger] metadata@.subrange(j, j + 8) != hash@,
        decreases n + 1 - i,
    {
        if bytes_eq(vstd::slice::slice_subrange(metadata, i, i + 8), hash) {
            return true;
        }
        i = i + 1;
    }
    false
}

/// Whether a peer passes the room filter.
pub fn metadata_matches_any_room(metadata: &[u8], hashes: &[[u8; 8]]) -> (r: bool)
    ensures
        r == passes_rooms(metadata@, hashes@),
{
    if hashes.len() == 0 || metadata.len() == 0 {
        return true;
    }
    let mut k: usize = 0;
    while k < hashes.len()
        invariant
            k <= hashes@.len(),
            forall|j: int| 0 <= j < k ==> !advertises(metadata@, #[trigger] hashes@[j]),
        decreases hashes@.len() - k,
    {
        if advertised(metadata, &hashes[k]) {
            return true;
        }
        k = k + 1;
    }
    false
}

impl Scanner {
    pub closed spec fn view(&self) -> ScannerView {
        ScannerView {
            app_uuid: self.app_uuid@,
            seen: texts(self.seen@).to_set(),
            scan_interval: self.scan_interval,
            rooms: self.room_hashes@,
        }
    }

    /// No id is remembered twice.
    pub closed spec fn wf(&self) -> bool {
        texts(self.seen@).no_duplicates()
    }

    pub fn new(app_uuid: String) -> (s: Self)
        ensures
            s.wf(),
            s@ == (ScannerView {
                app_uuid: app_uuid@,
                seen: Set::empty(),
                scan_interval: duration_of_secs(DEFAULT_SCAN_INTERVAL),
                rooms: Seq::empty(),
            }),
            s@.scan_interval == duration_of_secs(3),
    {
        let s = Scanner {
            app_uuid,
            seen: Vec::new(),
            scan_interval: seconds(DEFAULT_SCAN_INTERVAL),
            room_hashes: Vec::new(),
        };
        assert(s@.seen =~= Set::<Seq<char>>::empty());
        assert(s@.rooms =~= Seq::<[u8; 8]>::empty());
        s
    }

    /// Forgets a peer, so that the next round surfaces it again.
    pub fn unsee(&mut self, id: &str)
        requires
            old(self).wf(),
        ensures
            final(self).wf(),
            final(self)@ == (ScannerView { seen: old(self)@.seen.remove(id@), ..old(self)@ }),
    {
        let ghost before = texts(self.seen@);
        drop_name(&mut self.seen, id);
        proof {
            lemma_without(before, id@);
            assert(self@.seen =~= before.to_set().remove(id@));
        }
    }

    /// The same scanner, with another time between rounds.
    pub fn with_interval(self, scan_interval: Duration) -> (s: Self)
        requires
            self.wf(),
        ensures
            s.wf(),
            s@ == (ScannerView { scan_interval, ..self@ }),
    {
        Scanner {
            app_uuid: self.app_uuid,
            seen: self.seen,
            scan_interval,
            room_hashes: self.room_hashes,
        }
    }

    pub fn app_uuid(&self) -> (s: &str)
        ensures
            s@ == self@.app_uuid,
    {
        self.app_uuid.as_str()
    }

    pub fn scan_interval(&self) -> (d: Duration)
        ensures
            d == self@.scan_interval,
    {
        self.scan_interval
    }

    pub fn seen_count(&self) -> (n: usize)
        requires
            self.wf(),
        ensures
            n == self@.seen.len(),
    {
        proof {
            texts(self.seen@).unique_seq_to_set();
        }
        self.seen.len()
    }

    pub fn set_room_hashes(&mut self, hashes: Vec<[u8; 8]>)
        requires
            old(self).wf(),
        ensures
            final(self).wf(),
            final(self)@ == (ScannerView { rooms: hashes@, ..old(self)@ }),
    {
        self.room_hashes = hashes;
    }

    pub fn room_hashes(&self) -> (r: &[[u8; 8]])
        ensures
            r@ == self@.rooms,
    {
        self.room_hashes.as_slice()
    }

    /// Takes in what a transport has discovered, and says what of it is news.
    pub fn discover_once(&mut self, all: Vec<DiscoveredPeer>) -> (fresh: Vec<DiscoveredPeer>)
        requires
            old(self).wf(),
        ensures
            final(self).wf(),
            fresh@ == surfaced(all@, old(self)@),
            final(self)@ == (ScannerView { seen: seen_after(all@, old(self)@), ..old(self)@ }),
    {
        let ghost before = self@;
        let ghost found = all@;
        let mut fresh: Vec<DiscoveredPeer> = Vec::new();
        for peer in it: all
            invariant
                it.seq() == found,
                self.wf(),
                fresh@ == surfaced(found.take(it.index() as int), before),
                self@ == (ScannerView {
                    seen: seen_after(found.take(it.index() as int), before),
                    ..before
                }),
        {
            let ghost i = it.index() as int;
            proof {
                assert(peer == found[i]);
                assert(found.take(i + 1).drop_last() =~= found.take(i));
            }
            let is_self = str_eq(peer.id.as_str(), self.app_uuid.as_str());
            if !is_self && metadata_matches_any_room(
                peer.metadata.as_slice(),
                self.room_hashes.as_slice(),
            ) {
                let ghost names = texts(self.seen@);
                if !has_name(&self.seen, peer.id.as_str()) {
                    add_name(&mut self.seen, peer.id.as_str());
                    proof {
                        lemma_including(names, peer.id@);
                        assert(self@.seen =~= names.to_set().insert(peer.id@));
                    }
                    fresh.push(peer);
                } else {
                    assert(names.to_set().insert(peer.id@) =~= names.to_set());
                }
            }
        }
        assert(found.take(found.len() as int) =~= found);
        fresh
    }

    /// Forgets every peer.
    pub fn reset(&mut self)
        ensures
            final(self).wf(),
            final(self)@ == (ScannerView { seen: Set::empty(), ..old(self)@ }),
    {
        self.seen.clear();
        assert(texts(self.seen@).to_set() =~= Set::<Seq<char>>::empty());
    }
}

} // verus!
