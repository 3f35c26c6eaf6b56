//! The peers that this node knows, and its own id.

use std::time::Instant;

use vstd::prelude::*;

use crate::strmap::StrMap;

verus! {

/// A remote peer.
#[derive(Debug)]
pub struct Peer {
    pub id: String,
    pub name: String,
    pub app_uuid: String,
    pub connected_at: Instant,
    pub transport_id: String,
}

/// What a peer is.
pub struct PeerView {
    pub id: Seq<char>,
    pub name: Seq<char>,
    pub app_uuid: Seq<char>,
    pub connected_at: Instant,
    pub transport_id: Seq<char>,
}

impl View for Peer {
    type V = PeerView;

    open spec fn view(&self) -> PeerView {
        PeerView {
            id: self.id@,
            name: self.name@,
            app_uuid: self.app_uuid@,
            connected_at: self.connected_at,
            transport_id: self.transport_id@,
        }
    }
}

impl Clone for Peer {
    fn clone(&self) -> (p: Self)
        ensures
            p@ == self@,
    {
        Peer {
            id: self.id.clone(),
            name: self.name.clone(),
            app_uuid: self.app_uuid.clone(),
            connected_at: self.connected_at.clone(),
            transport_id: self.transport_id.clone(),
        }
    }
}

/// Peers by their ids.
pub struct PeerManager {
    peers: StrMap<Peer>,
}

impl View for PeerManager {
    type V = Map<Seq<char>, PeerView>;

    closed spec fn view(&self) -> Map<Seq<char>, PeerView> {
        self.peers@.map_values(|p: Peer| p@)
    }
}

impl PeerManager {
    /// Every peer stands under its own id.
    pub closed spec fn wf(&self) -> bool {
        &&& self.peers.wf()
        &&& forall|k: Seq<char>|
            self.peers@.dom().contains(k) ==> (#[trigger] self.peers@[k]).id@ == k
    }

    pub fn new() -> (m: Self)
        ensures
            m.wf(),
            m@ == Map::<Seq<char>, PeerView>::empty(),
    {
        let m = PeerManager { peers: StrMap::new() };
        assert(m@ =~= Map::<Seq<char>, PeerView>::empty());
        m
    }

    /// Keeps a peer under its id, in place of the one that was there.
    pub fn add(&mut self, peer: Peer)
        requires
            old(self).wf(),
        ensures
            final(self).wf(),
            final(self)@ == old(self)@.insert(peer.id@, peer@),
    {
        let ghost before = self@;
        let _ = self.peers.insert(peer.id.clone(), peer);
        assert(self@ =~= before.insert(peer.id@, peer@));
    }

    pub fn remove(&mut self, id: &str) -> (r: Option<Peer>)
        requires
            old(self).wf(),
        ensures
            final(self).wf(),
            final(self)@ == old(self)@.remove(id@),
            match r {
                Some(p) => old(self)@.dom().contains(id@) && p@ == old(self)@[id@],
                None => !old(self)@.dom().contains(id@),
            },
    {
        let ghost before = self@;
        let r = self.peers.remove(id);
        assert(self@ =~= before.remove(id@));
        r
    }

    pub fn get(&self, id: &str) -> (r: Option<Peer>)
        requires
            self.wf(),
        ensures
            match r {
                Some(p) => self@.dom().contains(id@) && p@ == self@[id@],
                None => !self@.dom().contains(id@),
            },
    {
        match self.peers.get(id) {
            Some(p) => Some(p.clone()),
            None => None,
        }
    }

    /// All peers, each once.
    pub fn list(&self) -> (r: Vec<Peer>)
        requires
            self.wf(),
        ensures
            lists_all(r@, self@),
    {
        let n: usize = self.peers.len();
        let ghost order = self.peers.key_seq();
        let mut r: Vec<Peer> = Vec::new();
        let mut i: usize = 0;
        proof {
            self.peers.lemma_key_seq();
        }
        while i < n
            invariant
                i <= n,
                n == order.len(),
                order == self.peers.key_seq(),
                self.wf(),
                r@.len() == i,
                listed_in_order(r@, self@, order),
            decreases n - i,
        {
            let p = self.peers.value_at(i).clone();
            assert(self.peers@[order[i as int]].id@ == order[i as int]);
            r.push(p);
            i = i + 1;
        }
        proof {
            assert forall|k: Seq<char>| #[trigger] self@.dom().contains(k) implies exists|j: int|
                0 <= j < r@.len() && (#[trigger] r@[j]).id@ == k by {
                assert(order.contains(k));
                let j = order.index_of(k);
                assert(r@[j].id@ == k);
            }
            assert forall|a: int, b: int|
                0 <= a < r@.len() && 0 <= b < r@.len() && (#[trigger] r@[a]).id@ == (
                #[trigger] r@[b]).id@ implies a == b by {
                assert(order[a] == order[b]);
            }
        }
        r
    }

    pub fn count(&self) -> (n: usize)
        requires
            self.wf(),
        ensures
            n == self@.dom().len(),
    {
        let n: usize = self.peers.len();
        assert(self@.dom() =~= self.peers@.dom());
        n
    }
}

impl Default for PeerManager {
    fn default() -> (m: Self)
        ensures
            m.wf(),
            m@ == Map::<Seq<char>, PeerView>::empty(),
    {
        Self::new()
    }
}

/// Whether `r` holds the peers of `m` in this order, as far as it goes.
spec fn listed_in_order(r: Seq<Peer>, m: Map<Seq<char>, PeerView>, order: Seq<Seq<char>>) -> bool {
    forall|j: int|
        0 <= j < r.len() ==> (#[trigger] r[j]).id@ == order[j] && m.dom().contains(r[j].id@)
            && r[j]@ == m[r[j].id@]
}

/// Whether `r` holds every peer of `m` once, and no other.
pub open spec fn lists_all(r: Seq<Peer>, m: Map<Seq<char>, PeerView>) -> bool {
    &&& forall|i: int|
        0 <= i < r.len() ==> m.dom().contains((#[trigger] r[i]).id@) && r[i]@ == m[r[i].id@]
    &&& forall|k: Seq<char>| #[trigger]
        m.dom().contains(k) ==> exists|i: int| 0 <= i < r.len() && (#[trigger] r[i]).id@ == k
    &&& forall|a: int, b: int|
        0 <= a < r.len() && 0 <= b < r.len() && (#[trigger] r[a]).id@ == (#[trigger] r[b]).id@
            ==> a == b
}

/// A list of all peers holds each of them once, as it is, and nobody else.
pub proof fn every_peer_is_listed(r: Seq<Peer>, m: Map<Seq<char>, PeerView>, id: Seq<char>)
    requires
        lists_all(r, m),
    ensures
        m.dom().contains(id) <==> exists|i: int| 0 <= i < r.len() && (#[trigger] r[i]).id@ == id,
        forall|i: int| 0 <= i < r.len() ==> (#[trigger] r[i])@ == m[r[i].id@],
        forall|i: int, j: int|
            0 <= i < j < r.len() ==> (#[trigger] r[i]).id@ != (#[trigger] r[j]).id@,
{
}

/// Whether a text has the form of a random UUID: 36 characters, hyphens after the eighth,
/// twelfth, sixteenth and twentieth digit, lowercase hexadecimal digits, version 4 and variant 1.
pub open spec fn is_random_uuid(t: Seq<char>) -> bool {
    &&& t.len() == 36
    &&& t[8] == '-' && t[13] == '-' && t[18] == '-' && t[23] == '-'
    &&& forall|i: int|
        0 <= i < 36 && i != 8 && i != 13 && i != 18 && i != 23 ==> ('0' <= #[trigger] t[i] <= '9'
            || 'a' <= t[i] <= 'f')
    &&& t[14] == '4'
    &&& t[19] == '8' || t[19] == '9' || t[19] == 'a' || t[19] == 'b'
}

/// `uuid::Uuid::new_v4` and `Uuid::to_string`: which one comes out is left to chance, but it is
/// a random UUID in the hyphenated lowercase form.
#[verifier::external_body]
fn random_uuid_text() -> (t: String)
    ensures
        is_random_uuid(t@),
{
    uuid::Uuid::new_v4().to_string()
}

/// A new id for this node.
pub fn generate_app_uuid() -> (t: String)
    ensures
        is_random_uuid(t@),
{
    random_uuid_text()
}

/// Whether a character has the Unicode property `White_Space`.
pub open spec fn white_space(c: char) -> bool {
    ||| 0x9 <= c as u32 <= 0xD
    ||| c as u32 == 0x20
    ||| c as u32 == 0x85
    ||| c as u32 == 0xA0
    ||| c as u32 == 0x1680
    ||| 0x2000 <= c as u32 <= 0x200A
    ||| c as u32 == 0x2028
    ||| c as u32 == 0x2029
    ||| c as u32 == 0x202F
    ||| c as u32 == 0x205F
    ||| c as u32 == 0x3000
}

/// Whether a character is white space.
pub fn is_white_space(c: char) -> (r: bool)
    ensures
        r == white_space(c),
{
    let n: u32 = c as u32;
    (0x9 <= n && n <= 0xD) || n == 0x20 || n == 0x85 || n == 0xA0 || n == 0x1680 || (0x2000 <= n
        && n <= 0x200A) || n == 0x2028 || n == 0x2029 || n == 0x202F || n == 0x205F || n == 0x3000
}

/// A text without the white space at its start.
pub open spec fn trimmed_start(t: Seq<char>) -> Seq<char>
    decreases t.len(),
{
    if t.len() > 0 && white_space(t[0]) {
        trimmed_start(t.drop_first())
    } else {
        t
    }
}

/// A text without the white space at its end.
pub open spec fn trimmed_end(t: Seq<char>) -> Seq<char>
    decreases t.len(),
{
    if t.len() > 0 && white_space(t.last()) {
        trimmed_end(t.drop_last())
    } else {
        t
    }
}

/// A text without the white space at its ends.
pub open spec fn trimmed(t: Seq<char>) -> Seq<char> {
    trimmed_end(trimmed_start(t))
}

/// What is cut from the ends of a text is white space, all of it, and nothing else is cut.
pub proof fn only_white_space_is_cut(t: Seq<char>)
    ensures
        exists|a: int, b: int|
            0 <= a <= b <= t.len() && #[trigger] t.subrange(a, b) == trimmed(t) && (forall|i: int|
                0 <= i < a || b <= i < t.len() ==> white_space(#[trigger] t[i])),
        trimmed(t).len() > 0 ==> !white_space(trimmed(t)[0]) && !white_space(trimmed(t).last()),
{
    let a = lemma_trimmed_start(t);
    let s = trimmed_start(t);
    let n = lemma_trimmed_end(s);
    let b = a + n;
    assert(t.subrange(a, b) =~= trimmed(t));
    assert forall|i: int| 0 <= i < a || b <= i < t.len() implies white_space(#[trigger] t[i]) by {
        if i >= b {
            assert(s[i - a] == t[i]);
        }
    }
    if trimmed(t).len() > 0 {
        assert(trimmed(t)[0] == s[0]);
    }
}

proof fn lemma_trimmed_start(t: Seq<char>) -> (a: int)
    ensures
        0 <= a <= t.len(),
        trimmed_start(t) == t.skip(a),
        forall|i: int| 0 <= i < a ==> white_space(#[trigger] t[i]),
        trimmed_start(t).len() > 0 ==> !white_space(trimmed_start(t)[0]),
    decreases t.len(),
{
    if t.len() > 0 && white_space(t[0]) {
        let u = t.drop_first();
        let k = lemma_trimmed_start(u);
        assert(u.skip(k) =~= t.skip(k + 1));
        assert forall|i: int| 0 <= i < k + 1 implies white_space(#[trigger] t[i]) by {
            if i > 0 {
                assert(u[i - 1] == t[i]);
            }
        }
        k + 1
    } else {
        assert(t.skip(0) =~= t);
        0
    }
}

proof fn lemma_trimmed_end(t: Seq<char>) -> (n: int)
    ensures
        0 <= n <= t.len(),
        trimmed_end(t) == t.take(n),
        forall|i: int| n <= i < t.len() ==> white_space(#[trigger] t[i]),
        trimmed_end(t).len() > 0 ==> !white_space(trimmed_end(t).last()),
    decreases t.len(),
{
    if t.len() > 0 && white_space(t.last()) {
        let u = t.drop_last();
        let k = lemma_trimmed_end(u);
        assert(u.take(k) =~= t.take(k));
        assert forall|i: int| k <= i < t.len() implies white_space(#[trigger] t[i]) by {
            if i < u.len() {
                assert(u[i] == t[i]);
            }
        }
        k
    } else {
        assert(t.take(t.len() as int) =~= t);
        t.len() as int
    }
}

/// Space, tab and the line breaks are white space; letters, digits and hyphens are not.
pub proof fn white_space_is_no_part_of_an_id(c: char)
    ensures
        c == ' ' || c == '\t' || c == '\n' || c == '\r' ==> white_space(c),
        '!' <= c <= '~' ==> !white_space(c),
        white_space(c) <==> (0x9 <= c as u32 <= 0xD || c as u32 == 0x20 || c as u32 == 0x85
            || c as u32 == 0xA0 || c as u32 == 0x1680 || 0x2000 <= c as u32 <= 0x200A || c as u32
            == 0x2028 || c as u32 == 0x2029 || c as u32 == 0x202F || c as u32 == 0x205F || c as u32
            == 0x3000),
{
}

fn trim(t: &str) -> (s: &str)
    ensures
        s@ == trimmed(t@),
{
    let n: usize = t.unicode_len();
    let mut a: usize = 0;
    assert(t@.subrange(0, n as int) =~= t@);
    while a < n && is_white_space(t.get_char(a))
        invariant
            a <= n,
            n == t@.len(),
            trimmed_start(t@) == trimmed_start(t@.subrange(a as int, n as int)),
        decreases n - a,
    {
        assert(t@.subrange(a as int, n as int).drop_first() =~= t@.subrange(a + 1, n as int));
        a = a + 1;
    }
    let mut b: usize = n;
    while b > a && is_white_space(t.get_char(b - 1))
        invariant
            a <= b <= n,
            n == t@.len(),
            trimmed_end(trimmed_start(t@)) == trimmed_end(t@.subrange(a as int, b as int)),
        decreases b,
    {
        assert(t@.subrange(a as int, b as int).drop_last() =~= t@.subrange(a as int, b - 1));
        b = b - 1;
    }
    t.substring_char(a, b)
}

/// The id of this node: the one that was stored, or a new one that is to be stored.
pub enum AppUuid {
    Stored(String),
    Fresh(String),
}

/// Picks the id of this node. `stored` is what the file holds, if there is one; white space
/// around the id does not count, and a blank file is as good as none.
pub fn choose_app_uuid(stored: Option<&str>) -> (r: AppUuid)
    ensures
        match stored {
            Some(t) => if trimmed(t@).len() > 0 {
                r matches AppUuid::Stored(s) && s@ == trimmed(t@)
            } else {
                r matches AppUuid::Fresh(s) && is_random_uuid(s@)
            },
            None => r matches AppUuid::Fresh(s) && is_random_uuid(s@),
        },
{
    if let Some(t) = stored {
        let s = trim(t);
        if s.unicode_len() > 0 {
            return AppUuid::Stored(s.to_owned());
        }
    }
    AppUuid::Fresh(generate_app_uuid())
}

} // verus!
