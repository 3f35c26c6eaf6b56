//! Rooms: six-digit codes, the hashes that stand for them on the air, and who is in them.

use std::time::Instant;

use ring::hmac;
use vstd::prelude::*;
use vstd::utf8::encode_utf8;

use crate::clock::now;
use crate::mesh::security::MAX_HASH_INPUT;
use crate::names::{
    add_name, copy_names, drop_name, including, lemma_including, lemma_without, texts, without,
};
use crate::protocol::wire::{be_value, lemma_byte_ranges, read_be};
use crate::random::random_bytes;
use crate::strmap::StrMap;
use crate::text::{
    bytes_are_pairs_of_digits, hex_of, hex_string, lemma_zero_padded_digits, push_zero_padded,
    zero_padded,
};

verus! {

/// The HMAC of `data` under `key`, with SHA-256.
pub uninterp spec fn hmac_sha256(key: Seq<u8>, data: Seq<u8>) -> Seq<u8>;

/// `ring::hmac::sign` with SHA-256: 32 bytes that key and data determine.
#[verifier::external_body]
fn hmac_sign(key: &[u8], data: &[u8]) -> (tag: Vec<u8>)
    requires
        key@.len() <= MAX_HASH_INPUT,
        data@.len() <= MAX_HASH_INPUT,
    ensures
        tag@ == hmac_sha256(key@, data@),
        tag@.len() == 32,
{
    hmac::sign(&hmac::Key::new(hmac::HMAC_SHA256, key), data).as_ref().to_vec()
}

/// The room code that four random bytes give: six decimal digits, leading zeros included.
pub fn room_code(bytes: [u8; 4]) -> (code: String)
    ensures
        code@ == zero_padded(be_value(bytes@) % 1_000_000, 6),
        code@.len() == 6,
        forall|i: int| 0 <= i < 6 ==> '0' <= #[trigger] code@[i] <= '9',
{
    proof {
        lemma_byte_ranges();
        assert(bytes@.subrange(0, 4) =~= bytes@);
        lemma_zero_padded_digits(be_value(bytes@) % 1_000_000, 6);
    }
    let n: u64 = read_be(bytes.as_slice(), 0, 4) as u64;
    let mut code = String::new();
    push_zero_padded(&mut code, n % 1_000_000, 6);
    proof {
        assert(code@ =~= zero_padded(be_value(bytes@) % 1_000_000, 6));
    }
    code
}

/// A fresh random room code.
pub fn generate_room_code() -> (code: String)
    ensures
        code@.len() == 6,
        forall|i: int| 0 <= i < 6 ==> '0' <= #[trigger] code@[i] <= '9',
        exists|n: nat| n < 1_000_000 && code@ == #[trigger] zero_padded(n, 6),
{
    let bytes: [u8; 4] = random_bytes::<4>();
    let code = room_code(bytes);
    proof {
        let n = be_value(bytes@) % 1_000_000;
        assert(n < 1_000_000 && code@ == zero_padded(n, 6));
    }
    code
}

/// The hash of a room code: the first eight bytes of an HMAC keyed by the code.
pub open spec fn room_hash_of(code: Seq<char>) -> Seq<u8> {
    hmac_sha256(encode_utf8(code), encode_utf8("mlink-room"@)).take(8)
}

/// Whether a code is short enough to be hashed.
pub open spec fn hashable(code: Seq<char>) -> bool {
    encode_utf8(code).len() <= MAX_HASH_INPUT
}

/// The hash that stands for a room on the air.
pub fn room_hash(code: &str) -> (h: [u8; 8])
    requires
        hashable(code@),
    ensures
        h@ == room_hash_of(code@),
{
    broadcast use vstd::string::is_ascii_spec_bytes;

    let info = "mlink-room";
    proof {
        reveal_strlit("mlink-room");
        assert(info.is_ascii());
    }
    let tag = hmac_sign(code.as_bytes(), info.as_bytes());
    let mut out: [u8; 8] = [0u8; 8];
    let mut i: usize = 0;
    while i < 8
        invariant
            i <= 8,
            tag@.len() == 32,
            forall|j: int| 0 <= j < i ==> out@[j] == tag@[j],
        decreases 8 - i,
    {
        out[i] = tag[i];
        i = i + 1;
    }
    proof {
        assert(out@ =~= tag@.take(8));
    }
    out
}

/// The identity of an app inside one room: 16 bytes of an HMAC keyed by the app's uuid, in
/// hexadecimal.
pub open spec fn room_app_id_of(app_uuid: Seq<char>, code: Seq<char>) -> Seq<char> {
    hex_of(
        hmac_sha256(encode_utf8(app_uuid), encode_utf8("mlink-room-id-"@ + code)).take(16),
    )
}

/// The identity that an app shows inside one room; it differs from room to room.
pub fn room_app_id(app_uuid: &str, code: &str) -> (id: String)
    requires
        hashable(app_uuid@),
        hashable("mlink-room-id-"@ + code@),
    ensures
        id@ == room_app_id_of(app_uuid@, code@),
        id@.len() == 32,
{
    let mut data = "mlink-room-id-".to_owned();
    data.append(code);
    let tag = hmac_sign(app_uuid.as_bytes(), data.as_str().as_bytes());
    let head = vstd::slice::slice_subrange(tag.as_slice(), 0, 16);
    proof {
        assert(head@ =~= tag@.take(16));
    }
    hex_string(head)
}

/// The hash of a room is the start of the HMAC of a fixed text under the room's code, and the
/// identity of an app in a room that of the room's code under the app's uuid, as digits.
pub proof fn hashes_come_from_the_code(app_uuid: Seq<char>, code: Seq<char>, i: int)
    requires
        hmac_sha256(encode_utf8(code), encode_utf8("mlink-room"@)).len() == 32,
        hmac_sha256(encode_utf8(app_uuid), encode_utf8("mlink-room-id-"@ + code)).len() == 32,
    ensures
        room_hash_of(code).len() == 8,
        0 <= i < 8 ==> room_hash_of(code)[i] == hmac_sha256(
            encode_utf8(code),
            encode_utf8("mlink-room"@),
        )[i],
        room_app_id_of(app_uuid, code).len() == 32,
        0 <= i < 16 ==> {
            let b = hmac_sha256(encode_utf8(app_uuid), encode_utf8("mlink-room-id-"@ + code))[i];
            &&& room_app_id_of(app_uuid, code)[2 * i] == "0123456789abcdef"@[b as int / 16]
            &&& room_app_id_of(app_uuid, code)[2 * i + 1] == "0123456789abcdef"@[b as int % 16]
        },
{
    let tag = hmac_sha256(encode_utf8(app_uuid), encode_utf8("mlink-room-id-"@ + code)).take(16);
    bytes_are_pairs_of_digits(tag, Seq::empty(), i);
}

/// A room that this node has joined.
#[derive(Debug, Clone)]
pub struct RoomState {
    pub code: String,
    pub hash: [u8; 8],
    pub joined_at: Instant,
    pub peers: Vec<String>,
}

/// Whether two states are of the same stay in a room; who is there may differ.
pub open spec fn same_stay(a: RoomState, b: RoomState) -> bool {
    a.code@ == b.code@ && a.hash == b.hash && a.joined_at == b.joined_at
}

/// The rooms that this node has joined, by code.
#[derive(Debug)]
pub struct RoomManager {
    rooms: StrMap<RoomState>,
}

/// Whether `r` is a room under `code`: its hash is the code's, and no peer is in it twice.
pub open spec fn room_ok(code: Seq<char>, r: RoomState) -> bool {
    &&& r.code@ == code
    &&& r.hash@ == room_hash_of(code)
    &&& texts(r.peers@).no_duplicates()
}

impl RoomManager {
    /// The joined rooms by code.
    pub closed spec fn view(&self) -> Map<Seq<char>, RoomState> {
        self.rooms@
    }

    /// The codes, in the order of joining.
    pub closed spec fn codes(&self) -> Seq<Seq<char>> {
        self.rooms.key_seq()
    }

    /// Every room is filed under its own code.
    pub closed spec fn wf(&self) -> bool {
        &&& self.rooms.wf()
        &&& forall|c: Seq<char>| #[trigger] self@.dom().contains(c) ==> room_ok(c, self@[c])
    }

    /// What holds of every joined room; the codes in order are the joined ones, each once.
    pub proof fn joined_rooms_are_sound(&self)
        requires
            self.wf(),
        ensures
            forall|c: Seq<char>| #[trigger] self@.dom().contains(c) ==> room_ok(c, self@[c]),
            self.codes().no_duplicates(),
            forall|c: Seq<char>| self@.dom().contains(c) <==> self.codes().contains(c),
    {
        self.rooms.lemma_key_seq();
    }

    pub fn new() -> (m: Self)
        ensures
            m.wf(),
            m@ == Map::<Seq<char>, RoomState>::empty(),
    {
        RoomManager { rooms: StrMap::new() }
    }

    /// Joins a room, with nobody in it yet. Joining again starts it afresh.
    pub fn join(&mut self, code: &str) -> (r: RoomState)
        requires
            old(self).wf(),
            hashable(code@),
        ensures
            final(self).wf(),
            r.code@ == code@,
            r.hash@ == room_hash_of(code@),
            r.peers@.len() == 0,
            final(self)@.dom() == old(self)@.dom().insert(code@),
            final(self)@.remove(code@) == old(self)@.remove(code@),
            same_stay(final(self)@[code@], r),
            final(self)@[code@].peers@.len() == 0,
    {
        let hash: [u8; 8] = room_hash(code);
        let joined_at = now();
        let state = RoomState { code: code.to_owned(), hash, joined_at, peers: Vec::new() };
        let kept = RoomState { code: code.to_owned(), hash, joined_at, peers: Vec::new() };
        let _ = self.rooms.insert(code.to_owned(), kept);
        proof {
            assert(texts(kept.peers@).no_duplicates());
            assert(self@.remove(code@) =~= old(self)@.remove(code@));
            assert(self@.dom() =~= old(self)@.dom().insert(code@));
            assert forall|c: Seq<char>| #[trigger] self@.dom().contains(c) implies room_ok(
                c,
                self@[c],
            ) by {
                if c != code@ {
                    assert(old(self)@.dom().contains(c));
                }
            }
        }
        state
    }

    /// Leaves a room, and gives back what was known of it.
    pub fn leave(&mut self, code: &str) -> (r: Option<RoomState>)
        requires
            old(self).wf(),
        ensures
            final(self).wf(),
            final(self)@ == old(self)@.remove(code@),
            match r {
                Some(s) => old(self)@.dom().contains(code@) && s == old(self)@[code@],
                None => !old(self)@.dom().contains(code@),
            },
    {
        let r = self.rooms.remove(code);
        proof {
            assert forall|c: Seq<char>| #[trigger] self@.dom().contains(c) implies room_ok(
                c,
                self@[c],
            ) by {
                assert(old(self)@.dom().contains(c));
            }
        }
        r
    }

    /// The joined rooms.
    pub fn list(&self) -> (r: Vec<&RoomState>)
        requires
            self.wf(),
        ensures
            r@.len() == self.codes().len(),
            forall|i: int| 0 <= i < r@.len() ==> *(#[trigger] r@[i]) == self@[self.codes()[i]],
    {
        let mut r: Vec<&RoomState> = Vec::new();
        let mut i: usize = 0;
        let n: usize = self.rooms.len();
        while i < n
            invariant
                i <= n == self.codes().len(),
                self.wf(),
                r@.len() == i,
                forall|j: int| 0 <= j < i ==> *(#[trigger] r@[j]) == self@[self.codes()[j]],
            decreases n - i,
        {
            r.push(self.rooms.value_at(i));
            i = i + 1;
        }
        r
    }

    /// Who is in a room; nobody where it is not joined.
    pub fn peers(&self, code: &str) -> (r: Vec<String>)
        requires
            self.wf(),
        ensures
            texts(r@) == if self@.dom().contains(code@) {
                texts(self@[code@].peers@)
            } else {
                Seq::empty()
            },
    {
        match self.rooms.get(code) {
            Some(room) => copy_names(&room.peers),
            None => {
                let r: Vec<String> = Vec::new();
                proof {
                    assert(texts(r@) =~= Seq::<Seq<char>>::empty());
                }
                r
            },
        }
    }

    pub fn is_joined(&self, code: &str) -> (r: bool)
        requires
            self.wf(),
        ensures
            r == self@.dom().contains(code@),
    {
        self.rooms.contains(code)
    }

    /// The hashes of the joined rooms.
    pub fn active_hashes(&self) -> (r: Vec<[u8; 8]>)
        requires
            self.wf(),
        ensures
            r@.len() == self.codes().len(),
            forall|i: int|
                0 <= i < r@.len() ==> (#[trigger] r@[i])@ == room_hash_of(self.codes()[i]),
    {
        let mut r: Vec<[u8; 8]> = Vec::new();
        let mut i: usize = 0;
        let n: usize = self.rooms.len();
        while i < n
            invariant
                i <= n == self.codes().len(),
                self.wf(),
                r@.len() == i,
                forall|j: int| 0 <= j < i ==> (#[trigger] r@[j])@ == room_hash_of(self.codes()[j]),
            decreases n - i,
        {
            let room = self.rooms.value_at(i);
            assert(self@.dom().contains(self.codes()[i as int]));
            assert(room_ok(self.codes()[i as int], *room));
            r.push(room.hash);
            i = i + 1;
        }
        r
    }

    /// Puts a peer into a joined room, once; a room that is not joined stays unknown.
    pub fn add_peer(&mut self, code: &str, peer_id: &str)
        requires
            old(self).wf(),
        ensures
            final(self).wf(),
            final(self).codes() == old(self).codes(),
            final(self)@.dom() == old(self)@.dom(),
            final(self)@.remove(code@) == old(self)@.remove(code@),
            old(self)@.dom().contains(code@) ==> same_stay(final(self)@[code@], old(self)@[code@])
                && texts(final(self)@[code@].peers@) == including(
                texts(old(self)@[code@].peers@),
                peer_id@,
            ),
    {
        let ghost before = self@;
        if let Some(room) = self.rooms.get_mut(code) {
            proof {
                lemma_including(texts(room.peers@), peer_id@);
            }
            add_name(&mut room.peers, peer_id);
        }
        proof {
            assert(self@.dom() =~= before.dom());
            assert(self@.remove(code@) =~= before.remove(code@));
            assert forall|c: Seq<char>| #[trigger] self@.dom().contains(c) implies room_ok(
                c,
                self@[c],
            ) by {
                assert(before.dom().contains(c));
                if c != code@ {
                    assert(self@[c] == before[c]);
                }
            }
        }
    }

    /// Takes a peer out of a room.
    pub fn remove_peer(&mut self, code: &str, peer_id: &str)
        requires
            old(self).wf(),
        ensures
            final(self).wf(),
            final(self).codes() == old(self).codes(),
            final(self)@.dom() == old(self)@.dom(),
            final(self)@.remove(code@) == old(self)@.remove(code@),
            old(self)@.dom().contains(code@) ==> same_stay(final(self)@[code@], old(self)@[code@])
                && texts(final(self)@[code@].peers@) == without(
                texts(old(self)@[code@].peers@),
                peer_id@,
            ),
    {
        let ghost before = self@;
        if let Some(room) = self.rooms.get_mut(code) {
            proof {
                lemma_without(texts(room.peers@), peer_id@);
            }
            drop_name(&mut room.peers, peer_id);
        }
        proof {
            assert(self@.dom() =~= before.dom());
            assert(self@.remove(code@) =~= before.remove(code@));
            assert forall|c: Seq<char>| #[trigger] self@.dom().contains(c) implies room_ok(
                c,
                self@[c],
            ) by {
                assert(before.dom().contains(c));
                if c != code@ {
                    assert(self@[c] == before[c]);
                }
            }
        }
    }
}

impl Default for RoomManager {
    fn default() -> (m: Self)
        ensures
            m.wf(),
            m@ == Map::<Seq<char>, RoomState>::empty(),
    {
        RoomManager::new()
    }
}

} // verus!
