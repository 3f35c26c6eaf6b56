//! Key agreement, payload encryption, and the list of trusted peers.

use std::path::PathBuf;

use ring::aead::{Aad, LessSafeKey, Nonce, UnboundKey, AES_256_GCM};
use ring::agreement::{agree_ephemeral, EphemeralPrivateKey, UnparsedPublicKey, X25519};
use ring::rand::SystemRandom;
use vstd::prelude::*;
use vstd::utf8::encode_utf8;

use crate::protocol::errors::{MlinkError, Result};
use crate::protocol::wire::{
    be_bytes, be_value, lemma_be_round_trip, lemma_byte_ranges,
    most_significant_byte_comes_first, read_be,
};
use crate::text::{decimal, push_decimal, str_eq};

verus! {

/// `std::path::PathBuf`, carried through unread.
#[verifier::external_type_specification]
#[verifier::external_body]
pub struct ExPathBuf(std::path::PathBuf);

/// `ring`'s one-use private key.
#[verifier::external_type_specification]
#[verifier::external_body]
pub struct ExEphemeralPrivateKey(ring::agreement::EphemeralPrivateKey);

/// The longest input that is handed to a keyed hash; longer ones overflow its bit counter.
pub const MAX_HASH_INPUT: u64 = 0x1000_0000_0000_0000;

/// The longest payload that AES-GCM takes under one nonce.
pub const MAX_SEAL_INPUT: u64 = 0xF_FFFF_FFE0;

/// The bytes that AES-GCM adds to a payload.
pub const SEAL_TAG_BYTES: usize = 16;

/// The public key of a private key.
pub uninterp spec fn x25519_public(k: EphemeralPrivateKey) -> Seq<u8>;

/// The secret that a private key and a public key agree on; `None` where they cannot.
pub uninterp spec fn x25519_shared(k: EphemeralPrivateKey, peer: Seq<u8>) -> Option<Seq<u8>>;

/// The key that HKDF with SHA-256 derives: 32 bytes of output keying material.
pub uninterp spec fn hkdf_sha256(salt: Seq<u8>, secret: Seq<u8>, info: Seq<u8>) -> Seq<u8>;

/// What AES-256-GCM makes of `plain`: ciphertext and tag.
pub uninterp spec fn aes_gcm_sealed(key: Seq<u8>, nonce: Seq<u8>, plain: Seq<u8>) -> Option<
    Seq<u8>,
>;

/// What AES-256-GCM reads from `sealed`; `None` where the tag does not fit.
pub uninterp spec fn aes_gcm_opened(key: Seq<u8>, nonce: Seq<u8>, sealed: Seq<u8>) -> Option<
    Seq<u8>,
>;

/// `EphemeralPrivateKey::generate`, on X25519 with the system's randomness. Which key comes out
/// is chance, but its public key has 32 bytes.
#[verifier::external_body]
fn x25519_generate() -> (r: Option<EphemeralPrivateKey>)
    ensures
        r matches Some(k) ==> x25519_public(k).len() == 32,
{
    EphemeralPrivateKey::generate(&X25519, &SystemRandom::new()).ok()
}

/// `EphemeralPrivateKey::compute_public_key`: every private key has a public key, and determines
/// its bytes.
#[verifier::external_body]
fn x25519_public_key(k: &EphemeralPrivateKey) -> (r: Option<Vec<u8>>)
    ensures
        r is Some,
        r matches Some(public) ==> public@ == x25519_public(*k),
{
    k.compute_public_key().ok().map(|p| p.as_ref().to_vec())
}

/// `agree_ephemeral` on X25519: 32 bytes that the two keys determine. The owner of the other
/// private key gets the same bytes from this side's public key.
#[verifier::external_body]
fn x25519_agree(k: EphemeralPrivateKey, peer: &[u8]) -> (r: Option<Vec<u8>>)
    ensures
        match r {
            Some(secret) => x25519_shared(k, peer@) == Some(secret@) && secret@.len() == 32,
            None => x25519_shared(k, peer@) is None,
        },
        r matches Some(secret) ==> forall|other: EphemeralPrivateKey|
            #[trigger] x25519_public(other) == peer@ ==> x25519_shared(other, x25519_public(k))
                == Some(secret@),
{
    agree_ephemeral(k, &UnparsedPublicKey::new(&X25519, peer), |s| s.to_vec()).ok()
}

/// `ring::hkdf`: extract with `salt`, expand with `info`, and fill 32 bytes, which is within
/// what HKDF can give.
#[verifier::external_body]
fn hkdf_derive(salt: &[u8], secret: &[u8], info: &[u8]) -> (key: Vec<u8>)
    requires
        secret@.len() <= MAX_HASH_INPUT,
        salt@.len() <= MAX_HASH_INPUT,
        info@.len() <= MAX_HASH_INPUT,
    ensures
        key@ == hkdf_sha256(salt@, secret@, info@),
        key@.len() == 32,
{
    let prk = ring::hkdf::Salt::new(ring::hkdf::HKDF_SHA256, salt).extract(secret);
    let mut key = vec![0u8; 32];
    prk.expand(&[info], ring::hkdf::HKDF_SHA256)
        .and_then(|okm| okm.fill(&mut key))
        .expect("32 bytes of output keying material");
    key
}

/// `LessSafeKey::seal_in_place_append_tag` with AES-256-GCM: the payload and 16 bytes of tag,
/// which the same key and nonce open again. It fails on payloads over the nonce's limit only.
#[verifier::external_body]
fn aes_gcm_seal(key: &[u8], nonce: [u8; 12], plain: &[u8]) -> (r: Option<Vec<u8>>)
    requires
        key@.len() == 32,
    ensures
        plain@.len() <= MAX_SEAL_INPUT ==> r is Some,
        match r {
            Some(sealed) => {
                &&& aes_gcm_sealed(key@, nonce@, plain@) == Some(sealed@)
                &&& sealed@.len() == plain@.len() + SEAL_TAG_BYTES
                &&& aes_gcm_opened(key@, nonce@, sealed@) == Some(plain@)
            },
            None => aes_gcm_sealed(key@, nonce@, plain@) is None,
        },
{
    let key = LessSafeKey::new(UnboundKey::new(&AES_256_GCM, key).ok()?);
    let mut buf = plain.to_vec();
    let nonce = Nonce::assume_unique_for_key(nonce);
    key.seal_in_place_append_tag(nonce, Aad::empty(), &mut buf).ok()?;
    Some(buf)
}

/// `LessSafeKey::open_in_place` with AES-256-GCM: the payload without its 16 bytes of tag.
#[verifier::external_body]
fn aes_gcm_open(key: &[u8], nonce: [u8; 12], sealed: &[u8]) -> (r: Option<Vec<u8>>)
    requires
        key@.len() == 32,
    ensures
        match r {
            Some(plain) => {
                &&& aes_gcm_opened(key@, nonce@, sealed@) == Some(plain@)
                &&& plain@.len() + SEAL_TAG_BYTES == sealed@.len()
            },
            None => aes_gcm_opened(key@, nonce@, sealed@) is None,
        },
{
    let key = LessSafeKey::new(UnboundKey::new(&AES_256_GCM, key).ok()?);
    let mut buf = sealed.to_vec();
    let nonce = Nonce::assume_unique_for_key(nonce);
    key.open_in_place(nonce, Aad::empty(), &mut buf).ok().map(|p| p.to_vec())
}

/// A private key and the public key that goes with it.
pub struct KeyPair {
    pub private: EphemeralPrivateKey,
    pub public_key_bytes: Vec<u8>,
}

/// The key pair of a private key.
pub fn keypair_of(private: EphemeralPrivateKey) -> (r: Result<KeyPair>)
    ensures
        r matches Ok(kp) && kp.private == private && kp.public_key_bytes@ == x25519_public(private),
{
    match x25519_public_key(&private) {
        None => Err(MlinkError::SecurityError("failed to derive X25519 public key".to_owned())),
        Some(public_key_bytes) => Ok(KeyPair { private, public_key_bytes }),
    }
}

/// A fresh key pair. It fails only where no private key can be drawn.
pub fn generate_keypair() -> (r: Result<KeyPair>)
    ensures
        match r {
            Ok(kp) => {
                &&& kp.public_key_bytes@ == x25519_public(kp.private)
                &&& kp.public_key_bytes@.len() == 32
            },
            Err(e) => e matches MlinkError::SecurityError(m) && m@
                == "failed to generate X25519 private key"@,
        },
{
    match x25519_generate() {
        None => Err(
            MlinkError::SecurityError("failed to generate X25519 private key".to_owned()),
        ),
        Some(private) => keypair_of(private),
    }
}

/// The secret that this side's private key and the peer's public key agree on.
pub fn derive_shared_secret(
    my_private: EphemeralPrivateKey,
    peer_public: &[u8],
) -> (r: Result<Vec<u8>>)
    ensures
        match r {
            Ok(secret) => {
                &&& x25519_shared(my_private, peer_public@) == Some(secret@)
                &&& secret@.len() == 32
                &&& forall|other: EphemeralPrivateKey| #[trigger]
                    x25519_public(other) == peer_public@ ==> x25519_shared(
                        other,
                        x25519_public(my_private),
                    ) == Some(secret@)
            },
            Err(e) => {
                &&& x25519_shared(my_private, peer_public@) is None
                &&& e matches MlinkError::SecurityError(m) && m@ == "ECDH agreement failed"@
            },
        },
{
    match x25519_agree(my_private, peer_public) {
        Some(secret) => Ok(secret),
        None => Err(MlinkError::SecurityError("ECDH agreement failed".to_owned())),
    }
}

/// The first four bytes of a secret, with zeros where it is shorter.
pub open spec fn four_bytes(secret: Seq<u8>) -> Seq<u8> {
    Seq::new(4, |i: int| if i < secret.len() { secret[i] } else { 0u8 })
}

/// The code that two people compare: the first four bytes of the secret as a number, its last
/// six decimal digits.
pub fn derive_verification_code(shared_secret: &[u8]) -> (code: u32)
    ensures
        code == be_value(four_bytes(shared_secret@)) % 1_000_000,
        code < 1_000_000,
{
    let mut buf: Vec<u8> = Vec::new();
    let mut i: usize = 0;
    while i < 4
        invariant
            i <= 4,
            buf@.len() == i,
            forall|j: int| 0 <= j < i ==> buf@[j] == #[trigger] four_bytes(shared_secret@)[j],
        decreases 4 - i,
    {
        if i < shared_secret.len() {
            buf.push(shared_secret[i]);
        } else {
            buf.push(0);
        }
        i = i + 1;
    }
    proof {
        assert(buf@ =~= four_bytes(shared_secret@));
        assert(buf@.subrange(0, 4) =~= buf@);
        lemma_byte_ranges();
    }
    let n: u32 = read_be(buf.as_slice(), 0, 4) as u32;
    n % 1_000_000
}

/// The payload key that a shared secret gives: HKDF with the salt `mlink-v1`.
pub fn derive_aes_key(shared_secret: &[u8]) -> (key: Vec<u8>)
    requires
        shared_secret@.len() <= MAX_HASH_INPUT,
    ensures
        key@ == hkdf_sha256(
            encode_utf8("mlink-v1"@),
            shared_secret@,
            encode_utf8("mlink/aes-256-gcm/v1"@),
        ),
        key@.len() == 32,
{
    broadcast use vstd::string::is_ascii_spec_bytes;

    let salt = "mlink-v1";
    let info = "mlink/aes-256-gcm/v1";
    proof {
        reveal_strlit("mlink-v1");
        reveal_strlit("mlink/aes-256-gcm/v1");
        assert(salt.is_ascii());
        assert(info.is_ascii());
    }
    hkdf_derive(salt.as_bytes(), shared_secret, info.as_bytes())
}

/// The nonce of a frame: ten zero bytes, then its sequence number.
pub open spec fn nonce_of(seq: u16) -> Seq<u8> {
    Seq::new(10, |i: int| 0u8) + be_bytes(seq as nat, 2)
}

fn seq_nonce(seq: u16) -> (nonce: [u8; 12])
    ensures
        nonce@ == nonce_of(seq),
{
    let mut nonce: [u8; 12] = [0u8; 12];
    nonce[10] = (seq / 256) as u8;
    nonce[11] = (seq % 256) as u8;
    proof {
        reveal_with_fuel(be_bytes, 3);
        assert(be_bytes(seq as nat, 2) =~= seq![(seq / 256) as u8, (seq % 256) as u8]);
        assert(nonce@ =~= nonce_of(seq));
    }
    nonce
}

/// Why `key` is no payload key.
pub open spec fn key_fault(key: Seq<u8>) -> Seq<char> {
    "aes key must be 32 bytes, got "@ + decimal(key.len())
}

fn bad_key(key: &[u8]) -> (e: MlinkError)
    ensures
        e matches MlinkError::SecurityError(m) && m@ == key_fault(key@),
{
    let mut m = "aes key must be 32 bytes, got ".to_owned();
    push_decimal(&mut m, key.len() as u64);
    MlinkError::SecurityError(m)
}

/// Encrypts a payload under the sequence number of its frame.
pub fn encrypt(data: &[u8], key: &[u8], seq: u16) -> (r: Result<Vec<u8>>)
    ensures
        key@.len() != 32 ==> (r matches Err(MlinkError::SecurityError(m)) && m@ == key_fault(key@)),
        key@.len() == 32 ==> match r {
            Ok(sealed) => {
                &&& aes_gcm_sealed(key@, nonce_of(seq), data@) == Some(sealed@)
                &&& sealed@.len() == data@.len() + SEAL_TAG_BYTES
                &&& aes_gcm_opened(key@, nonce_of(seq), sealed@) == Some(data@)
            },
            Err(e) => {
                &&& data@.len() > MAX_SEAL_INPUT
                &&& aes_gcm_sealed(key@, nonce_of(seq), data@) is None
                &&& e matches MlinkError::SecurityError(m) && m@ == "AES-256-GCM encrypt failed"@
            },
        },
{
    if key.len() != 32 {
        return Err(bad_key(key));
    }
    match aes_gcm_seal(key, seq_nonce(seq), data) {
        Some(sealed) => Ok(sealed),
        None => Err(MlinkError::SecurityError("AES-256-GCM encrypt failed".to_owned())),
    }
}

/// Decrypts a payload that was encrypted under the same key and sequence number.
pub fn decrypt(data: &[u8], key: &[u8], seq: u16) -> (r: Result<Vec<u8>>)
    ensures
        key@.len() != 32 ==> (r matches Err(MlinkError::SecurityError(m)) && m@ == key_fault(key@)),
        key@.len() == 32 ==> match r {
            Ok(plain) => {
                &&& aes_gcm_opened(key@, nonce_of(seq), data@) == Some(plain@)
                &&& plain@.len() + SEAL_TAG_BYTES == data@.len()
            },
            Err(e) => {
                &&& aes_gcm_opened(key@, nonce_of(seq), data@) is None
                &&& e matches MlinkError::SecurityError(m) && m@ == "AES-256-GCM decrypt failed"@
            },
        },
{
    if key.len() != 32 {
        return Err(bad_key(key));
    }
    match aes_gcm_open(key, seq_nonce(seq), data) {
        Some(plain) => Ok(plain),
        None => Err(MlinkError::SecurityError("AES-256-GCM decrypt failed".to_owned())),
    }
}

/// Different sequence numbers have different nonces.
pub proof fn nonces_are_distinct(a: u16, b: u16)
    ensures
        nonce_of(a).len() == 12,
        nonce_of(a) == nonce_of(b) ==> a == b,
{
    lemma_byte_ranges();
    lemma_be_round_trip(a as nat, 2);
    lemma_be_round_trip(b as nat, 2);
    assert(nonce_of(a).subrange(10, 12) =~= be_bytes(a as nat, 2));
    assert(nonce_of(b).subrange(10, 12) =~= be_bytes(b as nat, 2));
}

/// The nonce of a frame has its number in the last two bytes, the high one first, and zeros before
/// that.
pub proof fn nonce_ends_with_the_number(seq: u16)
    ensures
        nonce_of(seq) == seq![
            0u8,
            0u8,
            0u8,
            0u8,
            0u8,
            0u8,
            0u8,
            0u8,
            0u8,
            0u8,
            (seq / 256) as u8,
            (seq % 256) as u8,
        ],
{
    most_significant_byte_comes_first(seq as nat, 0, 0, 0, 0);
    assert(nonce_of(seq) =~= seq![
        0u8,
        0u8,
        0u8,
        0u8,
        0u8,
        0u8,
        0u8,
        0u8,
        0u8,
        0u8,
        (seq / 256) as u8,
        (seq % 256) as u8,
    ]);
}

/// The number behind the code that two people compare is made of the first four bytes of the
/// secret, the first one counting most.
pub proof fn code_depends_on_the_first_four_bytes(secret: Seq<u8>)
    ensures
        secret.len() >= 4 ==> be_value(four_bytes(secret)) == 0x100_0000 * secret[0] + 0x1_0000
            * secret[1] + 256 * secret[2] + secret[3],
        secret.len() == 0 ==> be_value(four_bytes(secret)) == 0,
        secret.len() == 1 ==> be_value(four_bytes(secret)) == 0x100_0000 * secret[0],
        secret.len() == 2 ==> be_value(four_bytes(secret)) == 0x100_0000 * secret[0] + 0x1_0000
            * secret[1],
        secret.len() == 3 ==> be_value(four_bytes(secret)) == 0x100_0000 * secret[0] + 0x1_0000
            * secret[1] + 256 * secret[2],
{
    let f = four_bytes(secret);
    assert(f =~= seq![f[0], f[1], f[2], f[3]]);
    most_significant_byte_comes_first(0, f[0], f[1], f[2], f[3]);
}

/// A peer whose public key is on record.
#[derive(Debug, Clone, PartialEq, Eq)]
pub struct TrustedPeer {
    pub app_uuid: String,
    pub public_key: Vec<u8>,
    pub name: String,
    pub trusted_at: String,
}

/// Whether `uuid` is on the list.
pub open spec fn lists(peers: Seq<TrustedPeer>, uuid: Seq<char>) -> bool {
    exists|i: int| 0 <= i < peers.len() && (#[trigger] peers[i]).app_uuid@ == uuid
}

/// Whether entry `i` is the first one of `uuid`.
pub open spec fn first_of(peers: Seq<TrustedPeer>, uuid: Seq<char>, i: int) -> bool {
    &&& 0 <= i < peers.len()
    &&& peers[i].app_uuid@ == uuid
    &&& forall|j: int| 0 <= j < i ==> (#[trigger] peers[j]).app_uuid@ != uuid
}

/// Whether no uuid is on the list twice.
pub open spec fn uuids_unique(peers: Seq<TrustedPeer>) -> bool {
    forall|i: int, j: int|
        0 <= i < peers.len() && 0 <= j < peers.len() && #[trigger] peers[i].app_uuid@
            == #[trigger] peers[j].app_uuid@ ==> i == j
}

/// Every entry makes its uuid trusted, wherever it stands in the list, and nothing else does.
pub proof fn every_entry_is_trusted(peers: Seq<TrustedPeer>, i: int, uuid: Seq<char>)
    requires
        0 <= i < peers.len(),
    ensures
        lists(peers, peers[i].app_uuid@),
        (forall|j: int| 0 <= j < peers.len() ==> (#[trigger] peers[j]).app_uuid@ != uuid)
            ==> !lists(peers, uuid),
        first_of(peers, uuid, i) ==> peers[i].app_uuid@ == uuid && forall|j: int|
            0 <= j < i ==> (#[trigger] peers[j]).app_uuid@ != uuid,
{
}

/// Whether `after` is `before` with `peer` on the list.
pub open spec fn peer_added(
    before: Seq<TrustedPeer>,
    after: Seq<TrustedPeer>,
    peer: TrustedPeer,
) -> bool {
    if lists(before, peer.app_uuid@) {
        exists|i: int|
            first_of(before, peer.app_uuid@, i) && after == #[trigger] before.update(i, peer)
    } else {
        after == before.push(peer)
    }
}

/// The entries of other uuids.
pub open spec fn without_uuid(peers: Seq<TrustedPeer>, uuid: Seq<char>) -> Seq<TrustedPeer> {
    peers.filter(|p: TrustedPeer| p.app_uuid@ != uuid)
}

/// Whether `after` is `before` without the entries of `uuid`.
pub open spec fn peer_removed(
    before: Seq<TrustedPeer>,
    after: Seq<TrustedPeer>,
    uuid: Seq<char>,
) -> bool {
    after == without_uuid(before, uuid)
}

/// A peer that was put on the list is the first entry of its uuid there, and the entries of all
/// other uuids stay where they were. Nothing else joins.
pub proof fn added_peer_is_found(
    before: Seq<TrustedPeer>,
    after: Seq<TrustedPeer>,
    peer: TrustedPeer,
    k: int,
)
    requires
        peer_added(before, after, peer),
    ensures
        exists|i: int|
            0 <= i < after.len() && #[trigger] after[i] == peer && forall|j: int|
                0 <= j < i ==> (#[trigger] after[j]).app_uuid@ != peer.app_uuid@,
        before.len() <= after.len() <= before.len() + 1,
        0 <= k < before.len() && before[k].app_uuid@ != peer.app_uuid@ ==> after[k] == before[k],
        0 <= k < after.len() && after[k].app_uuid@ != peer.app_uuid@ ==> k < before.len()
            && before[k] == after[k],
{
    if lists(before, peer.app_uuid@) {
        let i = choose|i: int|
            first_of(before, peer.app_uuid@, i) && after == #[trigger] before.update(i, peer);
        assert(after[i] == peer);
        assert forall|j: int| 0 <= j < i implies (#[trigger] after[j]).app_uuid@
            != peer.app_uuid@ by {
            assert(after[j] == before[j]);
        }
    } else {
        let i = before.len() as int;
        assert(after[i] == peer);
        assert forall|j: int| 0 <= j < i implies (#[trigger] after[j]).app_uuid@
            != peer.app_uuid@ by {
            assert(after[j] == before[j]);
        }
    }
}

/// A peer that was taken off the list is nowhere on it, and every other entry still is.
pub proof fn removed_peer_is_gone(
    before: Seq<TrustedPeer>,
    after: Seq<TrustedPeer>,
    uuid: Seq<char>,
    p: TrustedPeer,
)
    requires
        peer_removed(before, after, uuid),
    ensures
        after.contains(p) <==> before.contains(p) && p.app_uuid@ != uuid,
    decreases before.len(),
{
    reveal(Seq::filter);
    if before.len() > 0 {
        let rest = before.drop_last();
        let last = before.last();
        let kept = without_uuid(rest, uuid);
        removed_peer_is_gone(rest, kept, uuid, p);
        assert(before =~= rest.push(last));
        lemma_pushed(rest, last, p);
        lemma_pushed(kept, last, p);
    }
}

proof fn lemma_pushed(list: Seq<TrustedPeer>, last: TrustedPeer, p: TrustedPeer)
    ensures
        list.push(last).contains(p) <==> list.contains(p) || p == last,
{
    assert(list.push(last)[list.len() as int] == last);
    if list.contains(p) {
        let i = list.index_of(p);
        assert(list.push(last)[i] == p);
    }
    if list.push(last).contains(p) {
        let i = list.push(last).index_of(p);
        if i < list.len() {
            assert(list[i] == p);
        }
    }
}

/// The trusted peers, and the file that they are kept in.
#[derive(Debug)]
pub struct TrustStore {
    path: PathBuf,
    peers: Vec<TrustedPeer>,
}

impl TrustStore {
    /// The entries, in order.
    pub closed spec fn view(&self) -> Seq<TrustedPeer> {
        self.peers@
    }

    /// The file that the entries are kept in.
    pub closed spec fn file(&self) -> PathBuf {
        self.path
    }

    /// A store over the entries that were read from `path`.
    pub fn new(path: PathBuf, peers: Vec<TrustedPeer>) -> (s: Self)
        ensures
            s@ == peers@,
            s.file() == path,
    {
        TrustStore { path, peers }
    }

    pub fn path(&self) -> (p: &PathBuf)
        ensures
            *p == self.file(),
    {
        &self.path
    }

    fn position(&self, app_uuid: &str) -> (r: Option<usize>)
        ensures
            match r {
                Some(i) => first_of(self@, app_uuid@, i as int),
                None => !lists(self@, app_uuid@),
            },
    {
        let mut i: usize = 0;
        while i < self.peers.len()
            invariant
                i <= self.peers.len(),
                forall|j: int| 0 <= j < i ==> (#[trigger] self.peers@[j]).app_uuid@ != app_uuid@,
            decreases self.peers.len() - i,
        {
            if str_eq(self.peers[i].app_uuid.as_str(), app_uuid) {
                return Some(i);
            }
            i = i + 1;
        }
        None
    }

    pub fn is_trusted(&self, app_uuid: &str) -> (r: bool)
        ensures
            r == lists(self@, app_uuid@),
    {
        match self.position(app_uuid) {
            Some(i) => {
                assert(self@[i as int].app_uuid@ == app_uuid@);
                true
            },
            None => false,
        }
    }

    /// The first entry of `app_uuid`.
    pub fn get(&self, app_uuid: &str) -> (r: Option<&TrustedPeer>)
        ensures
            match r {
                Some(p) => exists|i: int| first_of(self@, app_uuid@, i) && *p == #[trigger] self@[i],
                None => !lists(self@, app_uuid@),
            },
    {
        match self.position(app_uuid) {
            Some(i) => {
                assert(first_of(self@, app_uuid@, i as int));
                Some(&self.peers[i])
            },
            None => None,
        }
    }

    /// Puts `peer` on the list: in place of the first entry of its uuid, else at the end.
    pub fn add(&mut self, peer: TrustedPeer)
        ensures
            final(self).file() == old(self).file(),
            if lists(old(self)@, peer.app_uuid@) {
                exists|i: int|
                    first_of(old(self)@, peer.app_uuid@, i) && final(self)@
                        == #[trigger] old(self)@.update(i, peer)
            } else {
                final(self)@ == old(self)@.push(peer)
            },
            lists(final(self)@, peer.app_uuid@),
            uuids_unique(old(self)@) ==> uuids_unique(final(self)@),
            peer_added(old(self)@, final(self)@, peer),
    {
        let ghost before = self@;
        match self.position(peer.app_uuid.as_str()) {
            Some(i) => {
                self.peers[i] = peer;
                proof {
                    assert(first_of(before, peer.app_uuid@, i as int));
                    assert(before[i as int].app_uuid@ == peer.app_uuid@);
                    assert(self@ =~= before.update(i as int, peer));
                    assert(self@[i as int].app_uuid@ == peer.app_uuid@);
                    if uuids_unique(before) {
                        assert forall|a: int, b: int|
                            0 <= a < self@.len() && 0 <= b < self@.len()
                                && #[trigger] self@[a].app_uuid@
                                == #[trigger] self@[b].app_uuid@ implies a == b by {
                            assert(before[a].app_uuid@ == before[b].app_uuid@);
                        }
                    }
                }
            },
            None => {
                self.peers.push(peer);
                proof {
                    assert(self@[before.len() as int].app_uuid@ == peer.app_uuid@);
                    if uuids_unique(before) {
                        assert forall|a: int, b: int|
                            0 <= a < self@.len() && 0 <= b < self@.len()
                                && #[trigger] self@[a].app_uuid@
                                == #[trigger] self@[b].app_uuid@ implies a == b by {
                            if a < before.len() && b < before.len() {
                                assert(before[a].app_uuid@ == before[b].app_uuid@);
                            } else if a < before.len() {
                                assert(before[a].app_uuid@ == peer.app_uuid@);
                            } else if b < before.len() {
                                assert(before[b].app_uuid@ == peer.app_uuid@);
                            }
                        }
                    }
                }
            },
        }
    }

    /// Takes every entry of `app_uuid` off the list.
    pub fn remove(&mut self, app_uuid: &str)
        ensures
            final(self).file() == old(self).file(),
            final(self)@ == old(self)@.filter(|p: TrustedPeer| p.app_uuid@ != app_uuid@),
            !lists(final(self)@, app_uuid@),
            uuids_unique(old(self)@) ==> uuids_unique(final(self)@),
            peer_removed(old(self)@, final(self)@, app_uuid@),
    {
        let ghost all = self.peers@;
        let ghost keep = |p: TrustedPeer| p.app_uuid@ != app_uuid@;
        let mut kept: Vec<TrustedPeer> = Vec::new();
        let n: usize = self.peers.len();
        let mut i: usize = 0;
        proof {
            reveal(Seq::filter);
            assert(all.skip(0) =~= all);
        }
        while i < n
            invariant
                i <= n == all.len(),
                self.peers@ == all.skip(i as int),
                self.path == old(self).path,
                kept@ == all.take(i as int).filter(keep),
                keep == (|p: TrustedPeer| p.app_uuid@ != app_uuid@),
                !lists(kept@, app_uuid@),
                forall|a: int| 0 <= a < kept@.len() ==> all.take(i as int).contains(#[trigger] kept@[a]),
                uuids_unique(all) ==> uuids_unique(kept@),
            decreases n - i,
        {
            proof {
                reveal(Seq::filter);
                assert(all.take(i + 1).drop_last() =~= all.take(i as int));
                assert(all.skip(i as int).remove(0) =~= all.skip(i + 1));
                assert forall|a: int| 0 <= a < kept@.len() implies all.take(i + 1).contains(
                    #[trigger] kept@[a],
                ) && (uuids_unique(all) ==> kept@[a].app_uuid@ != all[i as int].app_uuid@) by {
                    let b = all.take(i as int).index_of(kept@[a]);
                    assert(all.take(i + 1)[b] == kept@[a]);
                    assert(all[b] == kept@[a]);
                }
                assert(all.take(i + 1)[i as int] == all[i as int]);
            }
            let p = self.peers.remove(0);
            if !str_eq(p.app_uuid.as_str(), app_uuid) {
                kept.push(p);
            }
            i = i + 1;
        }
        proof {
            assert(all.take(n as int) =~= all);
        }
        self.peers = kept;
    }

    pub fn list(&self) -> (r: &[TrustedPeer])
        ensures
            r@ == self@,
    {
        self.peers.as_slice()
    }
}

} // verus!
