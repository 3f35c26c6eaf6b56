//! What happens to a payload on its way into a frame and out of one: compression first, then
//! encryption; decryption first, then decompression.

use vstd::prelude::*;

use crate::mesh::security::{
    aes_gcm_opened, aes_gcm_sealed, decrypt, encrypt, key_fault, nonce_of,
};
use crate::protocol::compress::{
    compress, decompress, should_compress, zstd_content, zstd_frame, COMPRESS_THRESHOLD,
    DEFAULT_LEVEL,
};
use crate::protocol::errors::{MlinkError, Result};
use crate::protocol::frame::{encode_frame, frame_bytes};
use crate::protocol::types::{
    encode_flags, flags_value, Frame, MessageType, MAGIC, PROTOCOL_VERSION,
};
use crate::text::decimal;

verus! {

/// A payload as it goes into a frame.
pub struct Packed {
    pub body: Vec<u8>,
    pub compressed: bool,
    pub encrypted: bool,
}

/// The payload after compression, if it is long enough and `allowed`: its bytes, and whether
/// they are compressed. `None` where the compressor fails.
pub open spec fn squeezed(payload: Seq<u8>, allowed: bool) -> Option<(Seq<u8>, bool)> {
    if allowed && payload.len() >= COMPRESS_THRESHOLD {
        match zstd_frame(payload, DEFAULT_LEVEL) {
            Some(frame) => Some((frame, true)),
            None => None,
        }
    } else {
        Some((payload, false))
    }
}

/// The body of a payload after encryption under `key`, if there is one. `None` where the key is
/// no key or the cipher fails.
pub open spec fn locked(body: Seq<u8>, key: Option<Seq<u8>>, seq: u16) -> Option<Seq<u8>> {
    match key {
        None => Some(body),
        Some(k) => if k.len() == 32 {
            aes_gcm_sealed(k, nonce_of(seq), body)
        } else {
            None
        },
    }
}

/// Why a payload was not encrypted under `key`.
pub open spec fn lock_fault(key: Seq<u8>) -> Seq<char> {
    if key.len() != 32 {
        key_fault(key)
    } else {
        "AES-256-GCM encrypt failed"@
    }
}

/// The view of an optional key.
pub open spec fn key_view(key: Option<&[u8]>) -> Option<Seq<u8>> {
    match key {
        Some(k) => Some(k@),
        None => None,
    }
}

/// Compresses a payload where that is allowed and worthwhile, then encrypts it where there is a
/// key. The marks say what was done, never more.
pub fn pack_payload(payload: &[u8], allow_compress: bool, key: Option<&[u8]>, seq: u16) -> (r:
    Result<Packed>)
    ensures
        match packed(payload@, allow_compress, key_view(key), seq) {
            Err(fault) => r matches Err(e) && reports(e, fault),
            Ok((body, compressed, encrypted)) => {
                &&& r matches Ok(p)
                &&& p.body@ == body
                &&& p.compressed == compressed
                &&& p.encrypted == encrypted
            },
        },
        r matches Ok(p) ==> unpacked(p.body@, p.compressed, key_view(key), seq) == Some(payload@),
{
    let compressed = allow_compress && should_compress(payload);
    let body: Vec<u8> = if compressed {
        match compress(payload) {
            Ok(b) => b,
            Err(e) => {
                return Err(e);
            },
        }
    } else {
        vstd::slice::slice_to_vec(payload)
    };
    match key {
        None => Ok(Packed { body, compressed, encrypted: false }),
        Some(k) => match encrypt(body.as_slice(), k, seq) {
            Ok(sealed) => Ok(Packed { body: sealed, compressed, encrypted: true }),
            Err(e) => Err(e),
        },
    }
}

/// What is read from a body: decrypted under `key` if there is one, then decompressed if it is
/// marked so. `None` where either fails.
pub open spec fn unpacked(
    body: Seq<u8>,
    compressed: bool,
    key: Option<Seq<u8>>,
    seq: u16,
) -> Option<Seq<u8>> {
    match unlocked(body, key, seq) {
        None => None,
        Some(plain) => if compressed {
            zstd_content(plain)
        } else {
            Some(plain)
        },
    }
}

/// A body after decryption under `key`, if there is one.
pub open spec fn unlocked(body: Seq<u8>, key: Option<Seq<u8>>, seq: u16) -> Option<Seq<u8>> {
    match key {
        None => Some(body),
        Some(k) => if k.len() == 32 {
            aes_gcm_opened(k, nonce_of(seq), body)
        } else {
            None
        },
    }
}

/// Why a body was not decrypted under `key`.
pub open spec fn unlock_fault(key: Seq<u8>) -> Seq<char> {
    if key.len() != 32 {
        key_fault(key)
    } else {
        "AES-256-GCM decrypt failed"@
    }
}

/// Decrypts a body where there is a key, then decompresses it where it is marked so.
pub fn unpack_payload(body: &[u8], compressed: bool, key: Option<&[u8]>, seq: u16) -> (r: Result<
    Vec<u8>,
>)
    ensures
        match unlocked(body@, key_view(key), seq) {
            None => r matches Err(MlinkError::SecurityError(m)) && m@ == unlock_fault(key->0@),
            Some(plain) => match unpacked(body@, compressed, key_view(key), seq) {
                None => r matches Err(MlinkError::CompressError(_)),
                Some(payload) => r matches Ok(out) && out@ == payload,
            },
        },
{
    let plain: Vec<u8> = match key {
        None => vstd::slice::slice_to_vec(body),
        Some(k) => match decrypt(body, k, seq) {
            Ok(p) => p,
            Err(e) => {
                return Err(e);
            },
        },
    };
    if compressed {
        decompress(plain.as_slice())
    } else {
        Ok(plain)
    }
}

/// Why a payload cannot be put into a frame.
pub enum PackFault {
    /// The compressor failed.
    Compress,
    /// The key is no key, or the cipher failed; with the reason.
    Security(Seq<char>),
    /// The body has this many bytes, more than a frame can carry.
    TooLarge(nat),
}

/// Whether `e` is the error for this fault.
pub open spec fn reports(e: MlinkError, fault: PackFault) -> bool {
    match fault {
        PackFault::Compress => e is CompressError,
        PackFault::Security(why) => e matches MlinkError::SecurityError(m) && m@ == why,
        PackFault::TooLarge(n) => e matches MlinkError::PayloadTooLarge { size, max } && size == n
            && max == MAX_FRAME_PAYLOAD,
    }
}

/// The body and the marks that a payload gets, or why it gets none.
pub open spec fn packed(payload: Seq<u8>, allow: bool, key: Option<Seq<u8>>, seq: u16) -> (
    std::result::Result<(Seq<u8>, bool, bool), PackFault>
) {
    match squeezed(payload, allow) {
        None => Err(PackFault::Compress),
        Some((body, compressed)) => match locked(body, key, seq) {
            None => Err(PackFault::Security(lock_fault(key->0))),
            Some(sealed) => Ok((sealed, compressed, key is Some)),
        },
    }
}

/// A payload is compressed where that is allowed and it has 256 bytes or more, at level 3, and
/// then encrypted where there is a key, under the number of its frame; neither is done otherwise,
/// and the two marks say which was.
pub proof fn payload_is_compressed_then_encrypted(
    payload: Seq<u8>,
    allow: bool,
    key: Option<Seq<u8>>,
    seq: u16,
    body: Seq<u8>,
    compressed: bool,
    encrypted: bool,
)
    requires
        packed(payload, allow, key, seq) == Ok::<(Seq<u8>, bool, bool), PackFault>(
            (body, compressed, encrypted),
        ),
    ensures
        compressed <==> allow && payload.len() >= 256,
        encrypted <==> key is Some,
        !compressed && !encrypted ==> body == payload,
        compressed && !encrypted ==> zstd_frame(payload, 3) == Some(body),
        !compressed && encrypted ==> key->0.len() == 32 && aes_gcm_sealed(
            key->0,
            nonce_of(seq),
            payload,
        ) == Some(body),
        compressed && encrypted ==> key->0.len() == 32 && zstd_frame(payload, 3) is Some
            && aes_gcm_sealed(key->0, nonce_of(seq), zstd_frame(payload, 3)->0) == Some(body),
{
}

/// A payload that is short or not to be compressed always gets a body where there is no key, and
/// where there is one only a wrong key or the cipher stands in the way.
pub proof fn plain_payload_is_never_refused(payload: Seq<u8>, allow: bool, key: Seq<u8>, seq: u16)
    requires
        !allow || payload.len() < 256,
    ensures
        packed(payload, allow, None, seq) is Ok,
        packed(payload, allow, Some(key), seq) is Ok <==> key.len() == 32 && aes_gcm_sealed(
            key,
            nonce_of(seq),
            payload,
        ) is Some,
        packed(payload, allow, Some(key), seq) matches Err(fault) ==> fault is Security,
{
}

/// What is read from a body is what was put into it: decrypted first, then decompressed, each
/// only where it was done.
pub proof fn body_is_decrypted_then_decompressed(
    body: Seq<u8>,
    compressed: bool,
    key: Option<Seq<u8>>,
    seq: u16,
)
    ensures
        !compressed && key is None ==> unpacked(body, compressed, key, seq) == Some(body),
        compressed && key is None ==> unpacked(body, compressed, key, seq) == zstd_content(body),
        key is Some && key->0.len() != 32 ==> unpacked(body, compressed, key, seq) is None,
        !compressed && key is Some && key->0.len() == 32 ==> unpacked(body, compressed, key, seq)
            == aes_gcm_opened(key->0, nonce_of(seq), body),
        compressed && key is Some && key->0.len() == 32 ==> unpacked(body, compressed, key, seq)
            == match aes_gcm_opened(key->0, nonce_of(seq), body) {
            Some(plain) => zstd_content(plain),
            None => None,
        },
        unlocked(body, key, seq) == unpacked(body, false, key, seq),
{
}

/// The largest payload that a frame can carry.
pub const MAX_FRAME_PAYLOAD: usize = 0xFFFF;

/// Puts a body into a frame. A body that the header's length field cannot hold is refused.
pub fn frame_body(
    compressed: bool,
    encrypted: bool,
    msg_type: MessageType,
    seq: u16,
    body: Vec<u8>,
) -> (r: Result<Vec<u8>>)
    ensures
        if body@.len() <= MAX_FRAME_PAYLOAD {
            r matches Ok(bytes) && bytes@ == frame_bytes(
                flags_value(compressed, encrypted, msg_type) as u8,
                seq,
                body@,
            )
        } else {
            r matches Err(e) && reports(e, PackFault::TooLarge(body@.len()))
        },
{
    if body.len() > MAX_FRAME_PAYLOAD {
        return Err(MlinkError::PayloadTooLarge { size: body.len(), max: MAX_FRAME_PAYLOAD });
    }
    let length: u16 = body.len() as u16;
    let frame = Frame {
        magic: MAGIC,
        version: PROTOCOL_VERSION,
        flags: encode_flags(compressed, encrypted, msg_type),
        seq,
        length,
        payload: body,
    };
    Ok(encode_frame(&frame))
}

/// Every fault is reported as an error of its kind: with the reason of the cipher, or with the size
/// of the body and the most that a frame can carry.
pub proof fn faults_are_reported(e: MlinkError, fault: PackFault, key: Seq<u8>)
    requires
        reports(e, fault),
    ensures
        fault is Compress ==> e is CompressError,
        fault matches PackFault::Security(why) ==> (e matches MlinkError::SecurityError(m) && m@
            == why),
        fault matches PackFault::TooLarge(n) ==> (e matches MlinkError::PayloadTooLarge {
            size,
            max,
        } && size == n && max == 0xFFFF),
        key.len() != 32 ==> lock_fault(key) == unlock_fault(key) && lock_fault(key)
            == "aes key must be 32 bytes, got "@ + decimal(key.len()),
        key.len() == 32 ==> lock_fault(key) == "AES-256-GCM encrypt failed"@ && unlock_fault(key)
            == "AES-256-GCM decrypt failed"@,
{
}

/// Where a payload gets no body, the reason is the first thing that went wrong: the compressor
/// where it is to be compressed, else the key or the cipher.
pub proof fn first_fault_counts(payload: Seq<u8>, allow: bool, key: Option<Seq<u8>>, seq: u16)
    ensures
        allow && payload.len() >= 256 && zstd_frame(payload, 3) is None ==> packed(
            payload,
            allow,
            key,
            seq,
        ) is Err && packed(payload, allow, key, seq)->Err_0 is Compress,
        key is None && (!allow || payload.len() < 256 || zstd_frame(payload, 3) is Some) ==> packed(
            payload,
            allow,
            key,
            seq,
        ) is Ok,
        key is Some && key->0.len() != 32 && (!allow || payload.len() < 256 || zstd_frame(
            payload,
            3,
        ) is Some) ==> packed(payload, allow, key, seq) is Err && packed(
            payload,
            allow,
            key,
            seq,
        )->Err_0 is Security,
{
}

/// A key is taken as it is given.
pub proof fn keys_are_taken_as_given(k: &[u8])
    ensures
        key_view(Some(k)) == Some(k@),
        key_view(None) is None,
{
}

} // verus!
