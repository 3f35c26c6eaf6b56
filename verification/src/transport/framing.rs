//! How packets are kept apart on a byte stream: each one follows its length, in four bytes.

use vstd::prelude::*;

use crate::protocol::errors::{MlinkError, Result};
use crate::protocol::wire::{
    be_bytes, be_value, lemma_be_round_trip, lemma_be_value_bound, lemma_byte_ranges,
    most_significant_byte_comes_first, push_be, push_bytes, read_be,
};

verus! {

/// The longest packet.
pub const MAX_PACKET: usize = 0xFFFF_FFFF;

/// The width of the length in front of a packet.
pub const LENGTH_PREFIX: usize = 4;

/// A packet behind its length.
pub open spec fn prefixed(data: Seq<u8>) -> Seq<u8> {
    be_bytes(data.len(), 4) + data
}

/// Puts the length in front of a packet. A packet that is too long is refused.
pub fn prefix_packet(data: &[u8]) -> (r: Result<Vec<u8>>)
    ensures
        if data@.len() <= MAX_PACKET {
            r matches Ok(bytes) && bytes@ == prefixed(data@)
        } else {
            r matches Err(MlinkError::PayloadTooLarge { size, max }) && size == data@.len() && max
                == MAX_PACKET
        },
        r is Ok <==> data@.len() <= 0xFFFF_FFFF,
{
    if data.len() > MAX_PACKET {
        return Err(MlinkError::PayloadTooLarge { size: data.len(), max: MAX_PACKET });
    }
    let mut bytes: Vec<u8> = Vec::new();
    push_be(&mut bytes, data.len() as u128, 4);
    push_bytes(&mut bytes, data);
    assert(bytes@ =~= prefixed(data@));
    Ok(bytes)
}

/// How many bytes follow this prefix.
pub fn packet_len(prefix: &[u8; 4]) -> (n: u32)
    ensures
        n == be_value(prefix@),
{
    proof {
        lemma_byte_ranges();
        lemma_be_value_bound(prefix@);
        assert(prefix@.subrange(0, 4) =~= prefix@);
    }
    read_be(prefix, 0, 4) as u32
}

/// A packet is found again behind its length.
pub proof fn packet_round_trip(data: Seq<u8>)
    requires
        data.len() <= MAX_PACKET,
    ensures
        be_value(prefixed(data).take(4)) == data.len(),
        prefixed(data).skip(4) == data,
{
    lemma_byte_ranges();
    lemma_be_round_trip(data.len(), 4);
    assert(prefixed(data).take(4) =~= be_bytes(data.len(), 4));
    assert(prefixed(data).skip(4) =~= data);
}

/// A packet stands behind its length in four bytes, the high one first; what follows it does not
/// count.
pub proof fn packet_layout(data: Seq<u8>, rest: Seq<u8>)
    requires
        data.len() <= 0xFFFF_FFFF,
    ensures
        prefixed(data) == seq![
            (data.len() / 0x100_0000) as u8,
            (data.len() / 0x1_0000 % 256) as u8,
            (data.len() / 256 % 256) as u8,
            (data.len() % 256) as u8,
        ] + data,
        be_value((prefixed(data) + rest).take(4)) == data.len(),
        (prefixed(data) + rest).skip(4).take(data.len() as int) == data,
{
    most_significant_byte_comes_first(data.len(), 0, 0, 0, 0);
    packet_round_trip(data);
    assert((prefixed(data) + rest).take(4) =~= prefixed(data).take(4));
    assert((prefixed(data) + rest).skip(4).take(data.len() as int) =~= data);
}

} // verus!
