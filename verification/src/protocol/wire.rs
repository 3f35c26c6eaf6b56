//! Big-endian integers.

use vstd::prelude::*;

verus! {

/// The last `width` bytes of `n`, most significant first.
pub open spec fn be_bytes(n: nat, width: nat) -> Seq<u8>
    decreases width,
{
    if width == 0 {
        Seq::empty()
    } else {
        be_bytes(n / 256, (width - 1) as nat).push((n % 256) as u8)
    }
}

/// The number that bytes stand for, most significant first.
pub open spec fn be_value(s: Seq<u8>) -> nat
    decreases s.len(),
{
    if s.len() == 0 {
        0
    } else {
        be_value(s.drop_last()) * 256 + s.last() as nat
    }
}

/// How many values `k` bytes can hold.
pub open spec fn byte_range(k: nat) -> nat
    decreases k,
{
    if k == 0 {
        1
    } else {
        256 * byte_range((k - 1) as nat)
    }
}

pub proof fn lemma_be_value_bound(s: Seq<u8>)
    ensures
        be_value(s) < byte_range(s.len()),
    decreases s.len(),
{
    if s.len() > 0 {
        lemma_be_value_bound(s.drop_last());
    }
}

/// A number that fits in `width` bytes is read back as it was written.
pub proof fn lemma_be_round_trip(n: nat, width: nat)
    requires
        n < byte_range(width),
    ensures
        be_bytes(n, width).len() == width,
        be_value(be_bytes(n, width)) == n,
    decreases width,
{
    if width > 0 {
        lemma_be_round_trip(n / 256, (width - 1) as nat);
        let s = be_bytes(n, width);
        assert(s.drop_last() =~= be_bytes(n / 256, (width - 1) as nat));
    }
}

/// The most significant byte comes first, in both directions.
pub proof fn most_significant_byte_comes_first(n: nat, a: u8, b: u8, c: u8, d: u8)
    ensures
        n < 0x1_0000 ==> be_bytes(n, 2) == seq![(n / 256) as u8, (n % 256) as u8],
        n < 0x1_0000_0000 ==> be_bytes(n, 4) == seq![
            (n / 0x100_0000) as u8,
            (n / 0x1_0000 % 256) as u8,
            (n / 256 % 256) as u8,
            (n % 256) as u8,
        ],
        be_value(seq![a, b]) == 256 * a + b,
        be_value(seq![a, b, c, d]) == 0x100_0000 * a + 0x1_0000 * b + 256 * c + d,
{
    reveal_with_fuel(be_bytes, 5);
    reveal_with_fuel(be_value, 5);
    assert(seq![a, b].drop_last() =~= seq![a]);
    assert(seq![a].drop_last() =~= Seq::empty());
    assert(seq![a, b, c, d].drop_last() =~= seq![a, b, c]);
    assert(seq![a, b, c].drop_last() =~= seq![a, b]);
    assert(n / 256 / 256 / 256 == n / 0x100_0000 && n / 256 / 256 == n / 0x1_0000);
}

/// A byte that is added at the end counts least.
pub proof fn last_byte_counts_least(s: Seq<u8>, b: u8, n: nat, width: nat)
    ensures
        be_value(s.push(b)) == be_value(s) * 256 + b,
        be_bytes(n, width + 1) == be_bytes(n / 256, width).push((n % 256) as u8),
{
    assert(s.push(b).drop_last() =~= s);
}

/// The widths that the protocol uses.
pub proof fn lemma_byte_ranges()
    ensures
        byte_range(2) == 0x1_0000,
        byte_range(4) == 0x1_0000_0000,
        byte_range(16) == 0x1_0000_0000_0000_0000_0000_0000_0000_0000,
{
    reveal_with_fuel(byte_range, 17);
}

/// Appends the last `width` bytes of `n`, most significant first.
pub fn push_be(buf: &mut Vec<u8>, n: u128, width: u8)
    ensures
        final(buf)@ == old(buf)@ + be_bytes(n as nat, width as nat),
    decreases width,
{
    if width > 0 {
        push_be(buf, n / 256, width - 1);
        buf.push((n % 256) as u8);
    }
    proof {
        assert(buf@ =~= old(buf)@ + be_bytes(n as nat, width as nat));
    }
}

/// Reads `width` bytes from place `from` on, most significant first.
pub fn read_be(data: &[u8], from: usize, width: usize) -> (n: u128)
    requires
        width <= 16,
        from + width <= data@.len(),
    ensures
        n == be_value(data@.subrange(from as int, from + width)),
        n < byte_range(width as nat),
{
    let mut n: u128 = 0;
    let mut i: usize = 0;
    proof {
        lemma_byte_ranges();
        assert(data@.subrange(from as int, from as int) =~= Seq::empty());
    }
    while i < width
        invariant
            i <= width <= 16,
            from + width <= data.len(),
            n == be_value(data@.subrange(from as int, from + i)),
            byte_range(16) == 0x1_0000_0000_0000_0000_0000_0000_0000_0000,
        decreases width - i,
    {
        let ghost s = data@.subrange(from as int, from + i);
        let ghost t = data@.subrange(from as int, from + i + 1);
        proof {
            assert(t.drop_last() =~= s);
            lemma_be_value_bound(t);
            lemma_byte_range_mono((i + 1) as nat, 16);
        }
        n = n * 256 + data[from + i] as u128;
        i = i + 1;
    }
    proof {
        lemma_be_value_bound(data@.subrange(from as int, from + width));
    }
    n
}

proof fn lemma_byte_range_mono(a: nat, b: nat)
    requires
        a <= b,
    ensures
        byte_range(a) <= byte_range(b),
        1 <= byte_range(a),
    decreases b,
{
    if a < b {
        lemma_byte_range_mono(a, (b - 1) as nat);
    } else if a > 0 {
        lemma_byte_range_mono((a - 1) as nat, (a - 1) as nat);
    }
}

/// A copy of a part of `data`.
pub fn copy_range(data: &[u8], from: usize, to: usize) -> (r: Vec<u8>)
    requires
        from <= to <= data@.len(),
    ensures
        r@ == data@.subrange(from as int, to as int),
{
    vstd::slice::slice_to_vec(vstd::slice::slice_subrange(data, from, to))
}

/// Appends a copy of `data`.
pub fn push_bytes(buf: &mut Vec<u8>, data: &[u8])
    ensures
        final(buf)@ == old(buf)@ + data@,
{
    buf.extend_from_slice(data);
    proof {
        assert(buf@ =~= old(buf)@ + data@);
    }
}

} // verus!
