//! Acknowledgements of session messages: the frame that carries them, and the ring of
//! messages that still wait for theirs.

use std::collections::VecDeque;

use vstd::prelude::*;

use crate::protocol::errors::{MlinkError, Result};
use crate::protocol::seq::{bit_at, seq_distance};
use crate::protocol::wire::{
    be_bytes, be_value, last_byte_counts_least, lemma_be_round_trip, lemma_byte_ranges,
    most_significant_byte_comes_first, push_be, read_be,
};
use crate::text::{decimal, push_decimal};

verus! {

pub const ACK_FRAME_BYTES: usize = 20;

pub const UNACKED_RING_CAP: usize = 256;

pub const SACK_WINDOW: u32 = 128;

/// A cumulative acknowledgement, and a bitmap of 128 further sequence numbers.
#[derive(Debug, Clone, Copy, PartialEq, Eq, Structural)]
pub struct AckFrame {
    pub ack: u32,
    pub bitmap: u128,
}

/// The twenty bytes of an acknowledgement.
pub open spec fn ack_bytes(a: AckFrame) -> Seq<u8> {
    be_bytes(a.ack as nat, 4) + be_bytes(a.bitmap as nat, 16)
}

/// Writes an acknowledgement.
pub fn encode_ack(a: &AckFrame) -> (buf: Vec<u8>)
    ensures
        buf@ == ack_bytes(*a),
        buf@.len() == ACK_FRAME_BYTES,
{
    let mut buf: Vec<u8> = Vec::new();
    push_be(&mut buf, a.ack as u128, 4);
    push_be(&mut buf, a.bitmap, 16);
    proof {
        lemma_byte_ranges();
        lemma_be_round_trip(a.ack as nat, 4);
        lemma_be_round_trip(a.bitmap as nat, 16);
        assert(buf@ =~= ack_bytes(*a));
    }
    buf
}

/// Reads an acknowledgement; bytes after the twentieth are ignored.
pub fn decode_ack(b: &[u8]) -> (r: Result<AckFrame>)
    ensures
        match r {
            Ok(a) => {
                &&& b@.len() >= ACK_FRAME_BYTES
                &&& a.ack == be_value(b@.subrange(0, 4))
                &&& a.bitmap == be_value(b@.subrange(4, 20))
            },
            Err(e) => {
                &&& b@.len() < ACK_FRAME_BYTES
                &&& e matches MlinkError::CodecError(m) && m@ == "ack frame too short: "@ + decimal(
                    b@.len(),
                ) + " < "@ + decimal(ACK_FRAME_BYTES as nat)
            },
        },
{
    if b.len() < ACK_FRAME_BYTES {
        let mut m = "ack frame too short: ".to_owned();
        push_decimal(&mut m, b.len() as u64);
        m.append(" < ");
        push_decimal(&mut m, ACK_FRAME_BYTES as u64);
        return Err(MlinkError::CodecError(m));
    }
    proof {
        lemma_byte_ranges();
    }
    let ack: u32 = read_be(b, 0, 4) as u32;
    let bitmap: u128 = read_be(b, 4, 16);
    Ok(AckFrame { ack, bitmap })
}

/// An acknowledgement is read back as it was written.
pub proof fn ack_round_trip(a: AckFrame)
    ensures
        ack_bytes(a).len() == ACK_FRAME_BYTES,
        be_value(ack_bytes(a).subrange(0, 4)) == a.ack,
        be_value(ack_bytes(a).subrange(4, 20)) == a.bitmap,
{
    lemma_byte_ranges();
    lemma_be_round_trip(a.ack as nat, 4);
    lemma_be_round_trip(a.bitmap as nat, 16);
    assert(ack_bytes(a).subrange(0, 4) =~= be_bytes(a.ack as nat, 4));
    assert(ack_bytes(a).subrange(4, 20) =~= be_bytes(a.bitmap as nat, 16));
}

/// An acknowledgement is its number in four bytes and its bits in sixteen, the most significant byte
/// first.
pub proof fn ack_layout(a: AckFrame)
    ensures
        ack_bytes(a) == seq![
            (a.ack / 0x100_0000) as u8,
            (a.ack / 0x1_0000 % 256) as u8,
            (a.ack / 256 % 256) as u8,
            (a.ack % 256) as u8,
        ] + be_bytes(a.bitmap as nat, 16),
        ack_bytes(a)[19] == a.bitmap % 256,
{
    most_significant_byte_comes_first(a.ack as nat, 0, 0, 0, 0);
    ack_round_trip(a);
    last_byte_counts_least(Seq::empty(), 0, a.bitmap as nat, 15);
}

/// Whether `a` is `b` or comes after it, in the order that wraps at 2^32.
pub open spec fn seq_at_or_after(a: u32, b: u32) -> bool {
    seq_distance(a, b) < 0x8000_0000
}

fn seq_geq(a: u32, b: u32) -> (r: bool)
    ensures
        r == seq_at_or_after(a, b),
{
    a.wrapping_sub(b) < 0x8000_0000
}

/// Whether a selective acknowledgement names `s`: bit 0 stands for `base + 1`.
pub open spec fn sack_names(base: u32, bitmap: u128, s: u32) -> bool {
    let d = seq_distance(s, base);
    1 <= d <= SACK_WINDOW && bit_at(bitmap, (d - 1) as nat)
}

/// The entries that a cumulative acknowledgement leaves.
pub open spec fn after_cumulative<T>(entries: Seq<(u32, T)>, ack: u32) -> Seq<(u32, T)> {
    entries.filter(|e: (u32, T)| !seq_at_or_after(ack, e.0))
}

/// The entries that a selective acknowledgement leaves.
pub open spec fn after_selective<T>(entries: Seq<(u32, T)>, base: u32, bitmap: u128) -> Seq<
    (u32, T),
> {
    entries.filter(|e: (u32, T)| !sack_names(base, bitmap, e.0))
}

/// An acknowledgement releases exactly what it names: nothing named stays, everything else
/// does, and saying it again changes nothing.
pub proof fn acknowledgement_is_exact<T>(
    entries: Seq<(u32, T)>,
    ack: u32,
    base: u32,
    bitmap: u128,
)
    ensures
        forall|e: (u32, T)| #[trigger]
            after_cumulative(entries, ack).contains(e) <==> entries.contains(e)
                && !seq_at_or_after(ack, e.0),
        forall|e: (u32, T)| #[trigger]
            after_selective(entries, base, bitmap).contains(e) <==> entries.contains(e)
                && !sack_names(base, bitmap, e.0),
        after_cumulative(after_cumulative(entries, ack), ack) == after_cumulative(entries, ack),
        after_selective(after_selective(entries, base, bitmap), base, bitmap) == after_selective(
            entries,
            base,
            bitmap,
        ),
{
    let cum = |e: (u32, T)| !seq_at_or_after(ack, e.0);
    let sel = |e: (u32, T)| !sack_names(base, bitmap, e.0);
    lemma_filter_exact(entries, cum);
    lemma_filter_exact(entries, sel);
    lemma_filter_all(entries.filter(cum), cum);
    lemma_filter_all(entries.filter(sel), sel);
}

/// Each entry is judged by itself, and those that stay keep their order. A cumulative
/// acknowledgement takes what is at most half of the sequence space behind it, itself included;
/// a selective one takes the number `d` after its base, for `d` from 1 to 128, where bit `d - 1`
/// is set.
pub proof fn entries_are_judged_one_by_one<T>(
    entries: Seq<(u32, T)>,
    e: (u32, T),
    ack: u32,
    bitmap: u128,
)
    ensures
        after_cumulative(Seq::<(u32, T)>::empty(), ack).len() == 0,
        after_selective(Seq::<(u32, T)>::empty(), ack, bitmap).len() == 0,
        after_cumulative(entries.push(e), ack) == if (ack as int - e.0 as int) % 0x1_0000_0000
            < 0x8000_0000 {
            after_cumulative(entries, ack)
        } else {
            after_cumulative(entries, ack).push(e)
        },
        ({
            let d = (e.0 as int - ack as int) % 0x1_0000_0000;
            after_selective(entries.push(e), ack, bitmap) == if 1 <= d <= 128 && (bitmap >> ((d
                - 1) as u128)) & 1 == 1 {
                after_selective(entries, ack, bitmap)
            } else {
                after_selective(entries, ack, bitmap).push(e)
            }
        }),
{
    reveal(Seq::filter);
    assert(entries.push(e).drop_last() =~= entries);
}

proof fn lemma_filter_exact<A>(s: Seq<A>, keep: spec_fn(A) -> bool)
    ensures
        forall|a: A| #[trigger] s.filter(keep).contains(a) <==> s.contains(a) && keep(a),
        forall|i: int| 0 <= i < s.filter(keep).len() ==> keep(#[trigger] s.filter(keep)[i]),
    decreases s.len(),
{
    reveal(Seq::filter);
    if s.len() > 0 {
        let rest = s.drop_last();
        let last = s.last();
        lemma_filter_exact(rest, keep);
        let f = rest.filter(keep);
        assert forall|a: A| #[trigger] s.filter(keep).contains(a) <==> s.contains(a) && keep(
            a,
        ) by {
            assert(s.contains(a) == (rest.contains(a) || a == last)) by {
                if s.contains(a) {
                    let i = s.index_of(a);
                    if i < rest.len() {
                        assert(rest[i] == a);
                    }
                }
                if rest.contains(a) {
                    let i = rest.index_of(a);
                    assert(s[i] == a);
                }
                assert(s[s.len() - 1] == last);
            }
            assert(f.push(last).contains(a) == (f.contains(a) || a == last)) by {
                let g = f.push(last);
                if g.contains(a) {
                    let i = g.index_of(a);
                    if i < f.len() {
                        assert(f[i] == a);
                    }
                }
                if f.contains(a) {
                    let i = f.index_of(a);
                    assert(g[i] == a);
                }
                assert(g[f.len() as int] == last);
            }
        }
    }
}

proof fn lemma_filter_all<A>(s: Seq<A>, keep: spec_fn(A) -> bool)
    requires
        forall|i: int| 0 <= i < s.len() ==> keep(#[trigger] s[i]),
    ensures
        s.filter(keep) == s,
    decreases s.len(),
{
    reveal(Seq::filter);
    if s.len() > 0 {
        let rest = s.drop_last();
        assert forall|i: int| 0 <= i < rest.len() implies keep(#[trigger] rest[i]) by {
            assert(rest[i] == s[i]);
        }
        lemma_filter_all(rest, keep);
        assert(keep(s[s.len() - 1]));
        assert(rest.push(s.last()) =~= s);
    }
}

/// Messages that were sent and are not acknowledged yet, oldest first, at most 256.
pub struct UnackedRing<T: Clone + Send + Sync + 'static> {
    buf: VecDeque<(u32, T)>,
}

impl<T: Clone + Send + Sync + 'static> Default for UnackedRing<T> {
    fn default() -> (r: Self)
        ensures
            r.wf(),
            r@ == Seq::<(u32, T)>::empty(),
    {
        Self::new()
    }
}

impl<T: Clone + Send + Sync + 'static> UnackedRing<T> {
    /// The ring never holds more than its capacity.
    pub closed spec fn wf(&self) -> bool {
        self.buf@.len() <= UNACKED_RING_CAP
    }

    /// At most 256 entries wait, whatever was pushed.
    pub proof fn every_ring_is_bounded(&self)
        requires
            self.wf(),
        ensures
            self@.len() <= UNACKED_RING_CAP,
    {
    }

    /// The entries, oldest first.
    pub closed spec fn view(&self) -> Seq<(u32, T)> {
        self.buf@
    }

    pub fn new() -> (r: Self)
        ensures
            r.wf(),
            r@ == Seq::<(u32, T)>::empty(),
    {
        UnackedRing { buf: VecDeque::new() }
    }

    /// Adds an entry. When the ring is full the oldest entry leaves, and is given back.
    pub fn push(&mut self, seq: u32, item: T) -> (evicted: Option<(u32, T)>)
        requires
            old(self).wf(),
        ensures
            final(self).wf(),
            final(self)@.len() <= UNACKED_RING_CAP,
            if old(self)@.len() < UNACKED_RING_CAP {
                evicted is None && final(self)@ == old(self)@.push((seq, item))
            } else {
                evicted == Some(old(self)@[0]) && final(self)@ == old(self)@.drop_first().push(
                    (seq, item),
                )
            },
    {
        let evicted = if self.buf.len() >= UNACKED_RING_CAP {
            self.buf.pop_front()
        } else {
            None
        };
        self.buf.push_back((seq, item));
        evicted
    }

    /// Cumulative acknowledgement: removes every entry up to and including `ack`.
    pub fn ack_cum(&mut self, ack: u32)
        ensures
            old(self).wf() ==> final(self).wf(),
            final(self)@ == after_cumulative(old(self)@, ack),
    {
        let ghost all = self.buf@;
        let ghost keep = |e: (u32, T)| !seq_at_or_after(ack, e.0);
        let mut kept: VecDeque<(u32, T)> = VecDeque::new();
        let n: usize = self.buf.len();
        let mut i: usize = 0;
        proof {
            reveal(Seq::filter);
            assert(all.skip(0) =~= all);
        }
        while i < n
            invariant
                i <= n == all.len(),
                self.buf@ == all.skip(i as int),
                kept@ == all.take(i as int).filter(keep),
                kept@.len() <= i,
                keep == (|e: (u32, T)| !seq_at_or_after(ack, e.0)),
            decreases n - i,
        {
            proof {
                reveal(Seq::filter);
                assert(all.take(i + 1).drop_last() =~= all.take(i as int));
                assert(all.skip(i as int).subrange(1, (n - i) as int) =~= all.skip(i + 1));
            }
            if let Some(e) = self.buf.pop_front() {
                if !seq_geq(ack, e.0) {
                    kept.push_back(e);
                }
            }
            i = i + 1;
        }
        proof {
            assert(all.take(n as int) =~= all);
        }
        self.buf = kept;
    }

    /// Selective acknowledgement: removes the entries that the bitmap names.
    pub fn sack(&mut self, base: u32, bitmap: u128)
        ensures
            old(self).wf() ==> final(self).wf(),
            final(self)@ == after_selective(old(self)@, base, bitmap),
    {
        let ghost all = self.buf@;
        let ghost keep = |e: (u32, T)| !sack_names(base, bitmap, e.0);
        let mut kept: VecDeque<(u32, T)> = VecDeque::new();
        let n: usize = self.buf.len();
        let mut i: usize = 0;
        proof {
            reveal(Seq::filter);
            assert(all.skip(0) =~= all);
        }
        while i < n
            invariant
                i <= n == all.len(),
                self.buf@ == all.skip(i as int),
                kept@ == all.take(i as int).filter(keep),
                kept@.len() <= i,
                keep == (|e: (u32, T)| !sack_names(base, bitmap, e.0)),
            decreases n - i,
        {
            proof {
                reveal(Seq::filter);
                assert(all.take(i + 1).drop_last() =~= all.take(i as int));
                assert(all.skip(i as int).subrange(1, (n - i) as int) =~= all.skip(i + 1));
            }
            if let Some(e) = self.buf.pop_front() {
                let d: u32 = e.0.wrapping_sub(base);
                assert(d == seq_distance(e.0, base));
                let named = if d == 0 || d > SACK_WINDOW {
                    false
                } else {
                    let bit: u32 = d - 1;
                    (bitmap >> bit) & 1 == 1
                };
                if !named {
                    kept.push_back(e);
                }
            }
            i = i + 1;
        }
        proof {
            assert(all.take(n as int) =~= all);
        }
        self.buf = kept;
    }

    /// Copies of the entries from `since` on; the ring stays as it is.
    pub fn unacked_since(&self, since: u32) -> (r: Vec<(u32, T)>)
        ensures
            r@.len() == self@.filter(|e: (u32, T)| seq_at_or_after(e.0, since)).len(),
            forall|i: int|
                0 <= i < r@.len() ==> {
                    let e = self@.filter(|e: (u32, T)| seq_at_or_after(e.0, since))[i];
                    (#[trigger] r@[i]).0 == e.0 && cloned(e.1, r@[i].1)
                },
    {
        let ghost keep = |e: (u32, T)| seq_at_or_after(e.0, since);
        let mut r: Vec<(u32, T)> = Vec::new();
        let n: usize = self.buf.len();
        let mut i: usize = 0;
        proof {
            reveal(Seq::filter);
        }
        while i < n
            invariant
                i <= n == self.buf@.len(),
                keep == (|e: (u32, T)| seq_at_or_after(e.0, since)),
                r@.len() == self.buf@.take(i as int).filter(keep).len(),
                forall|j: int|
                    0 <= j < r@.len() ==> {
                        let e = self.buf@.take(i as int).filter(keep)[j];
                        (#[trigger] r@[j]).0 == e.0 && cloned(e.1, r@[j].1)
                    },
            decreases n - i,
        {
            proof {
                reveal(Seq::filter);
                assert(self.buf@.take(i + 1).drop_last() =~= self.buf@.take(i as int));
            }
            let e = &self.buf[i];
            if seq_geq(e.0, since) {
                let copy = e.1.clone();
                r.push((e.0, copy));
            }
            i = i + 1;
        }
        proof {
            assert(self.buf@.take(n as int) =~= self.buf@);
        }
        r
    }

    /// The entry at place `i`, the oldest first.
    pub fn entry(&self, i: usize) -> (e: &(u32, T))
        requires
            i < self@.len(),
        ensures
            *e == self@[i as int],
    {
        &self.buf[i]
    }

    pub fn len(&self) -> (n: usize)
        ensures
            n == self@.len(),
    {
        self.buf.len()
    }

    pub fn is_empty(&self) -> (r: bool)
        ensures
            r == (self@.len() == 0),
    {
        self.buf.len() == 0
    }

    pub fn is_full(&self) -> (r: bool)
        ensures
            r == (self@.len() >= UNACKED_RING_CAP),
    {
        self.buf.len() >= UNACKED_RING_CAP
    }
}

} // verus!
