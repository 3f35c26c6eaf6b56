//! Session sequence numbers: a generator, and a window that recognises duplicates.
//!
//! These 32 bit numbers belong to a session, which may run over several links. They are
//! unrelated to the 16 bit `seq` of a frame header.

use vstd::prelude::*;

verus! {

/// The distance from `b` forward to `a`, modulo 2^32.
pub open spec fn seq_distance(a: u32, b: u32) -> nat {
    ((a as int - b as int) % 0x1_0000_0000) as nat
}

/// Hands out sequence numbers one after the other, from 0; after `u32::MAX` comes 0.
pub struct SeqGen {
    /// The number that the next call of `next` gives.
    pub next: u32,
}

impl SeqGen {
    pub fn new() -> (g: Self)
        ensures
            g.next == 0,
    {
        SeqGen { next: 0 }
    }

    /// Gives the next number.
    pub fn next(&mut self) -> (v: u32)
        ensures
            v == old(self).next,
            final(self).next == (v + 1) % 0x1_0000_0000,
    {
        let v: u32 = self.next;
        self.next = self.next.wrapping_add(1);
        v
    }
}

impl Default for SeqGen {
    fn default() -> (g: Self)
        ensures
            g.next == 0,
    {
        SeqGen::new()
    }
}

/// What the window makes of a sequence number.
#[derive(Debug, Clone, Copy, PartialEq, Eq, Structural)]
pub enum Observation {
    /// New; it is recorded.
    Accept,
    /// Already seen.
    Duplicate,
    /// Too old to tell; it is to be dropped and not acknowledged.
    Stale,
}

/// How many sequence numbers the window covers.
pub const DEDUP_WIDTH: u32 = 128;

/// Half of the sequence space: a number less than this far ahead counts as newer.
pub const SEQ_HALF: u32 = 0x8000_0000;

/// What a window knows.
pub struct WindowView {
    /// The newest number seen; `None` before the first one.
    pub last: Option<u32>,
    /// The numbers in the window that have been seen.
    pub marks: Set<u32>,
}

/// Whether `s` lies in the window that ends at `last`.
pub open spec fn in_window(last: u32, s: u32) -> bool {
    seq_distance(last, s) < DEDUP_WIDTH
}

/// What observing `s` gives.
pub open spec fn observation(w: WindowView, s: u32) -> Observation {
    match w.last {
        None => Observation::Accept,
        Some(last) => if 0 < seq_distance(s, last) < SEQ_HALF {
            Observation::Accept
        } else if !in_window(last, s) {
            Observation::Stale
        } else if w.marks.contains(s) {
            Observation::Duplicate
        } else {
            Observation::Accept
        },
    }
}

/// The window after observing `s`: an accepted number is marked, a newer one moves the window
/// on and drops the marks that fall out of it; otherwise nothing changes.
pub open spec fn observed(w: WindowView, s: u32) -> WindowView {
    if observation(w, s) is Accept {
        match w.last {
            None => WindowView { last: Some(s), marks: set![s] },
            Some(last) => if 0 < seq_distance(s, last) < SEQ_HALF {
                WindowView {
                    last: Some(s),
                    marks: w.marks.filter(|m: u32| in_window(s, m)).insert(s),
                }
            } else {
                WindowView { last: Some(last), marks: w.marks.insert(s) }
            },
        }
    } else {
        w
    }
}

/// What holds of every window: the newest number is marked, and marks lie in the window.
pub open spec fn window_ok(w: WindowView) -> bool {
    match w.last {
        None => w.marks == Set::<u32>::empty(),
        Some(last) => w.marks.contains(last) && (forall|s: u32| #[trigger]
            w.marks.contains(s) ==> in_window(last, s)),
    }
}

/// Whatever is observed, the window stays as it should be.
pub proof fn window_stays_ok(w: WindowView, s: u32)
    requires
        window_ok(w),
    ensures
        window_ok(observed(w, s)),
{
}

/// A number that is not stale counts as a duplicate as soon as it has been observed.
pub proof fn observed_number_is_duplicate(w: WindowView, s: u32)
    requires
        window_ok(w),
    ensures
        observation(w, s) !is Stale ==> observation(observed(w, s), s) is Duplicate,
{
}

/// A window marks nothing before the first number has come; then it marks the newest one, and
/// others less than 128 behind it.
pub proof fn window_holds_the_last_128(w: WindowView)
    requires
        window_ok(w),
    ensures
        w.last is None ==> w.marks == Set::<u32>::empty(),
        w.last matches Some(last) ==> w.marks.contains(last) && forall|n: u32| #[trigger]
            w.marks.contains(n) ==> (last as int - n as int) % 0x1_0000_0000 < 128,
{
}

/// A number that was not seen is accepted and marked, whether it is newer than the newest one by
/// less than half of the sequence space, or older by less than 128: numbers may come in any order.
/// It becomes the newest only if it is newer, and what was marked stays marked as long as it is
/// less than 128 behind the newest.
pub proof fn unseen_number_is_accepted(w: WindowView, s: u32, m: u32)
    requires
        w.last is None ==> w.marks == Set::<u32>::empty(),
        w.last matches Some(last) ==> forall|n: u32| #[trigger]
            w.marks.contains(n) ==> (last as int - n as int) % 0x1_0000_0000 < 128,
        !w.marks.contains(s),
        w.last matches Some(last) ==> (s as int - last as int) % 0x1_0000_0000 < 0x8000_0000 || (
        last as int - s as int) % 0x1_0000_0000 < 128,
    ensures
        observation(w, s) is Accept,
        observed(w, s).marks.contains(s),
        match w.last {
            None => observed(w, s).last == Some(s),
            Some(last) => observed(w, s).last == if (s as int - last as int) % 0x1_0000_0000
                < 0x8000_0000 {
                Some(s)
            } else {
                Some(last)
            },
        },
        m != s ==> (observed(w, s).marks.contains(m) <==> w.marks.contains(m) && (
        observed(w, s).last->0 as int - m as int) % 0x1_0000_0000 < 128),
{
}

/// A number that was seen less than 128 behind the newest is a duplicate, one that is further
/// behind, by up to half of the sequence space, is stale; neither changes anything.
pub proof fn seen_or_old_number_is_refused(w: WindowView, last: u32, s: u32)
    requires
        w.last == Some(last),
    ensures
        (last as int - s as int) % 0x1_0000_0000 < 128 && w.marks.contains(s) ==> observation(w, s)
            is Duplicate && observed(w, s) == w,
        128 <= (last as int - s as int) % 0x1_0000_0000 <= 0x8000_0000 ==> observation(w, s)
            is Stale && observed(w, s) == w,
{
}

/// Whether a window will not accept `s`: it is marked, or the window has moved past it by no
/// more than half of the sequence space.
pub open spec fn counts_as_seen(w: WindowView, s: u32) -> bool {
    w.last matches Some(last) && seq_distance(last, s) <= SEQ_HALF && (in_window(last, s)
        ==> w.marks.contains(s))
}

/// The window after observing all of `ts`, in order.
pub open spec fn observed_all(w: WindowView, ts: Seq<u32>) -> WindowView
    decreases ts.len(),
{
    if ts.len() == 0 {
        w
    } else {
        observed(observed_all(w, ts.drop_last()), ts.last())
    }
}

/// One observation does not make a window forget a number, as long as the window does not move
/// more than half of the sequence space past it.
pub proof fn seen_number_stays_seen(w: WindowView, s: u32, t: u32)
    requires
        counts_as_seen(w, s),
        seq_distance(observed(w, t).last->0, s) <= SEQ_HALF,
    ensures
        counts_as_seen(observed(w, t), s),
        observation(w, s) !is Accept,
{
    let last = w.last->0;
    if 0 < seq_distance(t, last) < SEQ_HALF {
        assert(seq_distance(t, s) == seq_distance(t, last) + seq_distance(last, s));
    }
}

/// A number that has been accepted is never accepted again, whatever numbers `ts` are observed
/// in between, as long as the window has not moved more than half of the sequence space past
/// it.
pub proof fn seen_number_is_not_accepted_again(w: WindowView, s: u32, ts: Seq<u32>)
    requires
        window_ok(w),
        w.marks.contains(s),
        forall|k: int|
            0 <= k <= ts.len() ==> seq_distance(
                (#[trigger] observed_all(w, ts.take(k))).last->0,
                s,
            ) <= SEQ_HALF,
    ensures
        counts_as_seen(observed_all(w, ts), s),
        observation(observed_all(w, ts), s) !is Accept,
    decreases ts.len(),
{
    assert(ts.take(ts.len() as int) =~= ts);
    if ts.len() > 0 {
        let before = ts.drop_last();
        assert forall|k: int| 0 <= k <= before.len() implies seq_distance(
            (#[trigger] observed_all(w, before.take(k))).last->0,
            s,
        ) <= SEQ_HALF by {
            assert(before.take(k) =~= ts.take(k));
        }
        seen_number_is_not_accepted_again(w, s, before);
        assert(ts.take(before.len() as int) =~= before);
        seen_number_stays_seen(observed_all(w, before), s, ts.last());
    }
    let end = observed_all(w, ts);
    seen_number_stays_seen(end, s, s);
}

/// Whether bit `i` of `bits` is set.
pub open spec fn bit_at(bits: u128, i: nat) -> bool {
    (bits >> (i as u128)) & 1 == 1
}

/// Remembers which of the last 128 sequence numbers have been seen.
///
/// Bit `i` of `bits` stands for the number `i` before `last`.
pub struct DedupWindow {
    last: u32,
    bits: u128,
    seen: bool,
}

proof fn lemma_shift_in(bits: u128, f: u128, i: u128)
    by (bit_vector)
    requires
        0 < f < 128,
        i < 128,
    ensures
        (((bits << f) | 1) >> i) & 1 == (if i == 0 { 1u128 } else if i < f {
            0u128
        } else {
            (bits >> ((i - f) as u128)) & 1
        }),
{
}

proof fn lemma_set_bit(bits: u128, b: u128, i: u128)
    by (bit_vector)
    requires
        b < 128,
        i < 128,
    ensures
        ((bits | (1u128 << b)) >> i) & 1 == (if i == b { 1u128 } else { (bits >> i) & 1 }),
        (bits & (1u128 << b) != 0) <==> (bits >> b) & 1 == 1,
{
}

proof fn lemma_one_bit(i: u128)
    by (bit_vector)
    requires
        i < 128,
    ensures
        (1u128 >> i) & 1 == (if i == 0 { 1u128 } else { 0u128 }),
{
}

/// The numbers that `bits` marks in the window that ends at `last`.
pub open spec fn marks_of(last: u32, bits: u128) -> Set<u32> {
    Set::new(|s: u32| in_window(last, s) && bit_at(bits, seq_distance(last, s)))
}

/// A window of one mark.
proof fn lemma_first_mark(last: u32)
    ensures
        marks_of(last, 1) == set![last],
        bit_at(1, 0),
{
    lemma_one_bit(0);
    assert forall|s: u32| marks_of(last, 1).contains(s) <==> s == last by {
        if in_window(last, s) {
            lemma_one_bit(seq_distance(last, s) as u128);
        }
    }
    assert(marks_of(last, 1) =~= set![last]);
}

/// The marks after the window has moved on to `s`.
proof fn lemma_move_on(last: u32, bits: u128, s: u32)
    requires
        0 < seq_distance(s, last) < SEQ_HALF,
    ensures
        ({
            let f = seq_distance(s, last);
            let after = if f >= DEDUP_WIDTH { 1 } else { (bits << (f as u32)) | 1 };
            &&& bit_at(after, 0)
            &&& marks_of(s, after) == marks_of(last, bits).filter(
                |m: u32| in_window(s, m),
            ).insert(s)
        }),
{
    let f = seq_distance(s, last);
    let after = if f >= DEDUP_WIDTH { 1 } else { (bits << (f as u32)) | 1 };
    let want = marks_of(last, bits).filter(|m: u32| in_window(s, m)).insert(s);
    lemma_one_bit(0);
    if f < DEDUP_WIDTH {
        lemma_shift_in(bits, f as u128, 0);
    }
    assert forall|m: u32| marks_of(s, after).contains(m) <==> want.contains(m) by {
        if in_window(s, m) {
            let i = seq_distance(s, m);
            lemma_one_bit(i as u128);
            if f < DEDUP_WIDTH {
                lemma_shift_in(bits, f as u128, i as u128);
                if i >= f {
                    assert(seq_distance(last, m) == i - f);
                } else {
                    assert(!in_window(last, m));
                }
            } else {
                assert(!in_window(last, m));
            }
        }
    }
    assert(marks_of(s, after) =~= want);
}

/// The marks after `s`, inside the window, has been marked.
proof fn lemma_mark(last: u32, bits: u128, s: u32)
    requires
        in_window(last, s),
    ensures
        ({
            let b = seq_distance(last, s) as u32;
            &&& (bits & (1u128 << b) != 0) <==> marks_of(last, bits).contains(s)
            &&& marks_of(last, bits | (1u128 << b)) == marks_of(last, bits).insert(s)
            &&& bit_at(bits, 0) ==> bit_at(bits | (1u128 << b), 0)
        }),
{
    let b = seq_distance(last, s) as u32;
    let after = bits | (1u128 << b);
    let want = marks_of(last, bits).insert(s);
    lemma_set_bit(bits, b as u128, b as u128);
    lemma_set_bit(bits, b as u128, 0);
    assert forall|m: u32| marks_of(last, after).contains(m) <==> want.contains(m) by {
        if in_window(last, m) {
            let i = seq_distance(last, m);
            lemma_set_bit(bits, b as u128, i as u128);
            if i == b {
                assert(m == s);
            }
        }
    }
    assert(marks_of(last, after) =~= want);
}

impl DedupWindow {
    /// Once something has been seen, the newest number is marked.
    pub closed spec fn wf(&self) -> bool {
        self.seen ==> bit_at(self.bits, 0)
    }

    pub closed spec fn view(&self) -> WindowView {
        if self.seen {
            WindowView { last: Some(self.last), marks: marks_of(self.last, self.bits) }
        } else {
            WindowView { last: None, marks: Set::empty() }
        }
    }

    /// The invariant that the laws on windows ask for.
    pub proof fn every_window_is_ok(&self)
        requires
            self.wf(),
        ensures
            window_ok(self@),
    {
    }

    pub fn new() -> (w: Self)
        ensures
            w.wf(),
            w@ == (WindowView { last: None, marks: Set::empty() }),
    {
        DedupWindow { last: 0, bits: 0, seen: false }
    }

    /// Observes `seq`, and records it if it is new.
    #[verifier::spinoff_prover]
    pub fn observe(&mut self, seq: u32) -> (r: Observation)
        requires
            old(self).wf(),
        ensures
            final(self).wf(),
            r == observation(old(self)@, seq),
            final(self)@ == observed(old(self)@, seq),
    {
        if !self.seen {
            self.last = seq;
            self.bits = 1;
            self.seen = true;
            proof {
                lemma_first_mark(seq);
            }
            return Observation::Accept;
        }
        let forward: u32 = seq.wrapping_sub(self.last);
        assert(forward == seq_distance(seq, self.last));
        if forward != 0 && forward < SEQ_HALF {
            proof {
                lemma_move_on(self.last, self.bits, seq);
            }
            if forward >= DEDUP_WIDTH {
                self.bits = 1;
            } else {
                self.bits = (self.bits << forward) | 1;
            }
            self.last = seq;
            return Observation::Accept;
        }
        if forward == 0 {
            return Observation::Duplicate;
        }
        let back: u32 = self.last.wrapping_sub(seq);
        assert(back == seq_distance(self.last, seq));
        if back >= DEDUP_WIDTH {
            return Observation::Stale;
        }
        let mask: u128 = 1u128 << back;
        proof {
            lemma_mark(self.last, self.bits, seq);
        }
        if self.bits & mask != 0 {
            Observation::Duplicate
        } else {
            self.bits = self.bits | mask;
            Observation::Accept
        }
    }

    /// The newest number that was seen.
    pub fn newest(&self) -> (r: Option<u32>)
        ensures
            r == self@.last,
    {
        if self.seen {
            Some(self.last)
        } else {
            None
        }
    }

    /// The newest number and the marks: bit `i` stands for the number `i` before it. An empty
    /// window gives `(0, 0)`.
    pub fn snapshot(&self) -> (r: (u32, u128))
        requires
            self.wf(),
        ensures
            match self@.last {
                None => r == (0u32, 0u128),
                Some(last) => {
                    &&& r.0 == last
                    &&& bit_at(r.1, 0)
                    &&& forall|s: u32|
                        in_window(last, s) ==> (bit_at(r.1, #[trigger] seq_distance(last, s))
                            <==> self@.marks.contains(s))
                },
            },
    {
        if !self.seen {
            (0, 0)
        } else {
            (self.last, self.bits)
        }
    }
}

impl Default for DedupWindow {
    fn default() -> (w: Self)
        ensures
            w.wf(),
            w@ == (WindowView { last: None, marks: Set::empty() }),
    {
        DedupWindow::new()
    }
}

} // verus!
