//! When to dial a lost peer again.
//!
//! In the foreground the delays double, up to a minute, for five minutes. After that a peer is
//! tried every two minutes in the background, for half an hour, and then given up.

use std::time::{Duration, Instant};

use vstd::arithmetic::power2::{lemma2_to64, lemma_pow2_strictly_increases, pow2};
use vstd::prelude::*;

use crate::clock::{duration_of_secs, millis_between, millis_until, now, seconds};

verus! {

/// The longest delay in the foreground, in seconds.
pub const FOREGROUND_MAX_DELAY_SECS: u64 = 60;

/// How long the foreground lasts, in milliseconds.
pub const FOREGROUND_DURATION_MS: u64 = 300_000;

/// The delay in the background, in seconds.
pub const BACKGROUND_INTERVAL_SECS: u64 = 120;

/// How long the background lasts, in milliseconds.
pub const BACKGROUND_DURATION_MS: u64 = 1_800_000;

#[derive(Debug, Clone, Copy, PartialEq, Eq, Structural)]
pub enum ReconnectMode {
    Foreground,
    Background,
}

/// Where a series of attempts stands.
#[derive(Debug, Clone)]
pub struct ReconnectState {
    pub mode: ReconnectMode,
    pub attempt: u32,
    pub started_at: Instant,
    pub last_attempt: Option<Instant>,
}

/// Hands out the delays of a series of attempts.
pub struct ReconnectPolicy {
    state: ReconnectState,
    background_started_at: Option<Instant>,
}

/// What a policy is, as far as decisions depend on it.
pub struct PolicyView {
    pub mode: ReconnectMode,
    pub attempt: u32,
    pub started_at: Instant,
    pub last_attempt: Option<Instant>,
    pub background_since: Option<Instant>,
}

/// The delay before attempt `n` in the foreground, in seconds: none, then doubling from one
/// second, at most a minute.
pub open spec fn backoff_secs(n: nat) -> nat {
    if n == 0 {
        0
    } else if pow2((n - 1) as nat) <= FOREGROUND_MAX_DELAY_SECS {
        pow2((n - 1) as nat)
    } else {
        FOREGROUND_MAX_DELAY_SECS as nat
    }
}

/// A policy that starts at `at`.
pub open spec fn fresh_policy(at: Instant) -> PolicyView {
    PolicyView {
        mode: ReconnectMode::Foreground,
        attempt: 0,
        started_at: at,
        last_attempt: None,
        background_since: None,
    }
}

/// The policy at `at`, after `foreground_ms` in the foreground: it moves to the background when
/// the time is up.
pub open spec fn moved_on(p: PolicyView, at: Instant, foreground_ms: u64) -> PolicyView {
    if p.mode is Foreground && foreground_ms >= FOREGROUND_DURATION_MS {
        PolicyView {
            mode: ReconnectMode::Background,
            attempt: 0,
            background_since: Some(at),
            ..p
        }
    } else {
        p
    }
}

/// The next delay, in seconds, after `background_ms` in the background. `None`: give up.
pub open spec fn delay_secs(p: PolicyView, background_ms: u64) -> Option<nat> {
    match p.mode {
        ReconnectMode::Foreground => Some(backoff_secs(p.attempt as nat)),
        ReconnectMode::Background => if background_ms >= BACKGROUND_DURATION_MS {
            None
        } else {
            Some(BACKGROUND_INTERVAL_SECS as nat)
        },
    }
}

/// The policy after a delay was handed out at `at`.
pub open spec fn attempted(p: PolicyView, at: Instant) -> PolicyView {
    PolicyView {
        attempt: if p.attempt < u32::MAX {
            (p.attempt + 1) as u32
        } else {
            u32::MAX
        },
        last_attempt: Some(at),
        ..p
    }
}

/// Whether `r` and `after` are what a policy makes of a request at `at`, when `foreground_ms`
/// have passed since it started and `background_ms` since it moved to the background.
pub open spec fn delay_step(
    before: PolicyView,
    after: PolicyView,
    at: Instant,
    foreground_ms: u64,
    background_ms: u64,
    r: Option<u64>,
) -> bool {
    let p = moved_on(before, at, foreground_ms);
    let waited = if p.mode == before.mode {
        background_ms
    } else {
        0
    };
    match delay_secs(p, waited) {
        Some(secs) => r == Some(secs as u64) && after == attempted(p, at),
        None => r is None && after == p,
    }
}

/// The milliseconds since a policy started, at `at`.
pub open spec fn foreground_age(p: PolicyView, at: Instant) -> u64 {
    millis_between(p.started_at, at)
}

/// The milliseconds since a policy moved to the background, at `at`; 0 where it has not.
pub open spec fn background_age(p: PolicyView, at: Instant) -> u64 {
    match p.background_since {
        Some(t) => millis_between(t, at),
        None => 0,
    }
}

/// Whether `r` and `after` are what a policy makes of a request at `at`.
pub open spec fn delay_given(
    before: PolicyView,
    after: PolicyView,
    at: Instant,
    r: Option<Duration>,
) -> bool {
    exists|secs: Option<u64>|
        #[trigger] delay_step(
            before,
            after,
            at,
            foreground_age(before, at),
            background_age(before, at),
            secs,
        ) && match secs {
            Some(n) => r == Some(duration_of_secs(n)),
            None => r is None,
        }
}

fn backoff(n: u32) -> (secs: u64)
    ensures
        secs == backoff_secs(n as nat),
{
    proof {
        lemma2_to64();
        if n > 7 {
            lemma_pow2_strictly_increases(6, (n - 1) as nat);
        }
    }
    match n {
        0 => 0,
        1 => 1,
        2 => 2,
        3 => 4,
        4 => 8,
        5 => 16,
        6 => 32,
        _ => FOREGROUND_MAX_DELAY_SECS,
    }
}

/// In the foreground no delay is longer than a minute, and none is shorter than the one before.
pub proof fn backoff_grows_to_a_minute(m: nat, n: nat)
    requires
        m <= n,
    ensures
        backoff_secs(m) <= backoff_secs(n) <= FOREGROUND_MAX_DELAY_SECS,
        n >= 7 ==> backoff_secs(n) == FOREGROUND_MAX_DELAY_SECS,
{
    lemma2_to64();
    if n > 7 {
        lemma_pow2_strictly_increases(6, (n - 1) as nat);
    }
    if 0 < m < n {
        lemma_pow2_strictly_increases((m - 1) as nat, (n - 1) as nat);
    }
    if n > 1 {
        lemma_pow2_strictly_increases(0, (n - 1) as nat);
    }
}

/// A policy never goes back from the background, and once it has given up it stays so.
pub proof fn giving_up_is_final(
    p: PolicyView,
    q: PolicyView,
    end: PolicyView,
    at: Instant,
    later: Instant,
    foreground: (u64, u64),
    background: (u64, u64),
    first: Option<u64>,
    second: Option<u64>,
)
    requires
        delay_step(p, q, at, foreground.0, background.0, first),
        delay_step(q, end, later, foreground.1, background.1, second),
        background.0 <= background.1,
    ensures
        q.mode is Background ==> end.mode is Background,
        first is None ==> second is None && end == q,
{
}

/// In the foreground the first attempt comes at once, the second after a second, and each of the
/// following five after twice as long as the one before; from the eighth on it is a minute.
pub proof fn delays_double_up_to_a_minute(n: nat)
    ensures
        backoff_secs(0) == 0,
        backoff_secs(1) == 1,
        1 <= n <= 5 ==> backoff_secs(n + 1) == 2 * backoff_secs(n),
        n >= 7 ==> backoff_secs(n) == 60,
{
    lemma2_to64();
    if n > 7 {
        lemma_pow2_strictly_increases(6, (n - 1) as nat);
    }
}

/// A policy counts its attempts in the foreground for five minutes, and asks for the delays that
/// double. Then it moves to the background and starts counting anew: two minutes each, for half an
/// hour from the move. Then it gives up, and nothing changes any more.
pub proof fn policy_keeps_its_times(
    before: PolicyView,
    after: PolicyView,
    at: Instant,
    foreground_ms: u64,
    background_ms: u64,
    r: Option<u64>,
)
    requires
        delay_step(before, after, at, foreground_ms, background_ms, r),
        before.attempt < u32::MAX,
    ensures
        before.mode is Foreground && foreground_ms < 300_000 ==> {
            &&& r is Some && r->0 == backoff_secs(before.attempt as nat)
            &&& after == (PolicyView {
                attempt: (before.attempt + 1) as u32,
                last_attempt: Some(at),
                ..before
            })
        },
        before.mode is Foreground && foreground_ms >= 300_000 ==> {
            &&& r == Some(120u64)
            &&& after.mode is Background
            &&& after.attempt == 1
            &&& after.background_since == Some(at)
            &&& after.last_attempt == Some(at)
            &&& after.started_at == before.started_at
        },
        before.mode is Background && background_ms < 1_800_000 ==> {
            &&& r == Some(120u64)
            &&& after == (PolicyView {
                attempt: (before.attempt + 1) as u32,
                last_attempt: Some(at),
                ..before
            })
        },
        before.mode is Background && background_ms >= 1_800_000 ==> r is None && after == before,
{
    if before.mode is Foreground {
        backoff_grows_to_a_minute(before.attempt as nat, before.attempt as nat);
    }
}

/// The times of a policy count from its start, and from its move to the background.
pub proof fn delay_is_given_by_the_clock(
    before: PolicyView,
    after: PolicyView,
    at: Instant,
    r: Option<Duration>,
)
    requires
        delay_given(before, after, at, r),
        before.attempt < u32::MAX,
        before.mode is Background ==> before.background_since is Some,
    ensures
        before.mode is Foreground && millis_between(before.started_at, at) < 300_000 ==> r is Some
            && after.mode is Foreground && after.attempt == before.attempt + 1,
        before.mode is Foreground && before.attempt == 0 && millis_between(before.started_at, at)
            < 300_000 ==> r == Some(duration_of_secs(0)),
        before.mode is Foreground && before.attempt >= 7 && millis_between(before.started_at, at)
            < 300_000 ==> r == Some(duration_of_secs(60)),
        before.mode is Foreground && millis_between(before.started_at, at) >= 300_000 ==> r == Some(
            duration_of_secs(120),
        ) && after.mode is Background && after.background_since == Some(at),
        before.mode is Background && millis_between(before.background_since->0, at) < 1_800_000
            ==> r == Some(duration_of_secs(120)) && after.attempt == before.attempt + 1,
        before.mode is Background && millis_between(before.background_since->0, at) >= 1_800_000
            ==> r is None && after == before,
{
    let secs = choose|secs: Option<u64>|
        #[trigger] delay_step(
            before,
            after,
            at,
            foreground_age(before, at),
            background_age(before, at),
            secs,
        ) && match secs {
            Some(n) => r == Some(duration_of_secs(n)),
            None => r is None,
        };
    policy_keeps_its_times(
        before,
        after,
        at,
        foreground_age(before, at),
        background_age(before, at),
        secs,
    );
    delays_double_up_to_a_minute(before.attempt as nat);
}

/// A policy starts in the foreground, with no attempt made.
pub proof fn policy_starts_in_the_foreground(at: Instant)
    ensures
        fresh_policy(at).mode is Foreground,
        fresh_policy(at).attempt == 0,
        fresh_policy(at).started_at == at,
        fresh_policy(at).last_attempt is None,
        fresh_policy(at).background_since is None,
{
}

impl ReconnectPolicy {
    pub closed spec fn view(&self) -> PolicyView {
        PolicyView {
            mode: self.state.mode,
            attempt: self.state.attempt,
            started_at: self.state.started_at,
            last_attempt: self.state.last_attempt,
            background_since: self.background_started_at,
        }
    }

    /// A policy that starts at `at`.
    pub fn new_at(at: Instant) -> (p: Self)
        ensures
            p@ == fresh_policy(at),
    {
        ReconnectPolicy {
            state: ReconnectState {
                mode: ReconnectMode::Foreground,
                attempt: 0,
                started_at: at,
                last_attempt: None,
            },
            background_started_at: None,
        }
    }

    /// A policy that starts now.
    pub fn new() -> (p: Self)
        ensures
            exists|at: Instant| p@ == #[trigger] fresh_policy(at),
    {
        let at = now();
        ReconnectPolicy::new_at(at)
    }

    /// The next delay at `at`, in seconds, when `foreground_ms` have passed since the start and
    /// `background_ms` since the move to the background.
    pub fn next_delay_at(&mut self, at: Instant, foreground_ms: u64, background_ms: u64) -> (r:
        Option<u64>)
        ensures
            delay_step(old(self)@, final(self)@, at, foreground_ms, background_ms, r),
    {
        let mut waited: u64 = background_ms;
        if self.state.mode == ReconnectMode::Foreground && foreground_ms >= FOREGROUND_DURATION_MS {
            self.state.mode = ReconnectMode::Background;
            self.state.attempt = 0;
            self.background_started_at = Some(at);
            waited = 0;
        }
        let delay: Option<u64> = match self.state.mode {
            ReconnectMode::Foreground => Some(backoff(self.state.attempt)),
            ReconnectMode::Background => if waited >= BACKGROUND_DURATION_MS {
                None
            } else {
                Some(BACKGROUND_INTERVAL_SECS)
            },
        };
        if delay.is_some() {
            self.state.attempt = self.state.attempt.saturating_add(1);
            self.state.last_attempt = Some(at);
        }
        delay
    }

    /// How long to wait before the next attempt. `None`: give up.
    pub fn next_delay(&mut self) -> (r: Option<Duration>)
        ensures
            exists|at: Instant| #[trigger] delay_given(old(self)@, final(self)@, at, r),
    {
        let at = now();
        let foreground_ms: u64 = millis_until(&self.state.started_at, &at);
        let background_ms: u64 = match &self.background_started_at {
            Some(t) => millis_until(t, &at),
            None => 0,
        };
        let secs = self.next_delay_at(at, foreground_ms, background_ms);
        assert(delay_step(
            old(self)@,
            self@,
            at,
            foreground_age(old(self)@, at),
            background_age(old(self)@, at),
            secs,
        ));
        let r = match secs {
            Some(n) => Some(seconds(n)),
            None => None,
        };
        assert(delay_given(old(self)@, self@, at, r));
        r
    }

    /// Starts over.
    pub fn reset(&mut self)
        ensures
            exists|at: Instant| final(self)@ == #[trigger] fresh_policy(at),
    {
        *self = ReconnectPolicy::new();
    }

    pub fn mode(&self) -> (m: ReconnectMode)
        ensures
            m == self@.mode,
    {
        self.state.mode
    }

    pub fn attempt(&self) -> (n: u32)
        ensures
            n == self@.attempt,
    {
        self.state.attempt
    }
}

impl Default for ReconnectPolicy {
    fn default() -> (p: Self)
        ensures
            exists|at: Instant| p@ == #[trigger] fresh_policy(at),
    {
        Self::new()
    }
}

/// How much of a stream has arrived.
#[derive(Debug, Clone)]
pub struct StreamProgress {
    pub stream_id: u16,
    pub received_bitmap: Vec<u8>,
    pub total_chunks: u32,
}

/// The streams that a lost connection has cut off, one record for each.
pub struct ReconnectManager {
    pending_streams: Vec<StreamProgress>,
}

/// No two records are of the same stream.
pub open spec fn distinct_streams(s: Seq<StreamProgress>) -> bool {
    forall|i: int, j: int|
        0 <= i < s.len() && 0 <= j < s.len() && (#[trigger] s[i]).stream_id == (
        #[trigger] s[j]).stream_id ==> i == j
}

/// Whether the records of `s` are those of `m`.
pub open spec fn holds_progress(s: Seq<StreamProgress>, m: Map<u16, StreamProgress>) -> bool {
    &&& distinct_streams(s)
    &&& forall|i: int|
        0 <= i < s.len() ==> m.dom().contains((#[trigger] s[i]).stream_id) && m[s[i].stream_id]
            == s[i]
    &&& forall|id: u16| #[trigger]
        m.dom().contains(id) ==> exists|i: int| 0 <= i < s.len() && (#[trigger] s[i]).stream_id == id
}

/// Every stream that was cut off is among those to be resumed, once, with its latest progress, and
/// no other stream is.
pub proof fn every_stream_is_resumed(s: Seq<StreamProgress>, m: Map<u16, StreamProgress>, id: u16)
    requires
        holds_progress(s, m),
    ensures
        m.dom().contains(id) ==> s.contains(m[id]) && m[id].stream_id == id,
        forall|i: int|
            0 <= i < s.len() ==> m.dom().contains((#[trigger] s[i]).stream_id)
                && m[s[i].stream_id] == s[i],
        forall|i: int, j: int|
            0 <= i < j < s.len() ==> (#[trigger] s[i]).stream_id != (#[trigger] s[j]).stream_id,
{
    if m.dom().contains(id) {
        let i = choose|i: int| 0 <= i < s.len() && (#[trigger] s[i]).stream_id == id;
        assert(s[i] == m[id]);
    }
}

/// The record of stream `id`.
pub open spec fn progress_of(s: Seq<StreamProgress>, id: u16) -> int {
    choose|i: int| 0 <= i < s.len() && (#[trigger] s[i]).stream_id == id
}

impl View for ReconnectManager {
    type V = Map<u16, StreamProgress>;

    closed spec fn view(&self) -> Map<u16, StreamProgress> {
        Map::new(
            |id: u16|
                exists|i: int|
                    0 <= i < self.pending_streams@.len() && (
                    #[trigger] self.pending_streams@[i]).stream_id == id,
            |id: u16| self.pending_streams@[progress_of(self.pending_streams@, id)],
        )
    }
}

impl ReconnectManager {
    /// There is one record for each stream.
    pub closed spec fn wf(&self) -> bool {
        distinct_streams(self.pending_streams@)
    }

    pub fn new() -> (m: Self)
        ensures
            m.wf(),
            m@ == Map::<u16, StreamProgress>::empty(),
    {
        let m = ReconnectManager { pending_streams: Vec::new() };
        assert(m@ =~= Map::<u16, StreamProgress>::empty());
        m
    }

    proof fn lemma_record(&self, i: int)
        requires
            self.wf(),
            0 <= i < self.pending_streams@.len(),
        ensures
            self@.dom().contains(self.pending_streams@[i].stream_id),
            self@[self.pending_streams@[i].stream_id] == self.pending_streams@[i],
            progress_of(self.pending_streams@, self.pending_streams@[i].stream_id) == i,
    {
        let s = self.pending_streams@;
        let j = progress_of(s, s[i].stream_id);
        assert(0 <= j < s.len() && s[j].stream_id == s[i].stream_id);
    }

    /// Keeps the latest progress of a stream.
    pub fn record_stream_progress(&mut self, progress: StreamProgress)
        requires
            old(self).wf(),
        ensures
            final(self).wf(),
            final(self)@ == old(self)@.insert(progress.stream_id, progress),
    {
        let ghost before = *self;
        let mut i: usize = 0;
        while i < self.pending_streams.len()
            invariant
                i <= self.pending_streams@.len(),
                *self == before,
                forall|j: int|
                    0 <= j < i ==> (#[trigger] self.pending_streams@[j]).stream_id
                        != progress.stream_id,
            ensures
                i < self.pending_streams@.len() ==> self.pending_streams@[i as int].stream_id
                    == progress.stream_id,
            decreases self.pending_streams@.len() - i,
        {
            if self.pending_streams[i].stream_id == progress.stream_id {
                break;
            }
            i = i + 1;
        }
        if i < self.pending_streams.len() {
            self.pending_streams.set(i, progress);
        } else {
            self.pending_streams.push(progress);
        }
        proof {
            let s = before.pending_streams@;
            let t = self.pending_streams@;
            let want = before@.insert(progress.stream_id, progress);
            assert(t[i as int] == progress);
            assert forall|j: int| 0 <= j < t.len() && j != i implies (
            #[trigger] t[j]) == s[j] by {}
            assert forall|a: int, b: int|
                0 <= a < t.len() && 0 <= b < t.len() && (#[trigger] t[a]).stream_id == (
                #[trigger] t[b]).stream_id implies a == b by {
                if a != i && b != i {
                    assert(s[a].stream_id == s[b].stream_id);
                } else if a == i && b != i {
                    assert(t[b] == s[b]);
                    if i < s.len() {
                        assert(s[i as int].stream_id == s[b].stream_id);
                    }
                } else if b == i && a != i {
                    assert(t[a] == s[a]);
                    if i < s.len() {
                        assert(s[i as int].stream_id == s[a].stream_id);
                    }
                }
            }
            assert forall|id: u16| self@.dom().contains(id) == want.dom().contains(id) by {
                if before@.dom().contains(id) {
                    let j = progress_of(s, id);
                    if j != i {
                        assert(t[j].stream_id == id);
                    } else {
                        assert(s[i as int].stream_id == t[i as int].stream_id);
                    }
                }
                if self@.dom().contains(id) {
                    let j = progress_of(t, id);
                    if j != i {
                        assert(s[j].stream_id == id);
                    }
                }
            }
            assert forall|id: u16| self@.dom().contains(id) implies self@[id] == want[id] by {
                let j = progress_of(t, id);
                self.lemma_record(j);
                if j != i {
                    before.lemma_record(j);
                }
            }
            assert(self@ =~= want);
        }
    }

    /// Takes all records out, each once.
    pub fn take_resume_streams(&mut self) -> (r: Vec<StreamProgress>)
        requires
            old(self).wf(),
        ensures
            final(self).wf(),
            final(self)@ == Map::<u16, StreamProgress>::empty(),
            holds_progress(r@, old(self)@),
    {
        proof {
            let s = self.pending_streams@;
            assert forall|i: int| 0 <= i < s.len() implies self@.dom().contains(
                (#[trigger] s[i]).stream_id,
            ) && self@[s[i].stream_id] == s[i] by {
                self.lemma_record(i);
            }
        }
        let mut r: Vec<StreamProgress> = Vec::new();
        std::mem::swap(&mut r, &mut self.pending_streams);
        assert(self@ =~= Map::<u16, StreamProgress>::empty());
        r
    }

    pub fn clear(&mut self)
        ensures
            final(self).wf(),
            final(self)@ == Map::<u16, StreamProgress>::empty(),
    {
        self.pending_streams.clear();
        assert(self@ =~= Map::<u16, StreamProgress>::empty());
    }
}

impl Default for ReconnectManager {
    fn default() -> (m: Self)
        ensures
            m.wf(),
            m@ == Map::<u16, StreamProgress>::empty(),
    {
        Self::new()
    }
}

} // verus!
