//! One physical connection to a peer, and how well it is doing.

use std::sync::Arc;
use std::time::Instant;

use vstd::prelude::*;

use crate::clock::{elapsed_reading, millis_since, now};
use crate::text::str_eq;
use crate::transport::TransportCapabilities;

verus! {

/// The kind of transport that a link runs over.
#[derive(Debug, Clone, Copy, PartialEq, Eq, Hash, Structural)]
pub enum TransportKind {
    Ble,
    Tcp,
    Ipc,
    Mock,
}

/// The name of a transport kind.
pub open spec fn wire_name(k: TransportKind) -> Seq<char> {
    match k {
        TransportKind::Ble => "ble"@,
        TransportKind::Tcp => "tcp"@,
        TransportKind::Ipc => "ipc"@,
        TransportKind::Mock => "mock"@,
    }
}

/// The transport kind of a name.
pub open spec fn kind_of_wire(name: Seq<char>) -> Option<TransportKind> {
    if exists|k: TransportKind| #[trigger] wire_name(k) == name {
        Some(choose|k: TransportKind| #[trigger] wire_name(k) == name)
    } else {
        None
    }
}

/// A transport kind is found again by its name.
pub proof fn transport_kind_round_trip(k: TransportKind)
    ensures
        kind_of_wire(wire_name(k)) == Some(k),
{
    reveal_strlit("ble");
    reveal_strlit("tcp");
    reveal_strlit("ipc");
    reveal_strlit("mock");
    assert("ble"@[0] == 'b' && "tcp"@[0] == 't' && "ipc"@[0] == 'i' && "mock"@[0] == 'm');
    assert forall|j: TransportKind| #[trigger] wire_name(j) == wire_name(k) implies j == k by {
        assert(wire_name(j)[0] == wire_name(k)[0]);
    }
}

/// What the kinds of transport are called on the wire, and to people.
pub proof fn names_of_the_kinds()
    ensures
        wire_name(TransportKind::Ble) == "ble"@,
        wire_name(TransportKind::Tcp) == "tcp"@,
        wire_name(TransportKind::Ipc) == "ipc"@,
        wire_name(TransportKind::Mock) == "mock"@,
        kind_name(TransportKind::Ble) == "Ble"@,
        kind_name(TransportKind::Tcp) == "Tcp"@,
        kind_name(TransportKind::Ipc) == "Ipc"@,
        kind_name(TransportKind::Mock) == "Mock"@,
        forall|name: Seq<char>|
            #[trigger] kind_of_wire(name) is Some ==> wire_name(kind_of_wire(name)->0) == name,
{
}

impl TransportKind {
    pub fn as_wire(self) -> (s: &'static str)
        ensures
            s@ == wire_name(self),
    {
        match self {
            TransportKind::Ble => "ble",
            TransportKind::Tcp => "tcp",
            TransportKind::Ipc => "ipc",
            TransportKind::Mock => "mock",
        }
    }

    pub fn from_wire(s: &str) -> (r: Option<Self>)
        ensures
            r == kind_of_wire(s@),
    {
        proof {
            transport_kind_round_trip(TransportKind::Ble);
            transport_kind_round_trip(TransportKind::Tcp);
            transport_kind_round_trip(TransportKind::Ipc);
            transport_kind_round_trip(TransportKind::Mock);
        }
        if str_eq(s, "ble") {
            Some(TransportKind::Ble)
        } else if str_eq(s, "tcp") {
            Some(TransportKind::Tcp)
        } else if str_eq(s, "ipc") {
            Some(TransportKind::Ipc)
        } else if str_eq(s, "mock") {
            Some(TransportKind::Mock)
        } else {
            None
        }
    }

    /// The name of this kind, as `Debug` writes it.
    pub fn name(self) -> (s: &'static str)
        ensures
            s@ == kind_name(self),
    {
        match self {
            TransportKind::Ble => "Ble",
            TransportKind::Tcp => "Tcp",
            TransportKind::Ipc => "Ipc",
            TransportKind::Mock => "Mock",
        }
    }
}

/// The name of a transport kind, as `Debug` writes it.
pub open spec fn kind_name(k: TransportKind) -> Seq<char> {
    match k {
        TransportKind::Ble => "Ble"@,
        TransportKind::Tcp => "Tcp"@,
        TransportKind::Ipc => "Ipc"@,
        TransportKind::Mock => "Mock"@,
    }
}

/// How well a link is doing.
#[derive(Debug, Clone, Copy)]
pub struct LinkHealth {
    /// The moving average of round trip times; 0 before the first sample.
    pub rtt_ema_us: u32,
    /// The moving average of failures, in thousandths.
    pub err_rate_milli: u16,
    /// When the link last worked, in milliseconds since it was made.
    pub last_ok_at_ms: u64,
    /// How many messages are on their way.
    pub inflight: u16,
}

impl Default for LinkHealth {
    fn default() -> (h: Self)
        ensures
            h == fresh_health(),
    {
        LinkHealth { rtt_ema_us: 0, err_rate_milli: 0, last_ok_at_ms: 0, inflight: 0 }
    }
}

/// The health of a new link.
pub open spec fn fresh_health() -> LinkHealth {
    LinkHealth { rtt_ema_us: 0, err_rate_milli: 0, last_ok_at_ms: 0, inflight: 0 }
}

/// A link that has seen round trips counts as dead after this long without one.
pub const LINK_STALE_MS: u64 = 5_000;

/// A link with at least this failure rate counts as dead.
pub const LINK_UNHEALTHY_ERR_MILLI: u16 = 500;

/// A moving average that gives a new sample one eighth of the weight, rounded down.
pub open spec fn ema(prev: nat, sample: nat) -> nat {
    (7 * prev + sample) / 8
}

/// The average round trip time after one more sample; the first sample counts in full.
pub open spec fn rtt_after(prev: u32, sample: u32) -> u32 {
    if prev == 0 {
        sample
    } else {
        ema(prev as nat, sample as nat) as u32
    }
}

/// The failure rate after one more attempt, at most 1000.
pub open spec fn err_after(prev: u16, sample: u16) -> u16 {
    if ema(prev as nat, sample as nat) > 1000 {
        1000
    } else {
        ema(prev as nat, sample as nat) as u16
    }
}

/// The health after a success at `now_ms`.
pub open spec fn after_success(h: LinkHealth, now_ms: u64) -> LinkHealth {
    LinkHealth { err_rate_milli: err_after(h.err_rate_milli, 0), last_ok_at_ms: now_ms, ..h }
}

/// The health after a round trip of `rtt_us` that ended at `now_ms`.
pub open spec fn after_rtt(h: LinkHealth, rtt_us: u32, now_ms: u64) -> LinkHealth {
    LinkHealth { rtt_ema_us: rtt_after(h.rtt_ema_us, rtt_us), ..after_success(h, now_ms) }
}

/// The health after a failure.
pub open spec fn after_error(h: LinkHealth) -> LinkHealth {
    LinkHealth { err_rate_milli: err_after(h.err_rate_milli, 1000), ..h }
}

/// The health after a read or a write that ended at `now_ms`.
pub open spec fn after_outcome(h: LinkHealth, ok: bool, now_ms: u64) -> LinkHealth {
    if ok {
        after_success(h, now_ms)
    } else {
        after_error(h)
    }
}

/// Whether a link is usable at `now_ms`: it does not fail too often, and if it has ever seen a
/// round trip it has worked lately.
pub open spec fn healthy_at(h: LinkHealth, now_ms: u64) -> bool {
    &&& h.err_rate_milli < LINK_UNHEALTHY_ERR_MILLI
    &&& h.rtt_ema_us == 0 || now_ms - h.last_ok_at_ms < LINK_STALE_MS
}

/// A link is usable exactly while fewer than half of its recent attempts failed and, once it has
/// seen a round trip, it has worked within the last five seconds.
pub proof fn link_is_usable_while_it_works(h: LinkHealth, now_ms: u64)
    ensures
        h.err_rate_milli >= 500 ==> !healthy_at(h, now_ms),
        h.rtt_ema_us > 0 && now_ms >= h.last_ok_at_ms + 5000 ==> !healthy_at(h, now_ms),
        h.err_rate_milli < 500 && now_ms < h.last_ok_at_ms + 5000 ==> healthy_at(h, now_ms),
        h.err_rate_milli < 500 && h.rtt_ema_us == 0 ==> healthy_at(h, now_ms),
{
}

/// A failure and a success move the failure rate by an eighth of the way, rounded down, towards
/// 1000 and towards 0. A success also notes the time, and a round trip moves its average by an
/// eighth of the way towards itself, except that the first one counts in full.
pub proof fn outcomes_move_the_health_by_an_eighth(h: LinkHealth, now_ms: u64, rtt_us: u32)
    requires
        h.err_rate_milli <= 1000,
    ensures
        ({
            let bad = after_outcome(h, false, now_ms);
            &&& 8 * bad.err_rate_milli <= 7 * h.err_rate_milli + 1000 < 8 * bad.err_rate_milli + 8
            &&& h.err_rate_milli <= bad.err_rate_milli <= 1000
            &&& bad == (LinkHealth { err_rate_milli: bad.err_rate_milli, ..h })
            &&& bad == after_error(h)
        }),
        ({
            let good = after_outcome(h, true, now_ms);
            &&& 8 * good.err_rate_milli <= 7 * h.err_rate_milli < 8 * good.err_rate_milli + 8
            &&& h.err_rate_milli > 0 ==> good.err_rate_milli < h.err_rate_milli
            &&& good.last_ok_at_ms == now_ms
            &&& good.rtt_ema_us == h.rtt_ema_us && good.inflight == h.inflight
            &&& good == after_success(h, now_ms)
        }),
        ({
            let r = after_rtt(h, rtt_us, now_ms);
            let good = after_outcome(h, true, now_ms);
            &&& h.rtt_ema_us == 0 ==> r.rtt_ema_us == rtt_us
            &&& h.rtt_ema_us > 0 ==> 8 * r.rtt_ema_us <= 7 * h.rtt_ema_us + rtt_us < 8
                * r.rtt_ema_us + 8
            &&& r == (LinkHealth { rtt_ema_us: r.rtt_ema_us, ..good })
        }),
{
}

/// Six failures in a row make any link unusable, and six successes in a row, the last one less
/// than five seconds ago, make any link usable again.
pub proof fn six_outcomes_decide(
    h: Seq<LinkHealth>,
    ok: bool,
    times: Seq<u64>,
    now_ms: u64,
)
    requires
        h.len() == 7,
        times.len() == 6,
        h[0].err_rate_milli <= 1000,
        forall|k: int| 0 <= k < 6 ==> #[trigger] h[k + 1] == after_outcome(h[k], ok, times[k]),
    ensures
        !ok ==> !healthy_at(h[6], now_ms),
        ok && now_ms < times[5] + 5000 ==> healthy_at(h[6], now_ms),
{
    assert(h[0int + 1] == after_outcome(h[0], ok, times[0]));
    assert(h[1int + 1] == after_outcome(h[1], ok, times[1]));
    assert(h[2int + 1] == after_outcome(h[2], ok, times[2]));
    assert(h[3int + 1] == after_outcome(h[3], ok, times[3]));
    assert(h[4int + 1] == after_outcome(h[4], ok, times[4]));
    assert(h[5int + 1] == after_outcome(h[5], ok, times[5]));
    outcomes_move_the_health_by_an_eighth(h[0], times[0], 0);
    outcomes_move_the_health_by_an_eighth(h[1], times[1], 0);
    outcomes_move_the_health_by_an_eighth(h[2], times[2], 0);
    outcomes_move_the_health_by_an_eighth(h[3], times[3], 0);
    outcomes_move_the_health_by_an_eighth(h[4], times[4], 0);
    outcomes_move_the_health_by_an_eighth(h[5], times[5], 0);
}

fn ema_u32(prev: u32, sample: u32) -> (r: u32)
    ensures
        r == rtt_after(prev, sample),
{
    if prev == 0 {
        return sample;
    }
    ((7 * prev as u64 + sample as u64) / 8) as u32
}

fn ema_err(prev: u16, sample: u16) -> (r: u16)
    ensures
        r == err_after(prev, sample),
{
    let v: u32 = (7 * prev as u32 + sample as u32) / 8;
    if v > 1000 {
        1000
    } else {
        v as u16
    }
}

/// `tp * success / 1000`, rounded towards zero; the product stays within 64 bits.
pub open spec fn scaled(tp: int, success: int) -> int {
    if success >= 0 {
        (if tp * success > i64::MAX {
            i64::MAX as int
        } else {
            tp * success
        }) / 1000
    } else {
        -((if tp * -success > 0x8000_0000_0000_0000 {
            0x8000_0000_0000_0000
        } else {
            tp * -success
        }) / 1000)
    }
}

/// How good a link is: its throughput, less what fails, less a tenth of the round trip time.
pub open spec fn score_of(throughput_bps: u64, h: LinkHealth) -> int {
    scaled(
        if throughput_bps > i64::MAX {
            i64::MAX as int
        } else {
            throughput_bps as int
        },
        1000 - h.err_rate_milli,
    ) - h.rtt_ema_us as int / 10
}

/// The score of a link is its throughput times the share of what succeeds, less a microsecond of
/// round trip time for every ten, each rounded down. So of two links that do equally well the
/// faster one scores no less, and neither failures nor round trip time ever help.
pub proof fn better_links_score_higher(tp: u64, more: u64, h: LinkHealth, g: LinkHealth)
    requires
        h.err_rate_milli <= 1000,
        g.err_rate_milli <= 1000,
    ensures
        tp <= 0x20_0000_0000_0000 ==> ({
            let s = score_of(tp, h) + h.rtt_ema_us as int / 10;
            1000 * s <= tp * (1000 - h.err_rate_milli) < 1000 * s + 1000
        }),
        tp >= 0x7FFF_FFFF_FFFF_FFFF && h.err_rate_milli < 1000 ==> score_of(tp, h)
            + h.rtt_ema_us as int / 10 == 9_223_372_036_854_775int,
        h.err_rate_milli == 1000 ==> score_of(tp, h) == -(h.rtt_ema_us as int / 10),
        tp <= 0x7FFF_FFFF_FFFF_FFFF && tp * (1000 - h.err_rate_milli) <= 0x7FFF_FFFF_FFFF_FFFF ==> ({
            let s = score_of(tp, h) + h.rtt_ema_us as int / 10;
            1000 * s <= tp * (1000 - h.err_rate_milli) < 1000 * s + 1000
        }),
        tp * (1000 - h.err_rate_milli) > 0x7FFF_FFFF_FFFF_FFFF ==> score_of(tp, h)
            + h.rtt_ema_us as int / 10 == 9_223_372_036_854_775int,
        tp <= more ==> score_of(tp, h) <= score_of(more, h),
        h.err_rate_milli <= g.err_rate_milli && h.rtt_ema_us <= g.rtt_ema_us ==> score_of(tp, g)
            <= score_of(tp, h),
{
    let a: int = 1000 - h.err_rate_milli;
    let b: int = 1000 - g.err_rate_milli;
    let t: int = if tp > i64::MAX {
        i64::MAX as int
    } else {
        tp as int
    };
    let m: int = if more > i64::MAX {
        i64::MAX as int
    } else {
        more as int
    };
    if tp <= 0x20_0000_0000_0000 {
        assert(tp * a <= i64::MAX) by (nonlinear_arith)
            requires
                tp <= 0x20_0000_0000_0000,
                0 <= a <= 1000,
        ;
    }
    if a >= 1 && tp >= 0x7FFF_FFFF_FFFF_FFFF {
        assert(t * a >= 0x7FFF_FFFF_FFFF_FFFF) by (nonlinear_arith)
            requires
                t >= 0x7FFF_FFFF_FFFF_FFFF,
                a >= 1,
        ;
    }
    assert(a == 0 ==> t * a == 0 && tp * a == 0) by (nonlinear_arith);
    if tp <= more {
        assert(t * a <= m * a) by (nonlinear_arith)
            requires
                t <= m,
                0 <= a,
        ;
    }
    if b <= a {
        assert(t * b <= t * a) by (nonlinear_arith)
            requires
                0 <= t,
                b <= a,
        ;
    }
}

pub(crate) fn score_from(caps: &TransportCapabilities, h: &LinkHealth) -> (r: i64)
    ensures
        r == score_of(caps.throughput_bps, *h),
{
    let tp: u128 = if caps.throughput_bps > 0x7FFF_FFFF_FFFF_FFFF {
        0x7FFF_FFFF_FFFF_FFFF
    } else {
        caps.throughput_bps as u128
    };
    let penalty: i64 = (h.rtt_ema_us / 10) as i64;
    if h.err_rate_milli <= 1000 {
        let success: u128 = (1000 - h.err_rate_milli) as u128;
        assert(0 <= tp * success <= 0x7FFF_FFFF_FFFF_FFFF * 1000) by (nonlinear_arith)
            requires
                0 <= tp <= 0x7FFF_FFFF_FFFF_FFFF,
                0 <= success <= 1000,
        ;
        let product: u128 = tp * success;
        let base: u128 = if product > 0x7FFF_FFFF_FFFF_FFFF {
            0x7FFF_FFFF_FFFF_FFFF
        } else {
            product
        };
        (base / 1000) as i64 - penalty
    } else {
        let failure: u128 = (h.err_rate_milli - 1000) as u128;
        assert(0 <= tp * failure <= 0x7FFF_FFFF_FFFF_FFFF * 0x1_0000) by (nonlinear_arith)
            requires
                0 <= tp <= 0x7FFF_FFFF_FFFF_FFFF,
                0 <= failure <= 0x1_0000,
        ;
        let product: u128 = tp * failure;
        let base: u128 = if product > 0x8000_0000_0000_0000 {
            0x8000_0000_0000_0000
        } else {
            product
        };
        -((base / 1000) as i64) - penalty
    }
}

/// One physical connection to a peer.
pub struct Link<C: ?Sized> {
    id: String,
    kind: TransportKind,
    caps: TransportCapabilities,
    conn: Arc<C>,
    health: LinkHealth,
    created_at: Instant,
}

/// What a link is, as far as decisions depend on it.
pub struct LinkView<C: ?Sized> {
    pub id: Seq<char>,
    pub kind: TransportKind,
    pub caps: TransportCapabilities,
    pub conn: Arc<C>,
    pub health: LinkHealth,
    /// When the link was made.
    pub made_at: Instant,
}

/// A link that was made at `at` and has carried nothing yet.
pub open spec fn new_link<C: ?Sized>(
    id: Seq<char>,
    conn: Arc<C>,
    kind: TransportKind,
    caps: TransportCapabilities,
    at: Instant,
) -> LinkView<C> {
    LinkView { id, kind, caps, conn, health: fresh_health(), made_at: at }
}

/// A new link is what it is made of, and has neither failed nor carried anything.
pub proof fn new_link_is_healthy<C: ?Sized>(
    id: Seq<char>,
    conn: Arc<C>,
    kind: TransportKind,
    caps: TransportCapabilities,
    at: Instant,
    now_ms: u64,
)
    ensures
        ({
            let l = new_link(id, conn, kind, caps, at);
            &&& l.id == id && l.conn == conn && l.kind == kind && l.caps == caps && l.made_at == at
            &&& l.health.rtt_ema_us == 0 && l.health.err_rate_milli == 0 && l.health.last_ok_at_ms
                == 0 && l.health.inflight == 0
            &&& healthy_at(l.health, now_ms)
        }),
{
}

impl<C: ?Sized> Link<C> {
    pub closed spec fn view(&self) -> LinkView<C> {
        LinkView {
            id: self.id@,
            kind: self.kind,
            caps: self.caps,
            conn: self.conn,
            health: self.health,
            made_at: self.created_at,
        }
    }

    /// The failure rate is a rate.
    pub open spec fn wf(&self) -> bool {
        self@.health.err_rate_milli <= 1000
    }

    /// A link that is made at `at`.
    pub fn new_at(
        id: String,
        conn: Arc<C>,
        kind: TransportKind,
        caps: TransportCapabilities,
        at: Instant,
    ) -> (l: Self)
        ensures
            l.wf(),
            l@ == new_link(id@, conn, kind, caps, at),
    {
        Link { id, kind, caps, conn, health: LinkHealth::default(), created_at: at }
    }

    /// A link that is made now.
    pub fn new(id: String, conn: Arc<C>, kind: TransportKind, caps: TransportCapabilities) -> (l: Self)
        ensures
            l.wf(),
            l@ == new_link(id@, conn, kind, caps, l@.made_at),
    {
        let at = now();
        Link::new_at(id, conn, kind, caps, at)
    }

    pub fn id(&self) -> (s: &str)
        ensures
            s@ == self@.id,
    {
        self.id.as_str()
    }

    pub fn kind(&self) -> (k: TransportKind)
        ensures
            k == self@.kind,
    {
        self.kind
    }

    pub fn caps(&self) -> (c: &TransportCapabilities)
        ensures
            *c == self@.caps,
    {
        &self.caps
    }

    pub fn conn(&self) -> (c: &Arc<C>)
        ensures
            *c == self@.conn,
    {
        &self.conn
    }

    pub fn health(&self) -> (h: LinkHealth)
        ensures
            h == self@.health,
    {
        self.health
    }

    /// How long ago the link was made, in milliseconds.
    pub fn now_ms(&self) -> (ms: u64)
        ensures
            elapsed_reading(self@.made_at, ms),
    {
        millis_since(&self.created_at)
    }

    /// Records a round trip that ended at `now_ms`.
    pub fn record_rtt_at(&mut self, rtt_us: u32, now_ms: u64)
        ensures
            old(self).wf() ==> final(self).wf(),
            final(self)@ == (LinkView {
                health: after_rtt(old(self)@.health, rtt_us, now_ms),
                ..old(self)@
            }),
    {
        self.health.rtt_ema_us = ema_u32(self.health.rtt_ema_us, rtt_us);
        self.health.err_rate_milli = ema_err(self.health.err_rate_milli, 0);
        self.health.last_ok_at_ms = now_ms;
    }

    /// Records a round trip that ended now.
    pub fn record_rtt(&mut self, rtt_us: u32)
        ensures
            old(self).wf() ==> final(self).wf(),
            exists|now_ms: u64|
                elapsed_reading(old(self)@.made_at, now_ms) && final(self)@ == (LinkView {
                    health: #[trigger] after_rtt(old(self)@.health, rtt_us, now_ms),
                    ..old(self)@
                }),
    {
        let now_ms: u64 = self.now_ms();
        self.record_rtt_at(rtt_us, now_ms);
    }

    /// Records a success at `now_ms`.
    pub fn record_success_at(&mut self, now_ms: u64)
        ensures
            old(self).wf() ==> final(self).wf(),
            final(self)@ == (LinkView {
                health: after_success(old(self)@.health, now_ms),
                ..old(self)@
            }),
    {
        self.health.err_rate_milli = ema_err(self.health.err_rate_milli, 0);
        self.health.last_ok_at_ms = now_ms;
    }

    /// Records a success.
    pub fn record_success(&mut self)
        ensures
            old(self).wf() ==> final(self).wf(),
            exists|now_ms: u64|
                elapsed_reading(old(self)@.made_at, now_ms) && final(self)@ == (LinkView {
                    health: #[trigger] after_success(old(self)@.health, now_ms),
                    ..old(self)@
                }),
    {
        let now_ms: u64 = self.now_ms();
        self.record_success_at(now_ms);
    }

    /// Records a failure.
    pub fn record_error(&mut self)
        ensures
            old(self).wf() ==> final(self).wf(),
            final(self)@ == (LinkView { health: after_error(old(self)@.health), ..old(self)@ }),
    {
        self.health.err_rate_milli = ema_err(self.health.err_rate_milli, 1000);
    }

    /// One more message is on its way; the count stops at `u16::MAX`.
    pub fn inc_inflight(&mut self)
        ensures
            old(self).wf() ==> final(self).wf(),
            final(self)@ == (LinkView {
                health: LinkHealth {
                    inflight: if old(self)@.health.inflight < u16::MAX {
                        (old(self)@.health.inflight + 1) as u16
                    } else {
                        u16::MAX
                    },
                    ..old(self)@.health
                },
                ..old(self)@
            }),
    {
        self.health.inflight = self.health.inflight.saturating_add(1);
    }

    /// One message less is on its way; the count stops at 0.
    pub fn dec_inflight(&mut self)
        ensures
            old(self).wf() ==> final(self).wf(),
            final(self)@ == (LinkView {
                health: LinkHealth {
                    inflight: if old(self)@.health.inflight > 0 {
                        (old(self)@.health.inflight - 1) as u16
                    } else {
                        0
                    },
                    ..old(self)@.health
                },
                ..old(self)@
            }),
    {
        self.health.inflight = self.health.inflight.saturating_sub(1);
    }

    /// How good the link is.
    pub fn score(&self) -> (r: i64)
        ensures
            r == score_of(self@.caps.throughput_bps, self@.health),
    {
        score_from(&self.caps, &self.health)
    }

    /// Whether the link is usable at `now_ms`.
    pub fn is_healthy_at(&self, now_ms: u64) -> (r: bool)
        ensures
            r == healthy_at(self@.health, now_ms),
    {
        if self.health.err_rate_milli >= LINK_UNHEALTHY_ERR_MILLI {
            return false;
        }
        if self.health.rtt_ema_us > 0 && now_ms.saturating_sub(self.health.last_ok_at_ms)
            >= LINK_STALE_MS {
            return false;
        }
        true
    }

    /// Whether the link is usable now.
    pub fn is_healthy(&self) -> (r: bool)
        ensures
            exists|now_ms: u64|
                elapsed_reading(self@.made_at, now_ms) && r == #[trigger] healthy_at(
                    self@.health,
                    now_ms,
                ),
    {
        let now_ms: u64 = self.now_ms();
        self.is_healthy_at(now_ms)
    }

    /// Records how a read or a write over this link went at `now_ms`.
    pub fn record_outcome_at(&mut self, ok: bool, now_ms: u64)
        ensures
            old(self).wf() ==> final(self).wf(),
            final(self)@ == (LinkView {
                health: after_outcome(old(self)@.health, ok, now_ms),
                ..old(self)@
            }),
    {
        if ok {
            self.record_success_at(now_ms);
        } else {
            self.record_error();
        }
    }
}

} // verus!
