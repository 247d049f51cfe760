//! Retransmission timeouts, after RFC 4960 sections 6.3.1 and 6.3.3.
//!
//! All times are in milliseconds. The initial value and the lower bound are those of the SCTP
//! implementation behind Chrome's data channels, which suit a realtime exchange better than the
//! RFC's: with one chunk in flight no later acknowledgement can arm fast retransmission, and the
//! timeout is the recovery time. The bound still exceeds the 200 ms that a peer may delay an
//! acknowledgement for.

use vstd::arithmetic::div_mod::lemma_mul_mod_noop_right;
use vstd::arithmetic::power2::{lemma2_to64, lemma_pow2_strictly_increases, lemma_pow2_unfold, pow2};
use vstd::prelude::*;

verus! {

pub const RTO_INITIAL: u64 = 500;

pub const RTO_MIN: u64 = 400;

pub const RTO_MAX: u64 = 60000;

pub const RTO_ALPHA: u64 = 1;

pub const RTO_BETA: u64 = 2;

pub const RTO_BASE: u64 = 8;

/// Four times the least variance a quiet link is credited with, 27.5 ms, so that the timeout
/// cannot converge onto the round-trip time.
pub const VARIANCE_TERM_MIN: u64 = 110;

/// The lower bound without a congestion window. Every chunk then asks for an immediate
/// acknowledgement, and an early timeout costs one packet.
pub const RTO_MIN_NO_CC: u64 = 30;

/// Four times the least variance without a congestion window, 6.25 ms: together the 25 ms that a
/// peer may hold an acknowledgement for.
pub const VARIANCE_TERM_MIN_NO_CC: u64 = 25;

pub const MAX_INIT_RETRANS: usize = 8;

pub const PATH_MAX_RETRANS: usize = 5;

pub const NO_MAX_RETRANS: usize = 0;

/// Keeps the smoothed round-trip time and the retransmission timeout. The variance of the
/// round-trip time is a fraction and is kept by the caller.
#[derive(Clone, Copy, Debug, PartialEq, Eq, Structural)]
pub struct RtoManager {
    pub srtt: u64,
    pub rto: u64,
    pub no_update: bool,
    /// The least timeout.
    pub rto_min: u64,
    /// The least that the variance adds to the round-trip time: four times the variance's floor.
    pub variance_term_min: u64,
}

/// The smoothed round-trip time after a measurement; zero before the first.
pub open spec fn smoothed(srtt: u64, rtt: u64) -> int {
    if srtt == 0 {
        rtt as int
    } else {
        (7 * srtt + rtt) / 8
    }
}

/// A number of 64 bits read as a signed one.
pub open spec fn signed(x: u64) -> int {
    if x < 0x8000_0000_0000_0000 {
        x as int
    } else {
        x - 0x1_0000_0000_0000_0000
    }
}

pub open spec fn clamped(x: int, min: int, max: int) -> int {
    if x < min {
        min
    } else if x > max {
        max
    } else {
        x
    }
}

pub open spec fn larger(a: int, b: int) -> int {
    if a < b {
        b
    } else {
        a
    }
}

/// `after` is `before` with a round-trip time measured.
pub open spec fn measured(
    before: RtoManager,
    rtt: u64,
    variance_term: u64,
    after: RtoManager,
) -> bool {
    if before.no_update {
        after == before
    } else {
        &&& after.srtt == smoothed(before.srtt, rtt)
        &&& after.rto == clamped(
            after.srtt + larger(variance_term as int, before.variance_term_min as int),
            before.rto_min as int,
            RTO_MAX as int,
        )
        &&& !after.no_update
        &&& after.same_bounds(before)
    }
}

impl RtoManager {
    /// The timeout has room between its bounds.
    pub open spec fn wf(self) -> bool {
        self.rto_min <= RTO_MAX
    }

    /// The two lower bounds are the ones of `other`.
    pub open spec fn same_bounds(self, other: RtoManager) -> bool {
        self.rto_min == other.rto_min && self.variance_term_min == other.variance_term_min
    }

    /// Nothing is measured yet.
    pub open spec fn fresh(self) -> bool {
        self.srtt == 0 && self.rto == RTO_INITIAL
    }

    pub fn new() -> (r: RtoManager)
        ensures
            r.wf(),
            r.fresh(),
            !r.no_update,
            r.rto_min == RTO_MIN,
            r.variance_term_min == VARIANCE_TERM_MIN,
            r == (RtoManager {
                srtt: 0,
                rto: 500,
                no_update: false,
                rto_min: 400,
                variance_term_min: 110,
            }),
    {
        RtoManager {
            srtt: 0,
            rto: RTO_INITIAL,
            no_update: false,
            rto_min: RTO_MIN,
            variance_term_min: VARIANCE_TERM_MIN,
        }
    }

    /// The manager for an association that sends without a congestion window.
    pub fn new_no_congestion_control() -> (r: RtoManager)
        ensures
            r.wf(),
            r.fresh(),
            !r.no_update,
            r.rto_min == RTO_MIN_NO_CC,
            r.variance_term_min == VARIANCE_TERM_MIN_NO_CC,
            r == (RtoManager {
                srtt: 0,
                rto: 500,
                no_update: false,
                rto_min: 30,
                variance_term_min: 25,
            }),
    {
        RtoManager {
            srtt: 0,
            rto: RTO_INITIAL,
            no_update: false,
            rto_min: RTO_MIN_NO_CC,
            variance_term_min: VARIANCE_TERM_MIN_NO_CC,
        }
    }

    /// How far a measurement is from the smoothed round-trip time, which the variance is made of.
    /// Both are read as signed numbers, and their difference must be one.
    pub fn deviation(&self, rtt: u64) -> (r: u64)
        requires
            -0x8000_0000_0000_0000 < signed(self.srtt) - signed(rtt) < 0x8000_0000_0000_0000,
        ensures
            signed(self.srtt) >= signed(rtt) ==> r == signed(self.srtt) - signed(rtt),
            signed(self.srtt) < signed(rtt) ==> r == signed(rtt) - signed(self.srtt),
            self.srtt < 0x8000_0000_0000_0000 && rtt < 0x8000_0000_0000_0000 ==> r == self.srtt
                - rtt || r == rtt - self.srtt,
            self.srtt >= 0x8000_0000_0000_0000 && rtt >= 0x8000_0000_0000_0000 ==> r == self.srtt
                - rtt || r == rtt - self.srtt,
            self.srtt < 0x8000_0000_0000_0000 <= rtt ==> r == self.srtt + (
            0x1_0000_0000_0000_0000 - rtt),
            rtt < 0x8000_0000_0000_0000 <= self.srtt ==> r == rtt + (0x1_0000_0000_0000_0000
                - self.srtt),
    {
        let a: i64 = self.srtt as i64;
        let b: i64 = rtt as i64;
        proof {
            lemma_signed(self.srtt);
            lemma_signed(rtt);
        }
        let d: i64 = a - b;
        if d >= 0 {
            d as u64
        } else {
            (-d) as u64
        }
    }

    /// Takes a newly measured round-trip time, and gives the smoothed one. `variance_term` is four
    /// times the variance after this measurement, in whole milliseconds.
    pub fn set_new_rtt(&mut self, rtt: u64, variance_term: u64) -> (r: u64)
        requires
            old(self).wf(),
            !old(self).no_update ==> {
                &&& old(self).srtt != 0 ==> 7 * old(self).srtt + rtt <= u64::MAX
                &&& smoothed(old(self).srtt, rtt) + larger(
                    variance_term as int,
                    old(self).variance_term_min as int,
                ) <= u64::MAX
            },
        ensures
            measured(*old(self), rtt, variance_term, *final(self)),
            r == final(self).srtt,
            old(self).no_update ==> *final(self) == *old(self),
            !old(self).no_update ==> {
                &&& old(self).srtt == 0 ==> r == rtt
                &&& old(self).srtt != 0 ==> 8 * r <= 7 * old(self).srtt + rtt < 8 * r + 8
                &&& old(self).rto_min <= final(self).rto <= 60000
                &&& final(self).rto < 60000 ==> final(self).rto >= r + variance_term
                    && final(self).rto >= r + old(self).variance_term_min
                &&& final(self).rto > old(self).rto_min ==> final(self).rto <= r + variance_term
                    || final(self).rto <= r + old(self).variance_term_min
                &&& !final(self).no_update
                &&& final(self).rto_min == old(self).rto_min
                &&& final(self).variance_term_min == old(self).variance_term_min
            },
    {
        if self.no_update {
            return self.srtt;
        }
        if self.srtt == 0 {
            self.srtt = rtt;
        } else {
            self.srtt = ((RTO_BASE - RTO_ALPHA) * self.srtt + RTO_ALPHA * rtt) / RTO_BASE;
        }
        let term: u64 = if variance_term < self.variance_term_min {
            self.variance_term_min
        } else {
            variance_term
        };
        let rto: u64 = self.srtt + term;
        self.rto = if rto < self.rto_min {
            self.rto_min
        } else if rto > RTO_MAX {
            RTO_MAX
        } else {
            rto
        };
        self.srtt
    }

    pub fn get_rto(&self) -> (r: u64)
        ensures
            r == self.rto,
    {
        self.rto
    }

    /// Puts the smoothed round-trip time and the timeout back to their initial values.
    pub fn reset(&mut self)
        ensures
            final(self).same_bounds(*old(self)),
            final(self).no_update == old(self).no_update,
            old(self).no_update ==> *final(self) == *old(self),
            !old(self).no_update ==> final(self).fresh(),
            !old(self).no_update ==> *final(self) == (RtoManager {
                srtt: 0,
                rto: 500,
                ..*old(self)
            }),
    {
        if self.no_update {
            return ;
        }
        self.srtt = 0;
        self.rto = RTO_INITIAL;
    }

    /// Sets the timeout, and whether measurements may change it.
    pub fn set_rto(&mut self, rto: u64, no_update: bool)
        ensures
            final(self).same_bounds(*old(self)),
            final(self).srtt == old(self).srtt,
            final(self).rto == rto,
            final(self).no_update == no_update,
            *final(self) == (RtoManager { rto, no_update, ..*old(self) }),
    {
        self.rto = rto;
        self.no_update = no_update;
    }
}

proof fn lemma_signed(x: u64)
    ensures
        (x as i64) == signed(x),
{
    assert(x < 0x8000_0000_0000_0000 ==> (x as i64) == x) by (bit_vector);
    assert(x >= 0x8000_0000_0000_0000 ==> (x as i64) == x - 0x1_0000_0000_0000_0000)
        by (bit_vector);
}

/// The timeout after `n` retransmissions in a row: doubled for each, up to the bound. Bits that
/// double past the 64th are lost.
pub open spec fn backed_off(rto: u64, n: nat) -> int {
    let doubled = (rto * pow2(n)) as int % 0x1_0000_0000_0000_0000;
    if n < 31 && doubled < RTO_MAX {
        doubled
    } else {
        RTO_MAX as int
    }
}

proof fn lemma_shl_wraps(x: u64, n: u64)
    requires
        n < 64,
    ensures
        (x << n) == (x * pow2(n as nat)) as int % 0x1_0000_0000_0000_0000,
    decreases n,
{
    lemma2_to64();
    if n == 0 {
        assert((x << 0u64) == x) by (bit_vector);
    } else {
        let j = (n - 1) as u64;
        lemma_shl_wraps(x, j);
        lemma_pow2_unfold(n as nat);
        let half = x << j;
        assert((x << n) == (2 * half) % 0x1_0000_0000_0000_0000) by (bit_vector)
            requires
                0 < n < 64,
                j == n - 1,
                half == x << j,
        ;
        let product = x * pow2(j as nat);
        lemma_mul_mod_noop_right(2, product, 0x1_0000_0000_0000_0000);
        assert(2 * product == x * pow2(n as nat)) by (nonlinear_arith)
            requires
                product == x * pow2(j as nat),
                pow2(n as nat) == 2 * pow2(j as nat),
        ;
    }
}

/// The timeout after `n_rtos` retransmissions in a row.
pub fn calculate_next_timeout(rto: u64, n_rtos: usize) -> (r: u64)
    ensures
        r == backed_off(rto, n_rtos as nat),
        r <= 60000,
        n_rtos >= 31 ==> r == 60000,
        n_rtos < 31 ==> r == 60000 || r == (rto * pow2(n_rtos as nat)) as int
            % 0x1_0000_0000_0000_0000,
        n_rtos < 31 ==> r <= (rto * pow2(n_rtos as nat)) as int % 0x1_0000_0000_0000_0000,
{
    if n_rtos < 31 {
        proof {
            lemma_shl_wraps(rto, n_rtos as u64);
        }
        let doubled: u64 = rto << (n_rtos as u64);
        if doubled < RTO_MAX {
            doubled
        } else {
            RTO_MAX
        }
    } else {
        RTO_MAX
    }
}

/// A measurement moves the smoothed time by an eighth of the distance, up or down, and the first
/// one sets it. The timeout is that time and the larger of the two variance terms, as far as the
/// bounds let it be.
pub proof fn law_measurement_moves_an_eighth(
    before: RtoManager,
    rtt: u64,
    variance_term: u64,
    after: RtoManager,
)
    requires
        before.rto_min <= 60000,
        !before.no_update,
        measured(before, rtt, variance_term, after),
    ensures
        before.srtt == 0 ==> after.srtt == rtt,
        before.srtt != 0 ==> 8 * after.srtt <= 7 * before.srtt + rtt < 8 * after.srtt + 8,
        ({
            let s = after.srtt as int;
            let (v, f) = (variance_term as int, before.variance_term_min as int);
            &&& v >= f && before.rto_min <= s + v <= 60000 ==> after.rto == s + v
            &&& v < f && before.rto_min <= s + f <= 60000 ==> after.rto == s + f
            &&& s + v < before.rto_min && s + f < before.rto_min ==> after.rto == before.rto_min
            &&& s + v > 60000 || s + f > 60000 ==> after.rto == 60000
        }),
        after.no_update == before.no_update,
        after.rto_min == before.rto_min,
        after.variance_term_min == before.variance_term_min,
{
}

/// A slower round trip never makes for a shorter smoothed time or timeout than a faster one would,
/// from the same state and with the same variance.
pub proof fn law_slower_is_not_shorter(
    before: RtoManager,
    fast: u64,
    slow: u64,
    variance_term: u64,
    after_fast: RtoManager,
    after_slow: RtoManager,
)
    requires
        fast <= slow,
        before.rto_min <= 60000,
        measured(before, fast, variance_term, after_fast),
        measured(before, slow, variance_term, after_slow),
    ensures
        after_fast.srtt <= after_slow.srtt,
        after_fast.rto <= after_slow.rto,
        !before.no_update && before.srtt != 0 ==> 8 * (after_slow.srtt - after_fast.srtt) <= slow
            - fast + 7,
{
}

/// Measurements of one and the same round-trip time settle: the smoothed time stays at it.
pub proof fn law_steady_path_stays(srtt: u64)
    requires
        srtt != 0,
    ensures
        smoothed(srtt, srtt) == srtt,
{
}

/// A measurement puts the timeout within its bounds and leaves the smoothed round-trip time its
/// least variance term, as far as the upper bound lets it.
pub proof fn law_rto_within_bounds(
    before: RtoManager,
    rtt: u64,
    variance_term: u64,
    after: RtoManager,
)
    requires
        before.wf(),
        !before.no_update,
        measured(before, rtt, variance_term, after),
    ensures
        after.wf(),
        after.rto_min <= after.rto <= RTO_MAX,
        after.srtt + after.variance_term_min <= after.rto || after.rto == RTO_MAX,
{
}

/// The first measurement after a reset counts alone: what was measured before is forgotten.
pub proof fn law_reset_forgets(fresh: RtoManager, rtt: u64, variance_term: u64, after: RtoManager)
    requires
        fresh.fresh(),
        !fresh.no_update,
        measured(fresh, rtt, variance_term, after),
    ensures
        after.srtt == rtt,
{
}

/// The smoothed round-trip time lies between the one before and the measurement.
pub proof fn law_smoothed_between(srtt: u64, rtt: u64)
    requires
        srtt != 0,
    ensures
        srtt <= rtt ==> srtt <= smoothed(srtt, rtt) <= rtt,
        rtt <= srtt ==> rtt <= smoothed(srtt, rtt) <= srtt,
{
}

/// The timeout after `n` retransmissions, in numbers: `rto` times two to the `n`, less what does
/// not fit in 64 bits, and 60 seconds at most; 60 seconds from the thirty-first on.
pub proof fn law_backoff_in_numbers(rto: u64, n: nat)
    ensures
        n >= 31 ==> backed_off(rto, n) == 60000,
        n < 31 && (rto * pow2(n)) as int % 0x1_0000_0000_0000_0000 <= 60000 ==> backed_off(rto, n)
            == (rto * pow2(n)) as int % 0x1_0000_0000_0000_0000,
        n < 31 && (rto * pow2(n)) as int % 0x1_0000_0000_0000_0000 > 60000 ==> backed_off(rto, n)
            == 60000,
{
}

/// No backed-off timeout is above the bound.
pub proof fn law_backoff_is_bounded(rto: u64, n: nat)
    ensures
        0 <= backed_off(rto, n) <= RTO_MAX,
{
}

/// Doubling `rto` for up to `n` retransmissions loses no bits.
pub open spec fn lossless(rto: u64, n: nat) -> bool {
    rto * pow2(
        if n < 31 {
            n
        } else {
            30
        },
    ) < 0x1_0000_0000_0000_0000
}

/// A timeout below 2^34 never loses bits, however often it is doubled.
pub proof fn law_usual_timeouts_lose_nothing(rto: u64, n: nat)
    requires
        rto < 0x4_0000_0000,
    ensures
        lossless(rto, n),
{
    lemma2_to64();
    let k = if n < 31 {
        n
    } else {
        30
    };
    if k < 30 {
        lemma_pow2_strictly_increases(k, 30);
    }
    let p = pow2(k) as int;
    assert(rto * p < 0x1_0000_0000_0000_0000) by (nonlinear_arith)
        requires
            0 <= rto < 0x4_0000_0000,
            0 <= p <= 0x4000_0000,
    ;
}

/// The timeout begins as it is given, and each retransmission doubles it; both up to the bound,
/// and there it stays. No bits may be lost in doubling. A timeout of zero stays zero for thirty
/// retransmissions, and is the bound after that.
pub proof fn law_backoff_doubles(rto: u64, n: nat)
    requires
        lossless(rto, n + 1),
        rto == 0 ==> n != 30,
    ensures
        backed_off(rto, 0) == if rto < RTO_MAX {
            rto
        } else {
            RTO_MAX
        },
        backed_off(rto, n + 1) == if 2 * backed_off(rto, n) < RTO_MAX {
            2 * backed_off(rto, n)
        } else {
            RTO_MAX as int
        },
{
    lemma2_to64();
    let x = rto as int;
    assert(x * pow2(0) == x) by (nonlinear_arith)
        requires
            pow2(0) == 1,
    ;
    if n <= 30 {
        lemma_pow2_unfold((n + 1) as nat);
        let p = pow2(n) as int;
        assert(x * (2 * p) == 2 * (x * p)) by (nonlinear_arith);
        assert(x * p >= 0) by (nonlinear_arith)
            requires
                x >= 0,
                p >= 0,
        ;
        if n == 30 {
            assert(x * p >= 0x4000_0000) by (nonlinear_arith)
                requires
                    1 <= x,
                    p == 0x4000_0000,
            ;
        }
    }
}

/// How often is tried again: eight times for a handshake, five times on a path, and without end
/// where the limit is zero.
pub proof fn law_retransmission_limits()
    ensures
        MAX_INIT_RETRANS == 8,
        PATH_MAX_RETRANS == 5,
        NO_MAX_RETRANS == 0,
{
}

/// A deviation is a distance: the difference of the two times, whichever is larger, and none
/// between equal ones.
pub proof fn law_deviation_is_a_distance(a: &RtoManager, b: &RtoManager, r: u64, s: u64)
    requires
        a.srtt < 0x8000_0000_0000_0000,
        b.srtt < 0x8000_0000_0000_0000,
        call_ensures(RtoManager::deviation, (a, b.srtt), r),
        call_ensures(RtoManager::deviation, (b, a.srtt), s),
    ensures
        r == s,
        a.srtt >= b.srtt ==> r == a.srtt - b.srtt,
        r == 0 <==> a.srtt == b.srtt,
{
}

} // verus!
