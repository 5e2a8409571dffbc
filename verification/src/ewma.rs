//! Exponentially-weighted moving-average rate estimator.
//!
//! Rates are held in fixed point: a rate of one event per second is `SCALE`
//! nanounits. The decay constant alpha is a fraction of `SCALE` as well, so
//! the whole recurrence runs on integers and every step is exact.

use vstd::prelude::*;
use vstd::arithmetic::mul::lemma_mul_inequality;
use vstd::arithmetic::div_mod::lemma_div_is_ordered;
use vstd::arithmetic::div_mod::lemma_div_by_multiple;

verus! {

/// Fixed-point scale: a rate of 1 event/second is `SCALE` nanounits.
pub const SCALE: u64 = 1_000_000_000;

/// Seconds between two ticks of the decay engine.
pub const TICK_INTERVAL_SECONDS: u64 = 5;

/// 1 - e^(-5/60) in nanounits: decay constant of the one-minute window.
pub const ALPHA_M01: u64 = 79_955_585;

/// 1 - e^(-5/300) in nanounits: decay constant of the five-minute window.
pub const ALPHA_M05: u64 = 16_528_546;

/// 1 - e^(-5/900) in nanounits: decay constant of the fifteen-minute window.
pub const ALPHA_M15: u64 = 5_540_152;

/// Largest rate the estimator can ever hold: u64::MAX events accumulated in
/// one tick interval, in nanounits (u64::MAX * SCALE / TICK_INTERVAL_SECONDS).
pub const RATE_MAX: u128 = 3_689_348_814_741_910_323_000_000_000;

/// Number of values of a `u64`, for stating wraparound arithmetic.
pub open spec fn u64_modulus() -> int {
    0x1_0000_0000_0000_0000
}

/// Addition with the wraparound semantics of `u64::wrapping_add`.
pub open spec fn wrap_add_u64(a: int, b: int) -> int {
    (a + b) % u64_modulus()
}

/// Rate observed during one tick interval in which `uncounted` events
/// arrived, in nanounits per second.
pub open spec fn instant_rate(uncounted: int) -> int {
    uncounted * (SCALE as int) / (TICK_INTERVAL_SECONDS as int)
}

/// One step of the decay recurrence: move `rate` toward `instant` by the
/// fraction `alpha` of the gap (alpha is in nanounits of SCALE).
pub open spec fn decayed_rate(rate: int, instant: int, alpha: int) -> int {
    if instant >= rate {
        rate + alpha * (instant - rate) / (SCALE as int)
    } else {
        rate - alpha * (rate - instant) / (SCALE as int)
    }
}

/// The rate after one `tick` of an estimator in the given state. The first
/// tick adopts the instantaneous rate outright; later ticks decay toward it.
pub open spec fn tick_rate(rate: int, uncounted: int, alpha: int, init: bool) -> int {
    if init {
        decayed_rate(rate, instant_rate(uncounted), alpha)
    } else {
        instant_rate(uncounted)
    }
}

/// The rate after `n` ticks, where the events `uncounted` stood accumulated
/// before the first tick and none arrive in between.
pub open spec fn rate_after(rate: int, uncounted: int, alpha: int, init: bool, n: nat) -> int
    decreases n,
{
    if n == 0 {
        rate
    } else {
        rate_after(tick_rate(rate, uncounted, alpha, init), 0, alpha, true, (n - 1) as nat)
    }
}

/// Relates an estimator to the same estimator after `n` ticks.
pub open spec fn ewma_ticked(e0: EWMA, e1: EWMA, n: nat) -> bool {
    &&& e1.alpha == e0.alpha
    &&& e1.rate as int == rate_after(e0.rate as int, e0.uncounted as int, e0.alpha as int, e0.init, n)
    &&& e1.uncounted == (if n == 0 { e0.uncounted } else { 0u64 })
    &&& e1.init == (e0.init || n > 0)
}

/// Relates an estimator to the same estimator after `n` ticks followed by
/// one `update(v)`.
pub open spec fn ewma_marked(e0: EWMA, e1: EWMA, n: nat, v: int) -> bool {
    &&& e1.alpha == e0.alpha
    &&& e1.rate as int == rate_after(e0.rate as int, e0.uncounted as int, e0.alpha as int, e0.init, n)
    &&& e1.uncounted as int == wrap_add_u64(if n == 0 { e0.uncounted as int } else { 0 }, v)
    &&& e1.init == (e0.init || n > 0)
}

/// A single exponentially-weighted moving average over one time window.
pub struct EWMA {
    /// Decay constant, a fraction of `SCALE`.
    pub alpha: u64,
    /// Events accumulated by `update` since the last tick.
    pub uncounted: u64,
    /// Current rate in nanounits per second; 0 before the first tick.
    pub rate: u128,
    /// Whether a first tick has happened.
    pub init: bool,
}

impl EWMA {
    /// Internal invariant: alpha is a valid fraction, the rate is within the
    /// representable band, and no rate exists before the first tick.
    pub open spec fn wf(self) -> bool {
        &&& self.alpha <= SCALE
        &&& self.rate <= RATE_MAX
        &&& (!self.init ==> self.rate == 0)
    }

    /// A fresh estimator with the given decay constant.
    pub fn new(alpha: u64) -> (e: EWMA)
        requires
            alpha <= SCALE,
        ensures
            e.wf(),
            e.alpha == alpha,
            e.uncounted == 0,
            e.rate == 0,
            !e.init,
    {
        EWMA { alpha, uncounted: 0, rate: 0, init: false }
    }

    /// The decay constant of one of the three standard averaging windows,
    /// alpha = 1 - e^(-tickInterval / (minutes * 60)), in nanounits.
    pub open spec fn window_alpha(minutes: int) -> int {
        if minutes == 1 {
            ALPHA_M01 as int
        } else if minutes == 5 {
            ALPHA_M05 as int
        } else {
            ALPHA_M15 as int
        }
    }

    /// A fresh estimator for one of the standard windows of 1, 5 or 15
    /// minutes, as used by Unix load averages.
    pub fn for_window(minutes: u64) -> (e: EWMA)
        requires
            minutes == 1 || minutes == 5 || minutes == 15,
        ensures
            e.wf(),
            e.alpha as int == EWMA::window_alpha(minutes as int),
            e.uncounted == 0,
            e.rate == 0,
            !e.init,
    {
        if minutes == 1 {
            EWMA::new(ALPHA_M01)
        } else if minutes == 5 {
            EWMA::new(ALPHA_M05)
        } else {
            EWMA::new(ALPHA_M15)
        }
    }

    /// Record `n` further events; they count toward the rate at the next
    /// tick. Wraps around on `u64` overflow.
    pub fn update(&mut self, n: u64)
        ensures
            final(self).alpha == old(self).alpha,
            final(self).rate == old(self).rate,
            final(self).init == old(self).init,
            final(self).uncounted as int == wrap_add_u64(old(self).uncounted as int, n as int),
    {
        self.uncounted = self.uncounted.wrapping_add(n);
    }

    /// The current rate in nanounits per second; 0 before the first tick.
    pub fn rate(&self) -> (r: u128)
        ensures
            r == self.rate,
    {
        self.rate
    }

    /// Fold the accumulated events into the rate: the first tick adopts the
    /// instantaneous rate of the past interval, later ticks decay toward it
    /// by the fraction `alpha`.
    pub fn tick(&mut self)
        requires
            old(self).wf(),
        ensures
            final(self).wf(),
            ewma_ticked(*old(self), *final(self), 1),
    {
        proof {
            reveal_with_fuel(rate_after, 2);
            lemma_instant_rate_bounded(self.uncounted as int);
            lemma_mul_times_quotient(self.uncounted as int);
        }
        let instant: u128 = (self.uncounted as u128) * ((SCALE / TICK_INTERVAL_SECONDS) as u128);
        proof {
            assert(instant as int == instant_rate(self.uncounted as int));
        }
        self.uncounted = 0;
        if !self.init {
            self.rate = instant;
            self.init = true;
        } else {
            if instant >= self.rate {
                let gap: u128 = instant - self.rate;
                proof {
                    lemma_decay_step_bounded(self.alpha as int, gap as int);
                }
                self.rate = self.rate + ((self.alpha as u128) * gap) / (SCALE as u128);
            } else {
                let gap: u128 = self.rate - instant;
                proof {
                    lemma_decay_step_bounded(self.alpha as int, gap as int);
                }
                self.rate = self.rate - ((self.alpha as u128) * gap) / (SCALE as u128);
            }
        }
    }
}

/// The instantaneous rate of any accumulator value fits in the rate band.
proof fn lemma_instant_rate_bounded(uncounted: int)
    requires
        0 <= uncounted <= u64::MAX,
    ensures
        0 <= instant_rate(uncounted) <= RATE_MAX,
{
    lemma_mul_inequality(uncounted, u64::MAX as int, SCALE as int);
    lemma_div_is_ordered(uncounted * (SCALE as int), (u64::MAX as int) * (SCALE as int), TICK_INTERVAL_SECONDS as int);
    assert((u64::MAX as int) * (SCALE as int) / (TICK_INTERVAL_SECONDS as int) == RATE_MAX as int);
    vstd::arithmetic::div_mod::lemma_div_pos_is_pos(uncounted * (SCALE as int), TICK_INTERVAL_SECONDS as int);
    vstd::arithmetic::mul::lemma_mul_nonnegative(uncounted, SCALE as int);
}

/// Since SCALE is divisible by the tick interval, dividing after the
/// multiplication equals multiplying by the integer quotient.
proof fn lemma_mul_times_quotient(uncounted: int)
    requires
        0 <= uncounted,
    ensures
        uncounted * ((SCALE / TICK_INTERVAL_SECONDS) as int) == instant_rate(uncounted),
{
    let q = (SCALE / TICK_INTERVAL_SECONDS) as int;
    assert(q == 200_000_000);
    assert(uncounted * (SCALE as int) == (uncounted * q) * (TICK_INTERVAL_SECONDS as int)) by {
        assert((SCALE as int) == q * (TICK_INTERVAL_SECONDS as int));
        vstd::arithmetic::mul::lemma_mul_is_associative(uncounted, q, TICK_INTERVAL_SECONDS as int);
    };
    lemma_div_by_multiple(uncounted * q, TICK_INTERVAL_SECONDS as int);
}

/// One decay step never overshoots: the correction alpha * gap / SCALE is at
/// most the gap itself, because alpha <= SCALE.
proof fn lemma_decay_step_bounded(alpha: int, gap: int)
    requires
        0 <= alpha <= SCALE,
        0 <= gap,
    ensures
        0 <= alpha * gap / (SCALE as int) <= gap,
{
    lemma_mul_inequality(alpha, SCALE as int, gap);
    lemma_div_is_ordered(alpha * gap, (SCALE as int) * gap, SCALE as int);
    assert((SCALE as int) * gap / (SCALE as int) == gap) by {
        vstd::arithmetic::mul::lemma_mul_is_commutative(SCALE as int, gap);
        lemma_div_by_multiple(gap, SCALE as int);
    };
    vstd::arithmetic::div_mod::lemma_div_pos_is_pos(alpha * gap, SCALE as int);
    vstd::arithmetic::mul::lemma_mul_nonnegative(alpha, gap);
}

/// Appending one more tick: the state after `n + 1` ticks is one `tick_rate`
/// step applied to the state after `n` ticks.
pub proof fn lemma_rate_after_step(rate: int, uncounted: int, alpha: int, init: bool, n: nat)
    ensures
        rate_after(rate, uncounted, alpha, init, n + 1) == tick_rate(
            rate_after(rate, uncounted, alpha, init, n),
            if n == 0 { uncounted } else { 0 },
            alpha,
            init || n > 0,
        ),
    decreases n,
{
    reveal_with_fuel(rate_after, 2);
    if n == 0 {
    } else {
        lemma_rate_after_step(tick_rate(rate, uncounted, alpha, init), 0, alpha, true, (n - 1) as nat);
    }
}

/// An estimator that has accumulated nothing reports a zero rate through
/// any number of ticks: each tick folds an instantaneous rate of zero into
/// a rate of zero. With `rate_after` this carries a fresh meter's zero
/// rates through every tick catch-up until the first events arrive.
pub proof fn lemma_rate_after_zero(alpha: int, init: bool, n: nat)
    requires
        0 <= alpha,
    ensures
        rate_after(0, 0, alpha, init, n) == 0,
    decreases n,
{
    if n > 0 {
        assert(instant_rate(0) == 0);
        assert(alpha * 0 == 0);
        assert(tick_rate(0, 0, alpha, init) == 0);
        lemma_rate_after_zero(alpha, true, (n - 1) as nat);
    }
}

} // verus!
