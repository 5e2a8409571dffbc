//! The rate-measuring metric: an event counter combined with three decay
//! estimators, driven by a lock-free-style tick catch-up over a clock.

use vstd::prelude::*;
use crate::clock::{Clock, SystemClock};
use crate::ewma::{
    EWMA, ewma_ticked, ewma_marked, wrap_add_u64, u64_modulus, lemma_rate_after_step,
    SCALE, TICK_INTERVAL_SECONDS, ALPHA_M01, ALPHA_M05, ALPHA_M15,
};
use crate::metric::{Metric, MetricValue};
use vstd::arithmetic::mul::lemma_mul_inequality;

verus! {

/// An immutable point-in-time copy of a meter's readings.
#[derive(Clone, Debug)]
pub struct MeterSnapshot {
    /// Total number of events marked.
    pub count: u64,
    /// One-, five- and fifteen-minute rates, in nanounits per second.
    pub rates: [u128; 3],
    /// Events per second since the meter was created, in nanounits.
    pub mean: u128,
}

/// A meter measures the rate at which a set of events occur, like the Unix
/// load averages shown by `top`. Rates are in nanounits of events per
/// second: a rate of 1 event/second reads as `SCALE`.
pub trait Meter: Metric {
    /// The number of events which have been marked.
    fn count(&self) -> (r: u64)
        requires
            self.metric_wf(),
    ;

    /// The mean rate at which events have occurred since the meter was
    /// created, in nanounits per second.
    fn mean_rate(&mut self) -> (r: u128)
        requires
            old(self).metric_wf(),
        ensures
            final(self).metric_wf(),
    ;

    /// The one-minute exponentially-weighted moving average rate.
    fn m01rate(&mut self) -> (r: u128)
        requires
            old(self).metric_wf(),
        ensures
            final(self).metric_wf(),
    ;

    /// The five-minute exponentially-weighted moving average rate.
    fn m05rate(&mut self) -> (r: u128)
        requires
            old(self).metric_wf(),
        ensures
            final(self).metric_wf(),
    ;

    /// The fifteen-minute exponentially-weighted moving average rate.
    fn m15rate(&mut self) -> (r: u128)
        requires
            old(self).metric_wf(),
        ensures
            final(self).metric_wf(),
    ;

    /// Mark the occurrence of a given number of events.
    fn mark(&mut self, value: u64)
        requires
            old(self).metric_wf(),
        ensures
            final(self).metric_wf(),
    ;
}

/// Number of ticks owed once `now - prev` seconds have elapsed: none until
/// strictly more than one tick interval has passed, then one per interval.
pub open spec fn ticks_owed(prev: int, now: int) -> int {
    if now - prev > TICK_INTERVAL_SECONDS {
        (now - prev) / (TICK_INTERVAL_SECONDS as int)
    } else {
        0
    }
}

/// The last-tick timestamp after catch-up: advanced to the most recent tick
/// boundary, or unchanged when no tick was owed.
pub open spec fn caught_up_prev(prev: int, now: int) -> int {
    if now - prev > TICK_INTERVAL_SECONDS {
        now - (now - prev) % (TICK_INTERVAL_SECONDS as int)
    } else {
        prev
    }
}

/// The mean rate in nanounits per second: `count / (now - birth)` events
/// per second, or 0 when nothing was counted or no time has elapsed.
pub open spec fn mean_rate_spec(count: int, birth: int, now: int) -> int {
    if count == 0 || now <= birth {
        0
    } else {
        count * (SCALE as int) / (now - birth)
    }
}

/// The standard meter: an event count, three decay estimators and the
/// timestamp of the last tick boundary that has been accounted for.
pub struct StdMeter<C: Clock> {
    /// The time source consulted by `mark` and the rate getters.
    pub clock: C,
    /// Creation time in whole seconds.
    pub birthstamp: u64,
    /// Time of the last tick boundary accounted for.
    pub prev: u64,
    /// Total events marked; wraps on `u64` overflow.
    pub count: u64,
    /// One-minute estimator.
    pub m01: EWMA,
    /// Five-minute estimator.
    pub m05: EWMA,
    /// Fifteen-minute estimator.
    pub m15: EWMA,
}

impl<C: Clock> StdMeter<C> {
    /// Internal invariant: the tick timestamp lies between creation time
    /// and the clock's current floor, and each estimator is well formed and
    /// carries its window's decay constant.
    pub open spec fn wf(self) -> bool {
        &&& self.birthstamp <= self.prev
        &&& self.prev as nat <= self.clock.last_time()
        &&& self.m01.wf() && self.m05.wf() && self.m15.wf()
        &&& self.m01.alpha == ALPHA_M01
        &&& self.m05.alpha == ALPHA_M05
        &&& self.m15.alpha == ALPHA_M15
    }

    /// The ensures shared by every operation that runs the tick catch-up:
    /// the tick timestamp advances to the latest boundary at the observed
    /// time `now`, and each estimator ticks exactly the owed number of
    /// times.
    pub open spec fn caught_up(pre: Self, post: Self, now: int) -> bool {
        let n = ticks_owed(pre.prev as int, now) as nat;
        &&& post.prev as int == caught_up_prev(pre.prev as int, now)
        &&& ewma_ticked(pre.m01, post.m01, n)
        &&& ewma_ticked(pre.m05, post.m05, n)
        &&& ewma_ticked(pre.m15, post.m15, n)
    }

    /// A meter over the given clock, born at the clock's current time.
    pub fn with(clock: C) -> (m: StdMeter<C>)
        ensures
            m.wf(),
            m.count == 0,
            m.birthstamp == m.prev,
            m.prev as nat == m.clock.last_time(),
            clock.last_time() <= m.clock.last_time(),
            C::observed(clock, m.clock, m.clock.last_time()),
            m.m01.rate == 0 && !m.m01.init && m.m01.uncounted == 0,
            m.m05.rate == 0 && !m.m05.init && m.m05.uncounted == 0,
            m.m15.rate == 0 && !m.m15.init && m.m15.uncounted == 0,
    {
        let mut clock = clock;
        let birthstamp = clock.now();
        StdMeter {
            clock,
            birthstamp,
            prev: birthstamp,
            count: 0,
            m01: EWMA::for_window(1),
            m05: EWMA::for_window(5),
            m15: EWMA::for_window(15),
        }
    }

    /// The tick catch-up: observe the clock once; when more than one tick
    /// interval has elapsed since `prev`, advance `prev` to the latest tick
    /// boundary with a plain store (this meter is held by `&mut self`) and
    /// replay the owed number of ticks on each estimator. The design this
    /// mirrors makes the same advance with a single compare-and-swap so
    /// that shared-state callers can race; `lemma_catch_up_idempotent`
    /// shows the advance settles every owed tick, so a caller arriving
    /// after it replays nothing.
    fn tick_maybe(&mut self) -> (now: u64)
        requires
            old(self).wf(),
        ensures
            final(self).wf(),
            final(self).count == old(self).count,
            final(self).birthstamp == old(self).birthstamp,
            old(self).clock.last_time() <= now as nat,
            final(self).clock.last_time() == now as nat,
            C::observed(old(self).clock, final(self).clock, now as nat),
            StdMeter::caught_up(*old(self), *final(self), now as int),
    {
        let now = self.clock.now();
        let old_prev = self.prev;
        let elapsed = now - old_prev;
        if elapsed > TICK_INTERVAL_SECONDS {
            self.prev = now - elapsed % TICK_INTERVAL_SECONDS;
            let ticks = elapsed / TICK_INTERVAL_SECONDS;
            let ghost pre = *self;
            let mut i: u64 = 0;
            while i < ticks
                invariant
                    i <= ticks,
                    ticks as int == ticks_owed(old(self).prev as int, now as int),
                    self.m01.wf() && self.m05.wf() && self.m15.wf(),
                    ewma_ticked(pre.m01, self.m01, i as nat),
                    ewma_ticked(pre.m05, self.m05, i as nat),
                    ewma_ticked(pre.m15, self.m15, i as nat),
                    self.clock == pre.clock,
                    self.count == pre.count,
                    self.birthstamp == pre.birthstamp,
                    self.prev == pre.prev,
                decreases ticks - i,
            {
                let ghost cur = *self;
                self.m01.tick();
                self.m05.tick();
                self.m15.tick();
                proof {
                    lemma_rate_after_step(cur.m01.rate as int, cur.m01.uncounted as int, cur.m01.alpha as int, cur.m01.init, 0);
                    lemma_rate_after_step(cur.m05.rate as int, cur.m05.uncounted as int, cur.m05.alpha as int, cur.m05.init, 0);
                    lemma_rate_after_step(cur.m15.rate as int, cur.m15.uncounted as int, cur.m15.alpha as int, cur.m15.init, 0);
                    lemma_rate_after_step(pre.m01.rate as int, pre.m01.uncounted as int, pre.m01.alpha as int, pre.m01.init, i as nat);
                    lemma_rate_after_step(pre.m05.rate as int, pre.m05.uncounted as int, pre.m05.alpha as int, pre.m05.init, i as nat);
                    lemma_rate_after_step(pre.m15.rate as int, pre.m15.uncounted as int, pre.m15.alpha as int, pre.m15.init, i as nat);
                }
                i = i + 1;
            }
        }
        now
    }

    /// A copy of the current readings, after running the tick catch-up.
    /// The snapshot's mean is taken at the same observation of the clock.
    pub fn snapshot(&mut self) -> (s: MeterSnapshot)
        requires
            old(self).wf(),
        ensures
            final(self).wf(),
            final(self).count == old(self).count,
            final(self).birthstamp == old(self).birthstamp,
            old(self).clock.last_time() <= final(self).clock.last_time(),
            C::observed(old(self).clock, final(self).clock, final(self).clock.last_time()),
            StdMeter::caught_up(*old(self), *final(self), final(self).clock.last_time() as int),
            s.count == final(self).count,
            s.rates@[0] == final(self).m01.rate,
            s.rates@[1] == final(self).m05.rate,
            s.rates@[2] == final(self).m15.rate,
            s.mean as int == mean_rate_spec(
                old(self).count as int,
                old(self).birthstamp as int,
                final(self).clock.last_time() as int,
            ),
    {
        let now = self.tick_maybe();
        let count = self.count;
        let elapsed = now - self.birthstamp;
        let mean: u128 = if count == 0 || elapsed == 0 {
            0
        } else {
            proof {
                lemma_count_scale_fits(count as int);
            }
            (count as u128) * (SCALE as u128) / (elapsed as u128)
        };
        MeterSnapshot { count, rates: [self.m01.rate(), self.m05.rate(), self.m15.rate()], mean }
    }
}

/// `count * SCALE` fits comfortably in a `u128` for any `u64` count.
proof fn lemma_count_scale_fits(count: int)
    requires
        0 <= count <= u64::MAX,
    ensures
        0 <= count * (SCALE as int) <= (u64::MAX as int) * (SCALE as int),
        (u64::MAX as int) * (SCALE as int) < u128::MAX,
{
    lemma_mul_inequality(count, u64::MAX as int, SCALE as int);
    vstd::arithmetic::mul::lemma_mul_nonnegative(count, SCALE as int);
}

impl StdMeter<SystemClock> {
    /// A meter over the default wall clock.
    pub fn new() -> (m: StdMeter<SystemClock>)
        ensures
            m.wf(),
            m.count == 0,
            m.birthstamp == m.prev,
            m.prev as nat == m.clock.last_time(),
            m.m01.rate == 0 && !m.m01.init && m.m01.uncounted == 0,
            m.m05.rate == 0 && !m.m05.init && m.m05.uncounted == 0,
            m.m15.rate == 0 && !m.m15.init && m.m15.uncounted == 0,
    {
        StdMeter::with(SystemClock::new())
    }
}

impl<C: Clock> Metric for StdMeter<C> {
    open spec fn metric_wf(&self) -> bool {
        self.wf()
    }

    fn export_metric(&mut self) -> (v: MetricValue)
        ensures
            v matches MetricValue::Meter(s) && {
                &&& final(self).count == old(self).count
                &&& final(self).birthstamp == old(self).birthstamp
                &&& old(self).clock.last_time() <= final(self).clock.last_time()
                &&& C::observed(old(self).clock, final(self).clock, final(self).clock.last_time())
                &&& StdMeter::caught_up(*old(self), *final(self), final(self).clock.last_time() as int)
                &&& s.count == final(self).count
                &&& s.rates@[0] == final(self).m01.rate
                &&& s.rates@[1] == final(self).m05.rate
                &&& s.rates@[2] == final(self).m15.rate
                &&& s.mean as int == mean_rate_spec(
                    old(self).count as int,
                    old(self).birthstamp as int,
                    final(self).clock.last_time() as int,
                )
            },
    {
        MetricValue::Meter(self.snapshot())
    }
}

impl<C: Clock> Meter for StdMeter<C> {
    fn count(&self) -> (r: u64)
        ensures
            r == self.count,
    {
        self.count
    }

    fn mean_rate(&mut self) -> (r: u128)
        ensures
            final(self).count == old(self).count,
            final(self).birthstamp == old(self).birthstamp,
            final(self).prev == old(self).prev,
            final(self).m01 == old(self).m01,
            final(self).m05 == old(self).m05,
            final(self).m15 == old(self).m15,
            old(self).clock.last_time() <= final(self).clock.last_time(),
            old(self).count == 0 ==> final(self).clock == old(self).clock,
            old(self).count != 0 ==> C::observed(
                old(self).clock,
                final(self).clock,
                final(self).clock.last_time(),
            ),
            r as int == mean_rate_spec(
                old(self).count as int,
                old(self).birthstamp as int,
                final(self).clock.last_time() as int,
            ),
    {
        let count = self.count;
        if count == 0 {
            return 0;
        }
        let now = self.clock.now();
        let elapsed = now - self.birthstamp;
        if elapsed == 0 {
            return 0;
        }
        proof {
            lemma_count_scale_fits(count as int);
        }
        (count as u128) * (SCALE as u128) / (elapsed as u128)
    }

    fn m01rate(&mut self) -> (r: u128)
        ensures
            final(self).count == old(self).count,
            final(self).birthstamp == old(self).birthstamp,
            old(self).clock.last_time() <= final(self).clock.last_time(),
            C::observed(old(self).clock, final(self).clock, final(self).clock.last_time()),
            StdMeter::caught_up(*old(self), *final(self), final(self).clock.last_time() as int),
            r == final(self).m01.rate,
    {
        self.tick_maybe();
        self.m01.rate()
    }

    fn m05rate(&mut self) -> (r: u128)
        ensures
            final(self).count == old(self).count,
            final(self).birthstamp == old(self).birthstamp,
            old(self).clock.last_time() <= final(self).clock.last_time(),
            C::observed(old(self).clock, final(self).clock, final(self).clock.last_time()),
            StdMeter::caught_up(*old(self), *final(self), final(self).clock.last_time() as int),
            r == final(self).m05.rate,
    {
        self.tick_maybe();
        self.m05.rate()
    }

    fn m15rate(&mut self) -> (r: u128)
        ensures
            final(self).count == old(self).count,
            final(self).birthstamp == old(self).birthstamp,
            old(self).clock.last_time() <= final(self).clock.last_time(),
            C::observed(old(self).clock, final(self).clock, final(self).clock.last_time()),
            StdMeter::caught_up(*old(self), *final(self), final(self).clock.last_time() as int),
            r == final(self).m15.rate,
    {
        self.tick_maybe();
        self.m15.rate()
    }

    /// Mark `value` events: run the tick catch-up, add to the count and
    /// feed each estimator's accumulator.
    fn mark(&mut self, value: u64)
        ensures
            final(self).birthstamp == old(self).birthstamp,
            old(self).clock.last_time() <= final(self).clock.last_time(),
            C::observed(old(self).clock, final(self).clock, final(self).clock.last_time()),
            final(self).count as int == wrap_add_u64(old(self).count as int, value as int),
            final(self).prev as int == caught_up_prev(
                old(self).prev as int,
                final(self).clock.last_time() as int,
            ),
            ({
                let n = ticks_owed(
                    old(self).prev as int,
                    final(self).clock.last_time() as int,
                ) as nat;
                &&& ewma_marked(old(self).m01, final(self).m01, n, value as int)
                &&& ewma_marked(old(self).m05, final(self).m05, n, value as int)
                &&& ewma_marked(old(self).m15, final(self).m15, n, value as int)
            }),
    {
        self.tick_maybe();
        self.count = self.count.wrapping_add(value);
        self.m01.update(value);
        self.m05.update(value);
        self.m15.update(value);
    }
}

/// What one `mark` call guarantees when its clock observation owed no
/// ticks: the count grows by the value and each estimator only accumulates.
pub open spec fn marked_no_tick<C: Clock>(pre: StdMeter<C>, post: StdMeter<C>, value: u64) -> bool {
    &&& post.count as int == wrap_add_u64(pre.count as int, value as int)
    &&& ewma_marked(pre.m01, post.m01, 0, value as int)
    &&& ewma_marked(pre.m05, post.m05, 0, value as int)
    &&& ewma_marked(pre.m15, post.m15, 0, value as int)
}

/// The exact sum of a sequence of marked values.
pub open spec fn sum_values(vs: Seq<u64>) -> int
    decreases vs.len(),
{
    if vs.len() == 0 {
        0
    } else {
        sum_values(vs.drop_last()) + vs.last()
    }
}

/// A run of `mark` calls with no elapsed time: `states` begins at a fresh
/// meter (count zero, no rate yet), and each step is one `mark` of the
/// corresponding value whose clock observation owed no ticks.
pub open spec fn marks_without_time<C: Clock>(states: Seq<StdMeter<C>>, vs: Seq<u64>) -> bool {
    &&& states.len() == vs.len() + 1
    &&& states[0].count == 0
    &&& states[0].m01.rate == 0 && states[0].m05.rate == 0 && states[0].m15.rate == 0
    &&& forall|i: int|
        0 <= i < vs.len() ==> marked_no_tick(#[trigger] states[i], states[i + 1], vs[i])
}

/// No value is negative, so a partial sum never exceeds the whole.
proof fn lemma_sum_values_bounds(vs: Seq<u64>)
    ensures
        0 <= sum_values(vs),
        vs.len() > 0 ==> sum_values(vs.drop_last()) <= sum_values(vs),
    decreases vs.len(),
{
    if vs.len() > 0 {
        lemma_sum_values_bounds(vs.drop_last());
    }
}

/// Marks with no elapsed time: for every sequence of `mark` calls during
/// which the clock never left the first tick interval, the final count is
/// the exact sum of the marked values and all three rates are still zero —
/// so every rate getter returns zero, no tick having occurred.
pub proof fn lemma_marks_without_time<C: Clock>(states: Seq<StdMeter<C>>, vs: Seq<u64>)
    requires
        marks_without_time(states, vs),
        sum_values(vs) <= u64::MAX,
    ensures
        states.last().count as int == sum_values(vs),
        states.last().m01.rate == 0,
        states.last().m05.rate == 0,
        states.last().m15.rate == 0,
    decreases vs.len(),
{
    if vs.len() == 0 {
        assert(states.last() == states[0]);
    } else {
        let shorter = states.drop_last();
        let vsh = vs.drop_last();
        lemma_sum_values_bounds(vs);
        assert(marks_without_time(shorter, vsh)) by {
            assert(shorter[0] == states[0]);
            assert forall|i: int|
                0 <= i < vsh.len() implies marked_no_tick(
                #[trigger] shorter[i],
                shorter[i + 1],
                vsh[i],
            ) by {
                assert(shorter[i] == states[i]);
                assert(shorter[i + 1] == states[i + 1]);
                assert(vsh[i] == vs[i]);
            };
        };
        lemma_marks_without_time(shorter, vsh);
        let pre = states[states.len() - 2];
        let post = states.last();
        assert(pre == shorter.last());
        assert(marked_no_tick(pre, post, vs.last())) by {
            assert(marked_no_tick(states[vs.len() - 1], states[vs.len() as int], vs[vs.len() - 1]));
        };
        assert(pre.count as int + vs.last() <= u64::MAX);
        assert(post.count as int == wrap_add_u64(pre.count as int, vs.last() as int));
        assert(wrap_add_u64(pre.count as int, vs.last() as int) == pre.count as int
            + vs.last()) by {
            vstd::arithmetic::div_mod::lemma_small_mod(
                (pre.count + vs.last()) as nat,
                u64_modulus() as nat,
            );
        };
    }
}

/// Tick catch-up is idempotent: one winner's catch-up at time `now`
/// accounts for exactly the owed `(now - prev) / 5` ticks and advances the
/// tick timestamp to the latest boundary, after which a catch-up at the
/// same time owes zero further ticks. Concurrent callers that observe the
/// advanced timestamp therefore replay nothing: the total number of ticks
/// applied for an elapsed interval is exact, never more and never fewer.
pub proof fn lemma_catch_up_idempotent(prev: int, now: int)
    requires
        0 <= prev <= now,
    ensures
        now - prev > TICK_INTERVAL_SECONDS ==> ticks_owed(prev, now) == (now - prev) / (
        TICK_INTERVAL_SECONDS as int),
        now - prev <= TICK_INTERVAL_SECONDS ==> ticks_owed(prev, now) == 0,
        ticks_owed(caught_up_prev(prev, now), now) == 0,
        caught_up_prev(caught_up_prev(prev, now), now) == caught_up_prev(prev, now),
{
    if now - prev > TICK_INTERVAL_SECONDS {
        let e = now - prev;
        assert(0 <= e % (TICK_INTERVAL_SECONDS as int) < TICK_INTERVAL_SECONDS);
    }
}

} // verus!
