//! Time sources. The tick catch-up in the meter relies on the observed time
//! never going backward, so every clock here restores monotonicity itself.

use vstd::prelude::*;

verus! {

/// A source of the current time in whole seconds. Values must be
/// monotonically non-decreasing across calls: the meter's tick catch-up
/// counts elapsed intervals and would double-count if time moved back.
pub trait Clock: Sized {
    /// The last value this clock returned (its floor before any call).
    spec fn last_time(&self) -> nat;

    /// The transition a single observation makes: how the clock after one
    /// `now` call relates to the clock before it and to the returned time.
    /// Each implementation defines it, so a caller holding a concrete clock
    /// can track the clock's state through every operation that observes it.
    spec fn observed(pre: Self, post: Self, t: nat) -> bool;

    /// The current time in whole seconds.
    fn now(&mut self) -> (t: u64)
        ensures
            old(self).last_time() <= t as nat,
            final(self).last_time() == t as nat,
            Self::observed(*old(self), *final(self), t as nat),
    ;
}

/// Relies on time::OffsetDateTime::now_utc and unix_timestamp: the wall
/// clock as whole seconds since the Unix epoch. Nothing is promised of the
/// value; wall clocks can jump, and the caller restores monotonicity.
/// Known limit: now_utc converts through the time crate's date arithmetic,
/// which panics if the host clock lies outside that crate's representable
/// range (past the year 9999); no reachable host state is excluded here.
#[verifier::external_body]
fn wall_clock_seconds() -> i64 {
    time::OffsetDateTime::now_utc().unix_timestamp()
}

/// The default clock: wall-clock time, clamped so that it never decreases
/// and never fails (a backward jump repeats the last-known-good value).
pub struct SystemClock {
    /// Highest time returned so far, in whole seconds.
    pub last: u64,
}

impl SystemClock {
    /// A fresh wall clock.
    pub fn new() -> (c: SystemClock)
        ensures
            c.last == 0,
    {
        SystemClock { last: 0 }
    }
}

impl Clock for SystemClock {
    open spec fn last_time(&self) -> nat {
        self.last as nat
    }

    /// All that holds of a wall-clock observation: the returned time is the
    /// clock's new floor and never went backward.
    open spec fn observed(pre: Self, post: Self, t: nat) -> bool {
        pre.last <= t && post.last as nat == t
    }

    fn now(&mut self) -> (t: u64) {
        let raw = wall_clock_seconds();
        let cur: u64 = if raw >= 0 {
            raw as u64
        } else {
            0
        };
        if cur > self.last {
            self.last = cur;
        }
        self.last
    }
}

/// An injectable clock for tests: hands out a fixed list of times in order,
/// repeating the last one forever, clamped to be non-decreasing.
pub struct ScriptedClock {
    /// The times to hand out, in call order.
    pub times: Vec<u64>,
    /// Number of calls made so far.
    pub idx: usize,
    /// Highest time returned so far.
    pub last: u64,
}

impl ScriptedClock {
    /// The time the script holds for call number `i`.
    pub open spec fn script_value(self, i: int) -> u64 {
        if 0 <= i < self.times@.len() {
            self.times@[i]
        } else if self.times@.len() > 0 {
            self.times@[self.times@.len() - 1]
        } else {
            0u64
        }
    }

    /// A clock that will answer with `times`, in order.
    pub fn new(times: Vec<u64>) -> (c: ScriptedClock)
        ensures
            c.times@ == times@,
            c.idx == 0,
            c.last == 0,
    {
        ScriptedClock { times, idx: 0, last: 0 }
    }

    /// How many times `now` has been called.
    pub fn calls(&self) -> (n: usize)
        ensures
            n == self.idx,
    {
        self.idx
    }
}

impl Clock for ScriptedClock {
    open spec fn last_time(&self) -> nat {
        self.last as nat
    }

    /// A scripted observation is fully determined: the script is kept, the
    /// call counter advances by one, and the returned time is the scripted
    /// value clamped to be non-decreasing.
    open spec fn observed(pre: Self, post: Self, t: nat) -> bool {
        &&& post.times@ == pre.times@
        &&& post.idx as int == (if pre.idx < usize::MAX {
            pre.idx + 1
        } else {
            pre.idx as int
        })
        &&& t == vstd::math::max(
            pre.script_value(pre.idx as int) as int,
            pre.last as int,
        ) as nat
        &&& post.last as nat == t
    }

    fn now(&mut self) -> (t: u64)
    {
        let n = self.times.len();
        let raw: u64 = if self.idx < n {
            self.times[self.idx]
        } else if n > 0 {
            self.times[n - 1]
        } else {
            0
        };
        if raw > self.last {
            self.last = raw;
        }
        if self.idx < usize::MAX {
            self.idx = self.idx + 1;
        }
        self.last
    }
}

} // verus!
