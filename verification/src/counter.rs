//! A plain monotonically increasing counter.

use vstd::prelude::*;
use crate::ewma::wrap_add_u64;
use crate::metric::{Metric, MetricValue};

verus! {

/// A counter: a single value that is only ever increased or cleared.
pub struct Counter {
    /// The current count.
    pub value: u64,
}

impl Counter {
    /// A counter starting at zero.
    pub fn new() -> (c: Counter)
        ensures
            c.value == 0,
    {
        Counter { value: 0 }
    }

    /// Add `n` to the count; wraps around on `u64` overflow.
    pub fn inc(&mut self, n: u64)
        ensures
            final(self).value as int == wrap_add_u64(old(self).value as int, n as int),
    {
        self.value = self.value.wrapping_add(n);
    }

    /// Reset the count to zero.
    pub fn clear(&mut self)
        ensures
            final(self).value == 0,
    {
        self.value = 0;
    }

    /// The current count.
    pub fn value(&self) -> (v: u64)
        ensures
            v == self.value,
    {
        self.value
    }
}

impl Metric for Counter {
    open spec fn metric_wf(&self) -> bool {
        true
    }

    fn export_metric(&mut self) -> (v: MetricValue)
        ensures
            v == MetricValue::Counter(old(self).value),
            *final(self) == *old(self),
    {
        MetricValue::Counter(self.value)
    }
}

} // verus!
