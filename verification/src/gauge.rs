//! A plain instantaneous level.

use vstd::prelude::*;
use crate::metric::{Metric, MetricValue};

verus! {

/// A gauge: a single level that is overwritten at will.
pub struct Gauge {
    /// The current level.
    pub value: i64,
}

impl Gauge {
    /// A gauge starting at zero.
    pub fn new() -> (g: Gauge)
        ensures
            g.value == 0,
    {
        Gauge { value: 0 }
    }

    /// Overwrite the level.
    pub fn set(&mut self, v: i64)
        ensures
            final(self).value == v,
    {
        self.value = v;
    }

    /// The current level.
    pub fn value(&self) -> (v: i64)
        ensures
            v == self.value,
    {
        self.value
    }
}

impl Metric for Gauge {
    open spec fn metric_wf(&self) -> bool {
        true
    }

    fn export_metric(&mut self) -> (v: MetricValue)
        ensures
            v == MetricValue::Gauge(old(self).value),
            *final(self) == *old(self),
    {
        MetricValue::Gauge(self.value)
    }
}

} // verus!
