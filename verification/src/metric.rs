//! The export capability shared by every metric kind.

use vstd::prelude::*;
use crate::meter::MeterSnapshot;

verus! {

/// A single exported reading of a metric.
#[derive(Clone, Debug)]
pub enum MetricValue {
    /// A monotonically increasing count.
    Counter(u64),
    /// An instantaneous level.
    Gauge(i64),
    /// A point-in-time copy of a meter's readings.
    Meter(MeterSnapshot),
}

/// Anything that can produce a point-in-time value snapshot for export.
pub trait Metric: Sized {
    /// The internal invariant a value of the metric must keep.
    spec fn metric_wf(&self) -> bool;

    /// A snapshot of the metric's current value.
    fn export_metric(&mut self) -> (v: MetricValue)
        requires
            old(self).metric_wf(),
        ensures
            final(self).metric_wf(),
    ;
}

} // verus!
