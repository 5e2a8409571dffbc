//! An in-process instrumentation library: application code records events
//! into named metrics, and a periodic reporter exports them to a remote
//! collector over the plaintext carbon line protocol.
//!
//! Rates are held in fixed point throughout: a rate of one event per second
//! is `ewma::SCALE` nanounits, so the decay recurrence, the mean rate and
//! the wire format are all exact integer computations.

pub mod carbon;
pub mod clock;
pub mod counter;
pub mod ewma;
pub mod gauge;
pub mod meter;
pub mod metric;
pub mod registry;
pub mod reporter;

pub use clock::{Clock, ScriptedClock, SystemClock};
pub use counter::Counter;
pub use ewma::EWMA;
pub use gauge::Gauge;
pub use meter::{Meter, MeterSnapshot, StdMeter};
pub use metric::{Metric, MetricValue};
pub use registry::{MetricEntry, Registry, RegistryError};
pub use reporter::{SendOutcome, SenderStatus};
