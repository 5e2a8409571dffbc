//! The process-local directory of named, exportable metrics.

use vstd::prelude::*;
use crate::clock::Clock;
use crate::counter::Counter;
use crate::gauge::Gauge;
use crate::meter::{StdMeter, mean_rate_spec};
use crate::metric::{Metric, MetricValue};

verus! {

/// Why a registration was refused. Registering a name that is already taken
/// is rejected rather than overwriting: a silent overwrite would strand
/// concurrent holders of the old instance.
#[derive(Clone, Copy, Debug, PartialEq, Eq, Structural)]
pub enum RegistryError {
    /// A metric with that name is already registered.
    NameAlreadyRegistered,
}

/// One registered metric instance.
pub enum MetricEntry<C: Clock> {
    /// A plain count.
    Counter(Counter),
    /// A plain level.
    Gauge(Gauge),
    /// A rate meter.
    Meter(StdMeter<C>),
}

/// What `export` does: counters and gauges are read unchanged; a meter runs
/// its tick catch-up and yields a snapshot taken at its clock's new time.
pub open spec fn exported<C: Clock>(
    pre: MetricEntry<C>,
    post: MetricEntry<C>,
    v: MetricValue,
) -> bool {
    match pre {
        MetricEntry::Counter(c) => post == pre && v == MetricValue::Counter(c.value),
        MetricEntry::Gauge(g) => post == pre && v == MetricValue::Gauge(g.value),
        MetricEntry::Meter(m) => match post {
            MetricEntry::Meter(m2) => {
                &&& m2.count == m.count
                &&& m2.birthstamp == m.birthstamp
                &&& m.clock.last_time() <= m2.clock.last_time()
                &&& C::observed(m.clock, m2.clock, m2.clock.last_time())
                &&& StdMeter::caught_up(m, m2, m2.clock.last_time() as int)
                &&& match v {
                    MetricValue::Meter(s) => {
                        &&& s.count == m2.count
                        &&& s.rates@[0] == m2.m01.rate
                        &&& s.rates@[1] == m2.m05.rate
                        &&& s.rates@[2] == m2.m15.rate
                        &&& s.mean as int == mean_rate_spec(
                            m.count as int,
                            m.birthstamp as int,
                            m2.clock.last_time() as int,
                        )
                    },
                    _ => false,
                }
            },
            _ => false,
        },
    }
}

impl<C: Clock> MetricEntry<C> {
    /// Internal invariant: the held metric is well formed.
    pub open spec fn wf(self) -> bool {
        match self {
            MetricEntry::Meter(m) => m.wf(),
            _ => true,
        }
    }

    /// A snapshot of the held metric's current value.
    pub fn export(&mut self) -> (v: MetricValue)
        requires
            old(self).wf(),
        ensures
            final(self).wf(),
            exported(*old(self), *final(self), v),
    {
        match self {
            MetricEntry::Counter(c) => c.export_metric(),
            MetricEntry::Gauge(g) => g.export_metric(),
            MetricEntry::Meter(m) => m.export_metric(),
        }
    }
}

/// A mapping from metric name to metric instance. Names are unique;
/// re-registering a taken name is rejected with `NameAlreadyRegistered`.
pub struct Registry<C: Clock> {
    /// The registered metrics, in registration order.
    pub entries: Vec<(String, MetricEntry<C>)>,
}

impl<C: Clock> Registry<C> {
    /// Internal invariant: names are pairwise distinct and every entry is
    /// well formed.
    pub open spec fn wf(self) -> bool {
        &&& forall|i: int, j: int|
            0 <= i < j < self.entries@.len() ==> (#[trigger] self.entries@[i]).0@ != (
            #[trigger] self.entries@[j]).0@
        &&& forall|i: int|
            0 <= i < self.entries@.len() ==> (#[trigger] self.entries@[i]).1.wf()
    }

    /// Whether some entry bears this name.
    pub open spec fn spec_contains(self, name: Seq<char>) -> bool {
        exists|i: int|
            0 <= i < self.entries@.len() && (#[trigger] self.entries@[i]).0@ == name
    }

    /// An empty registry.
    pub fn new() -> (r: Registry<C>)
        ensures
            r.wf(),
            r.entries@.len() == 0,
    {
        Registry { entries: Vec::new() }
    }

    /// How many metrics are registered.
    pub fn len(&self) -> (n: usize)
        ensures
            n == self.entries@.len(),
    {
        self.entries.len()
    }

    /// Register `metric` under `name`. Inserts if the name is free; rejects
    /// a taken name with `NameAlreadyRegistered`, leaving the registry
    /// unchanged in that case.
    pub fn register(&mut self, name: String, metric: MetricEntry<C>) -> (r: Result<
        (),
        RegistryError,
    >)
        requires
            old(self).wf(),
            metric.wf(),
        ensures
            final(self).wf(),
            old(self).spec_contains(name@) ==> r == Result::<(), RegistryError>::Err(
                RegistryError::NameAlreadyRegistered,
            ) && final(self).entries@ == old(self).entries@,
            !old(self).spec_contains(name@) ==> r == Result::<(), RegistryError>::Ok(())
                && final(self).entries@ == old(self).entries@.push((name, metric)),
    {
        let n = self.entries.len();
        let mut i: usize = 0;
        while i < n
            invariant
                old(self).wf(),
                self.entries@ == old(self).entries@,
                n == self.entries@.len(),
                i <= n,
                forall|k: int| 0 <= k < i ==> (#[trigger] self.entries@[k]).0@ != name@,
            decreases n - i,
        {
            if self.entries[i].0.eq(&name) {
                return Err(RegistryError::NameAlreadyRegistered);
            }
            i = i + 1;
        }
        self.entries.push((name, metric));
        proof {
            let oldseq = old(self).entries@;
            assert(self.entries@ == oldseq.push((name, metric)));
            assert(self.entries@[oldseq.len() as int].0@ == name@);
            assert forall|a: int, b: int|
                0 <= a < b < self.entries@.len() implies (#[trigger] self.entries@[a]).0@ != (
                #[trigger] self.entries@[b]).0@ by {
                if b == oldseq.len() as int {
                    assert(self.entries@[a] == oldseq[a]);
                    assert(oldseq[a].0@ != name@);
                } else {
                    assert(self.entries@[a] == oldseq[a]);
                    assert(self.entries@[b] == oldseq[b]);
                }
            };
            assert forall|k: int|
                0 <= k < self.entries@.len() implies (#[trigger] self.entries@[k]).1.wf() by {
                if k < oldseq.len() as int {
                    assert(self.entries@[k] == oldseq[k]);
                } else {
                    assert(self.entries@[k] == (name, metric));
                }
            };
        }
        Ok(())
    }

    /// The metric registered under `name`, if any.
    pub fn get(&self, name: &String) -> (r: Option<&MetricEntry<C>>)
        ensures
            match r {
                Some(e) => exists|i: int|
                    0 <= i < self.entries@.len() && (#[trigger] self.entries@[i]).0@ == name@
                        && *e == self.entries@[i].1,
                None => !self.spec_contains(name@),
            },
    {
        let n = self.entries.len();
        let mut i: usize = 0;
        while i < n
            invariant
                n == self.entries@.len(),
                i <= n,
                forall|k: int| 0 <= k < i ==> (#[trigger] self.entries@[k]).0@ != name@,
            decreases n - i,
        {
            if self.entries[i].0.eq(name) {
                return Some(&self.entries[i].1);
            }
            i = i + 1;
        }
        None
    }

    /// Remove the metric registered under `name`. Returns whether a metric
    /// was removed; the remaining entries keep their order.
    pub fn remove(&mut self, name: &String) -> (r: bool)
        requires
            old(self).wf(),
        ensures
            final(self).wf(),
            !old(self).spec_contains(name@) ==> !r && final(self).entries@ == old(
                self,
            ).entries@,
            old(self).spec_contains(name@) ==> r && exists|i: int|
                0 <= i < old(self).entries@.len() && (#[trigger] old(self).entries@[i]).0@
                    == name@ && final(self).entries@ == old(self).entries@.remove(i),
            !final(self).spec_contains(name@),
    {
        let n = self.entries.len();
        let mut i: usize = 0;
        while i < n
            invariant
                old(self).wf(),
                self.entries@ == old(self).entries@,
                n == self.entries@.len(),
                i <= n,
                forall|k: int| 0 <= k < i ==> (#[trigger] self.entries@[k]).0@ != name@,
            decreases n - i,
        {
            if self.entries[i].0.eq(name) {
                proof {
                    assert(old(self).entries@[i as int].0@ == name@);
                }
                self.entries.remove(i);
                proof {
                    let oldseq = old(self).entries@;
                    let idx = i as int;
                    oldseq.remove_ensures(idx);
                    assert(self.entries@ == oldseq.remove(idx));
                    assert forall|k: int|
                        0 <= k < self.entries@.len() implies #[trigger] self.entries@[k] == (
                        if k < idx {
                            oldseq[k]
                        } else {
                            oldseq[k + 1]
                        }) by {
                        if k < idx {
                            assert(oldseq.remove(idx)[k] == oldseq[k]);
                        } else {
                            assert(oldseq.remove(idx)[k] == oldseq[k + 1]);
                        }
                    };
                    assert forall|a: int, b: int|
                        0 <= a < b < self.entries@.len() implies (
                        #[trigger] self.entries@[a]).0@ != (#[trigger] self.entries@[b]).0@ by {
                        let a0: int = if a < idx { a } else { a + 1 };
                        let b0: int = if b < idx { b } else { b + 1 };
                        assert(self.entries@[a] == oldseq[a0]);
                        assert(self.entries@[b] == oldseq[b0]);
                    };
                    assert forall|k: int|
                        0 <= k < self.entries@.len() implies (
                        #[trigger] self.entries@[k]).1.wf() by {
                        let k0: int = if k < idx { k } else { k + 1 };
                        assert(self.entries@[k] == oldseq[k0]);
                    };
                    assert forall|k: int|
                        0 <= k < self.entries@.len() implies (
                        #[trigger] self.entries@[k]).0@ != name@ by {
                        if k >= idx {
                            assert(self.entries@[k] == oldseq[k + 1]);
                            assert(oldseq[idx].0@ == name@);
                        }
                    };
                    assert(0 <= idx < oldseq.len() && oldseq[idx].0@ == name@ && self.entries@
                        == oldseq.remove(idx));
                }
                return true;
            }
            i = i + 1;
        }
        false
    }

    /// Export every registered metric: one `(name, value)` pair per entry,
    /// in registration order. Meters run their tick catch-up as they are
    /// read.
    pub fn export_all(&mut self) -> (out: Vec<(String, MetricValue)>)
        requires
            old(self).wf(),
        ensures
            final(self).wf(),
            final(self).entries@.len() == old(self).entries@.len(),
            out@.len() == old(self).entries@.len(),
            forall|k: int|
                0 <= k < old(self).entries@.len() ==> (#[trigger] final(self).entries@[k]).0
                    == old(self).entries@[k].0,
            forall|k: int|
                0 <= k < old(self).entries@.len() ==> (#[trigger] out@[k]).0 == old(
                    self,
                ).entries@[k].0,
            forall|k: int|
                0 <= k < old(self).entries@.len() ==> exported(
                    old(self).entries@[k].1,
                    (#[trigger] final(self).entries@[k]).1,
                    out@[k].1,
                ),
    {
        let ghost pre = *self;
        let mut out: Vec<(String, MetricValue)> = Vec::new();
        let n = self.entries.len();
        let mut i: usize = 0;
        while i < n
            invariant
                n == pre.entries@.len(),
                self.entries@.len() == n,
                i <= n,
                out@.len() == i,
                forall|k: int|
                    0 <= k < n ==> (#[trigger] self.entries@[k]).0 == pre.entries@[k].0,
                forall|k: int|
                    i <= k < n ==> (#[trigger] self.entries@[k]).1 == pre.entries@[k].1,
                forall|k: int| 0 <= k < n ==> (#[trigger] self.entries@[k]).1.wf(),
                forall|k: int| 0 <= k < i ==> (#[trigger] out@[k]).0 == pre.entries@[k].0,
                forall|k: int|
                    0 <= k < i ==> exported(
                        pre.entries@[k].1,
                        (#[trigger] self.entries@[k]).1,
                        out@[k].1,
                    ),
                forall|a: int, b: int|
                    0 <= a < b < n ==> (#[trigger] self.entries@[a]).0@ != (
                    #[trigger] self.entries@[b]).0@,
            decreases n - i,
        {
            let (name, mut entry) = self.entries.remove(i);
            let value = entry.export();
            out.push((name.clone(), value));
            self.entries.insert(i, (name, entry));
            i = i + 1;
        }
        out
    }
}

} // verus!
