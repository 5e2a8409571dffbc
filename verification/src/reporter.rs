//! The periodic export pipeline: turning exported readings into wire lines,
//! and the connection-recovery rule the sender follows across intervals.

use vstd::prelude::*;
use crate::carbon::{format_line, line_spec, dec_value, SPACE, NEWLINE};
use crate::ewma::SCALE;
use crate::metric::MetricValue;
use vstd::arithmetic::mul::lemma_mul_inequality;

verus! {

/// The sender's connection state as the reporter sees it.
#[derive(Clone, Copy, Debug, PartialEq, Eq, Structural)]
pub enum SenderStatus {
    /// No usable connection; the next send must open a fresh one.
    Disconnected,
    /// The connection from the last fully successful send is available.
    Connected,
}

/// What happened when a batch was handed to the sender.
#[derive(Clone, Copy, Debug, PartialEq, Eq, Structural)]
pub enum SendOutcome {
    /// Every line was written and flushed.
    Sent,
    /// No connection could be opened.
    ConnectFailed,
    /// The connection broke while writing; the batch is dropped.
    WriteFailed,
}

/// Whether the next interval must open a fresh connection before writing.
pub open spec fn spec_needs_connect(s: SenderStatus) -> bool {
    s is Disconnected
}

/// The connection state after a send attempt: only a fully successful write
/// leaves a connection to reuse; any failure discards it.
pub open spec fn spec_next_status(s: SenderStatus, o: SendOutcome) -> SenderStatus {
    match o {
        SendOutcome::Sent => SenderStatus::Connected,
        SendOutcome::ConnectFailed => SenderStatus::Disconnected,
        SendOutcome::WriteFailed => SenderStatus::Disconnected,
    }
}

/// Whether the next interval must open a fresh connection before writing.
pub fn needs_connect(s: SenderStatus) -> (r: bool)
    ensures
        r == spec_needs_connect(s),
{
    matches!(s, SenderStatus::Disconnected)
}

/// Advance the sender's state by one send attempt's outcome.
pub fn next_status(s: SenderStatus, o: SendOutcome) -> (r: SenderStatus)
    ensures
        r == spec_next_status(s, o),
{
    match o {
        SendOutcome::Sent => SenderStatus::Connected,
        SendOutcome::ConnectFailed => SenderStatus::Disconnected,
        SendOutcome::WriteFailed => SenderStatus::Disconnected,
    }
}

/// Sender failure recovery: whatever state a send attempt started from, a
/// write failure leaves the sender disconnected, so the next interval opens
/// a fresh connection instead of reusing the failed one.
pub proof fn lemma_write_failure_forces_reconnect(s: SenderStatus)
    ensures
        spec_next_status(s, SendOutcome::WriteFailed) == SenderStatus::Disconnected,
        spec_needs_connect(spec_next_status(s, SendOutcome::WriteFailed)),
{
}

/// The path suffix for a meter's event count.
pub open spec fn suffix_count() -> Seq<u8> {
    // ".count"
    seq![46u8, 99u8, 111u8, 117u8, 110u8, 116u8]
}

/// The path suffix for a meter's mean rate.
pub open spec fn suffix_mean() -> Seq<u8> {
    // ".meanRate"
    seq![46u8, 109u8, 101u8, 97u8, 110u8, 82u8, 97u8, 116u8, 101u8]
}

/// The path suffix for the one-minute rate.
pub open spec fn suffix_m1() -> Seq<u8> {
    // ".m1"
    seq![46u8, 109u8, 49u8]
}

/// The path suffix for the five-minute rate.
pub open spec fn suffix_m5() -> Seq<u8> {
    // ".m5"
    seq![46u8, 109u8, 53u8]
}

/// The path suffix for the fifteen-minute rate.
pub open spec fn suffix_m15() -> Seq<u8> {
    // ".m15"
    seq![46u8, 109u8, 49u8, 53u8]
}

/// A gauge's wire line: as `line_spec`, but with a sign for a negative
/// level.
pub open spec fn gauge_line_spec(p: Seq<u8>, v: int, t: nat) -> Seq<u8> {
    if v < 0 {
        p + seq![SPACE] + seq![45u8] + dec_value((-v) as nat * (SCALE as nat)) + seq![SPACE]
            + crate::carbon::dec_digits(t) + seq![NEWLINE]
    } else {
        line_spec(p, v as nat * (SCALE as nat), t)
    }
}

/// The wire lines one exported value produces, in order: one line for a
/// counter or gauge, and five for a meter (count, mean rate, then the one-,
/// five- and fifteen-minute rates, each under its suffixed path).
pub open spec fn lines_of(path: Seq<u8>, v: MetricValue, t: nat) -> Seq<Seq<u8>> {
    match v {
        MetricValue::Counter(c) => seq![line_spec(path, c as nat * (SCALE as nat), t)],
        MetricValue::Gauge(g) => seq![gauge_line_spec(path, g as int, t)],
        MetricValue::Meter(s) => seq![
            line_spec(path + suffix_count(), s.count as nat * (SCALE as nat), t),
            line_spec(path + suffix_mean(), s.mean as nat, t),
            line_spec(path + suffix_m1(), s.rates@[0] as nat, t),
            line_spec(path + suffix_m5(), s.rates@[1] as nat, t),
            line_spec(path + suffix_m15(), s.rates@[2] as nat, t),
        ],
    }
}

/// The whole batch: each entry's lines, in entry order.
pub open spec fn batch_spec(entries: Seq<(Vec<u8>, MetricValue)>, t: nat) -> Seq<Seq<u8>>
    decreases entries.len(),
{
    if entries.len() == 0 {
        Seq::empty()
    } else {
        lines_of(entries[0].0@, entries[0].1, t) + batch_spec(entries.drop_first(), t)
    }
}

/// The views of a sequence of byte vectors.
pub open spec fn views(s: Seq<Vec<u8>>) -> Seq<Seq<u8>> {
    s.map_values(|v: Vec<u8>| v@)
}

/// Extending a batch by one entry appends exactly that entry's lines.
proof fn lemma_batch_snoc(entries: Seq<(Vec<u8>, MetricValue)>, i: int, t: nat)
    requires
        0 <= i < entries.len(),
    ensures
        batch_spec(entries.take(i + 1), t) == batch_spec(entries.take(i), t) + lines_of(
            entries[i].0@,
            entries[i].1,
            t,
        ),
    decreases i,
{
    let s1 = entries.take(i + 1);
    if i == 0 {
        assert(s1.drop_first() =~= entries.take(0));
        assert(batch_spec(entries.take(0), t) =~= Seq::<Seq<u8>>::empty());
        assert(batch_spec(s1, t) =~= batch_spec(entries.take(0), t) + lines_of(
            entries[0].0@,
            entries[0].1,
            t,
        ));
    } else {
        lemma_batch_snoc(entries.drop_first(), i - 1, t);
        assert(s1.drop_first() =~= entries.drop_first().take(i));
        assert(entries.take(i).drop_first() =~= entries.drop_first().take(i - 1));
        assert(s1[0] == entries[0]);
        assert(entries.take(i)[0] == entries[0]);
        assert(entries.drop_first()[i - 1] == entries[i]);
        assert(batch_spec(s1, t) == lines_of(entries[0].0@, entries[0].1, t) + batch_spec(
            entries.drop_first().take(i),
            t,
        ));
        assert(batch_spec(entries.take(i + 1), t) =~= batch_spec(entries.take(i), t)
            + lines_of(entries[i].0@, entries[i].1, t));
    }
}

/// `base` followed by `suffix`, as one path.
fn joined(base: &Vec<u8>, suffix: &Vec<u8>) -> (r: Vec<u8>)
    ensures
        r@ == base@ + suffix@,
{
    let mut out: Vec<u8> = Vec::new();
    let n = base.len();
    let mut i: usize = 0;
    while i < n
        invariant
            i <= n,
            n == base@.len(),
            out@ == base@.subrange(0, i as int),
        decreases n - i,
    {
        let b = base[i];
        out.push(b);
        proof {
            assert(out@ =~= base@.subrange(0, i as int + 1));
        }
        i = i + 1;
    }
    let m = suffix.len();
    let mut j: usize = 0;
    while j < m
        invariant
            j <= m,
            m == suffix@.len(),
            out@ == base@ + suffix@.subrange(0, j as int),
        decreases m - j,
    {
        let b = suffix[j];
        out.push(b);
        proof {
            assert(out@ =~= base@ + suffix@.subrange(0, j as int + 1));
        }
        j = j + 1;
    }
    proof {
        assert(out@ =~= base@ + suffix@);
    }
    out
}

/// `n` whole events as a fixed-point nanounit value.
fn to_nanos(n: u64) -> (r: u128)
    ensures
        r as int == n as int * (SCALE as int),
{
    proof {
        lemma_mul_inequality(n as int, u64::MAX as int, SCALE as int);
        vstd::arithmetic::mul::lemma_mul_nonnegative(n as int, SCALE as int);
    }
    (n as u128) * (SCALE as u128)
}

/// The wire lines for one exported value: one line for a counter or gauge,
/// five suffixed lines for a meter.
pub fn metric_lines(path: &Vec<u8>, v: &MetricValue, timestamp: u64) -> (out: Vec<Vec<u8>>)
    ensures
        views(out@) == lines_of(path@, *v, timestamp as nat),
{
    let mut out: Vec<Vec<u8>> = Vec::new();
    match v {
        MetricValue::Counter(c) => {
            out.push(format_line(path, to_nanos(*c), timestamp));
        },
        MetricValue::Gauge(g) => {
            if *g < 0 {
                let mag: u64 = if *g == i64::MIN {
                    9_223_372_036_854_775_808u64
                } else {
                    (-*g) as u64
                };
                let mut line: Vec<u8> = Vec::new();
                let n = path.len();
                let mut i: usize = 0;
                while i < n
                    invariant
                        i <= n,
                        n == path@.len(),
                        line@ == path@.subrange(0, i as int),
                    decreases n - i,
                {
                    let b = path[i];
                    line.push(b);
                    proof {
                        assert(line@ =~= path@.subrange(0, i as int + 1));
                    }
                    i = i + 1;
                }
                proof {
                    assert(line@ =~= path@);
                }
                line.push(SPACE);
                line.push(45);
                let rest = format_line(&Vec::new(), to_nanos(mag), timestamp);
                let m = rest.len();
                let mut j: usize = 1;
                proof {
                    assert(rest@ == line_spec(Seq::<u8>::empty(), mag as nat * (
                    SCALE as nat), timestamp as nat));
                    assert(rest@[0] == SPACE);
                }
                while j < m
                    invariant
                        1 <= j <= m,
                        m == rest@.len(),
                        line@ == path@ + seq![SPACE] + seq![45u8] + rest@.subrange(1, j as int),
                    decreases m - j,
                {
                    let b = rest[j];
                    line.push(b);
                    proof {
                        assert(line@ =~= path@ + seq![SPACE] + seq![45u8] + rest@.subrange(
                            1,
                            j as int + 1,
                        ));
                    }
                    j = j + 1;
                }
                proof {
                    assert(rest@.subrange(1, m as int) =~= dec_value(
                        mag as nat * (SCALE as nat),
                    ) + seq![SPACE] + crate::carbon::dec_digits(timestamp as nat) + seq![
                        NEWLINE,
                    ]);
                    assert(line@ =~= gauge_line_spec(path@, *g as int, timestamp as nat));
                }
                out.push(line);
            } else {
                out.push(format_line(path, to_nanos((*g) as u64), timestamp));
            }
        },
        MetricValue::Meter(s) => {
            let p0 = joined(path, &suffix_count_vec());
            out.push(format_line(&p0, to_nanos(s.count), timestamp));
            let p1 = joined(path, &suffix_mean_vec());
            out.push(format_line(&p1, s.mean, timestamp));
            let p2 = joined(path, &suffix_m1_vec());
            out.push(format_line(&p2, s.rates[0], timestamp));
            let p3 = joined(path, &suffix_m5_vec());
            out.push(format_line(&p3, s.rates[1], timestamp));
            let p4 = joined(path, &suffix_m15_vec());
            out.push(format_line(&p4, s.rates[2], timestamp));
        },
    }
    proof {
        assert(views(out@) =~= lines_of(path@, *v, timestamp as nat));
    }
    out
}

/// The ".count" suffix as bytes.
fn suffix_count_vec() -> (r: Vec<u8>)
    ensures
        r@ == suffix_count(),
{
    let mut v: Vec<u8> = Vec::new();
    v.push(46);
    v.push(99);
    v.push(111);
    v.push(117);
    v.push(110);
    v.push(116);
    proof {
        assert(v@ =~= suffix_count());
    }
    v
}

/// The ".meanRate" suffix as bytes.
fn suffix_mean_vec() -> (r: Vec<u8>)
    ensures
        r@ == suffix_mean(),
{
    let mut v: Vec<u8> = Vec::new();
    v.push(46);
    v.push(109);
    v.push(101);
    v.push(97);
    v.push(110);
    v.push(82);
    v.push(97);
    v.push(116);
    v.push(101);
    proof {
        assert(v@ =~= suffix_mean());
    }
    v
}

/// The ".m1" suffix as bytes.
fn suffix_m1_vec() -> (r: Vec<u8>)
    ensures
        r@ == suffix_m1(),
{
    let mut v: Vec<u8> = Vec::new();
    v.push(46);
    v.push(109);
    v.push(49);
    proof {
        assert(v@ =~= suffix_m1());
    }
    v
}

/// The ".m5" suffix as bytes.
fn suffix_m5_vec() -> (r: Vec<u8>)
    ensures
        r@ == suffix_m5(),
{
    let mut v: Vec<u8> = Vec::new();
    v.push(46);
    v.push(109);
    v.push(53);
    proof {
        assert(v@ =~= suffix_m5());
    }
    v
}

/// The ".m15" suffix as bytes.
fn suffix_m15_vec() -> (r: Vec<u8>)
    ensures
        r@ == suffix_m15(),
{
    let mut v: Vec<u8> = Vec::new();
    v.push(46);
    v.push(109);
    v.push(49);
    v.push(53);
    proof {
        assert(v@ =~= suffix_m15());
    }
    v
}

/// Format a whole batch: every entry's lines, in entry order, all bearing
/// the same timestamp.
pub fn format_batch(entries: &Vec<(Vec<u8>, MetricValue)>, timestamp: u64) -> (out: Vec<
    Vec<u8>,
>)
    ensures
        views(out@) == batch_spec(entries@, timestamp as nat),
{
    let mut out: Vec<Vec<u8>> = Vec::new();
    let n = entries.len();
    let mut i: usize = 0;
    while i < n
        invariant
            i <= n,
            n == entries@.len(),
            views(out@) == batch_spec(entries@.take(i as int), timestamp as nat),
        decreases n - i,
    {
        let mut lines = metric_lines(&entries[i].0, &entries[i].1, timestamp);
        let m = lines.len();
        let ghost out_before = out@;
        let ghost lines_view = lines@;
        let mut j: usize = 0;
        while j < m
            invariant
                j <= m,
                m == lines_view.len(),
                lines@ =~= lines_view.subrange(j as int, m as int),
                out@ =~= out_before + lines_view.subrange(0, j as int),
            decreases m - j,
        {
            let line = lines.remove(0);
            proof {
                assert(line == lines_view[j as int]);
                assert(lines@ =~= lines_view.subrange(j as int + 1, m as int));
            }
            out.push(line);
            proof {
                assert(out@ =~= out_before + lines_view.subrange(0, j as int + 1));
            }
            j = j + 1;
        }
        proof {
            assert(lines_view.subrange(0, m as int) =~= lines_view);
            lemma_batch_snoc(entries@, i as int, timestamp as nat);
            assert(views(out@) =~= batch_spec(entries@.take(i as int + 1), timestamp as nat));
        }
        i = i + 1;
    }
    proof {
        assert(entries@.take(n as int) =~= entries@);
    }
    out
}

} // verus!
