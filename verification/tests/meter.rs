use metrics::clock::ScriptedClock;
use metrics::meter::Meter;
use metrics::StdMeter;

#[test]
fn zero() {
    let mut meter = StdMeter::new();

    assert_eq!(0, meter.count());

    assert!((0.0f64 - meter.mean_rate() as f64 / 1e9).abs() < 1e-3);

    assert!((0.0f64 - meter.m01rate() as f64 / 1e9).abs() < 1e-3);
    assert!((0.0f64 - meter.m05rate() as f64 / 1e9).abs() < 1e-3);
    assert!((0.0f64 - meter.m15rate() as f64 / 1e9).abs() < 1e-3);
}

#[test]
fn non_zero() {
    let clock = ScriptedClock::new(vec![0, 0, 10]);

    let mut meter = StdMeter::with(clock);

    meter.mark(1);
    meter.mark(2);

    assert_eq!(3, meter.count());

    assert!((0.3f64 - meter.mean_rate() as f64 / 1e9).abs() < 1e-3);

    assert!((0.1840f64 - meter.m01rate() as f64 / 1e9).abs() < 1e-3);
    assert!((0.1966f64 - meter.m05rate() as f64 / 1e9).abs() < 1e-3);
    assert!((0.1988f64 - meter.m15rate() as f64 / 1e9).abs() < 1e-3);

    assert_eq!(7, meter.clock.calls());
}

#[test]
fn marks_without_elapsed_time_sum_exactly() {
    let clock = ScriptedClock::new(vec![0]);
    let mut meter = StdMeter::with(clock);

    meter.mark(1);
    meter.mark(2);
    meter.mark(3);

    assert_eq!(6, meter.count());
    assert_eq!(0, meter.m01rate());
    assert_eq!(0, meter.m05rate());
    assert_eq!(0, meter.m15rate());
    assert_eq!(0, meter.mean_rate());
}

#[test]
fn catch_up_applies_owed_ticks_once() {
    // Two tick intervals elapse at once; the catch-up replays both ticks,
    // and a second getter at the same time replays none.
    let clock = ScriptedClock::new(vec![0, 0, 12]);
    let mut meter = StdMeter::with(clock);

    meter.mark(10);
    let first = meter.m01rate();
    // 10 events over one 5 s interval, then one empty interval of decay.
    assert_eq!(first, {
        let after_first_tick: u128 = 10 * 1_000_000_000 / 5;
        after_first_tick - 79_955_585 * after_first_tick / 1_000_000_000
    });
    let second = meter.m01rate();
    assert_eq!(first, second);
}

#[test]
fn mean_rate_counts_whole_life() {
    let clock = ScriptedClock::new(vec![0, 0, 20]);
    let mut meter = StdMeter::with(clock);
    meter.mark(10);
    // 10 events in 20 seconds.
    assert_eq!(meter.mean_rate(), 500_000_000);
}

#[test]
fn snapshot_copies_all_facets() {
    let clock = ScriptedClock::new(vec![0, 0, 10]);
    let mut meter = StdMeter::with(clock);
    meter.mark(5);
    let snap = meter.snapshot();
    assert_eq!(snap.count, 5);
    assert_eq!(snap.mean, 500_000_000);
    // One tick of 5 events, one empty decay tick, for each window.
    let tick1: u128 = 5 * 1_000_000_000 / 5;
    assert_eq!(snap.rates[0], tick1 - 79_955_585 * tick1 / 1_000_000_000);
    assert_eq!(snap.rates[1], tick1 - 16_528_546 * tick1 / 1_000_000_000);
    assert_eq!(snap.rates[2], tick1 - 5_540_152 * tick1 / 1_000_000_000);
}
