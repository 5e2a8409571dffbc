use metrics::EWMA;

#[test]
fn rate_is_zero_before_first_tick() {
    let mut e = EWMA::for_window(1);
    assert_eq!(e.rate(), 0);
    e.update(100);
    assert_eq!(e.rate(), 0);
}

#[test]
fn first_tick_adopts_instant_rate() {
    let mut e = EWMA::for_window(1);
    e.update(1);
    e.tick();
    // 1 event over the 5 s interval: 0.2 events/s in nanounits.
    assert_eq!(e.rate(), 200_000_000);
}

#[test]
fn updates_accumulate_between_ticks() {
    let mut e = EWMA::for_window(5);
    e.update(2);
    e.update(3);
    e.tick();
    // 5 events over 5 s: exactly one event per second.
    assert_eq!(e.rate(), 1_000_000_000);
}

#[test]
fn second_tick_decays_toward_zero() {
    let mut e = EWMA::for_window(1);
    e.update(1);
    e.tick();
    e.tick();
    // rate - alpha * rate / scale, exactly.
    assert_eq!(e.rate(), 200_000_000 - 79_955_585 * 200_000_000 / 1_000_000_000);
    let as_f64 = e.rate() as f64 / 1e9;
    assert!((as_f64 - 0.1840).abs() < 1e-3);
}

#[test]
fn five_and_fifteen_minute_windows_decay_more_slowly() {
    let mut e5 = EWMA::for_window(5);
    let mut e15 = EWMA::for_window(15);
    e5.update(1);
    e15.update(1);
    e5.tick();
    e15.tick();
    e5.tick();
    e15.tick();
    assert_eq!(e5.rate(), 200_000_000 - 16_528_546 * 200_000_000 / 1_000_000_000);
    assert_eq!(e15.rate(), 200_000_000 - 5_540_152 * 200_000_000 / 1_000_000_000);
    assert!(e15.rate() > e5.rate());
    assert!((e5.rate() as f64 / 1e9 - 0.1966).abs() < 1e-3);
    assert!((e15.rate() as f64 / 1e9 - 0.1988).abs() < 1e-3);
}

#[test]
fn decay_moves_rate_upward_too() {
    let mut e = EWMA::for_window(1);
    e.update(1);
    e.tick();
    // A busier interval pulls the rate up toward the new instant rate.
    e.update(10);
    e.tick();
    let rate = 200_000_000u128;
    let instant = 2_000_000_000u128;
    let expected = rate + 79_955_585 * (instant - rate) / 1_000_000_000;
    assert_eq!(e.rate(), expected);
}
