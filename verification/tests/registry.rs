use metrics::{Counter, Gauge, MetricEntry, MetricValue, Registry, RegistryError, SystemClock, StdMeter};

#[test]
fn register_duplicate_name_is_rejected() {
    let mut r: Registry<SystemClock> = Registry::new();
    assert!(r.register("requests".to_string(), MetricEntry::Counter(Counter::new())).is_ok());
    let second = r.register("requests".to_string(), MetricEntry::Counter(Counter::new()));
    assert_eq!(second, Err(RegistryError::NameAlreadyRegistered));
    // The first instance is still the only one registered under the name.
    assert_eq!(r.len(), 1);
    assert!(r.get(&"requests".to_string()).is_some());
}

#[test]
fn get_finds_registered_metric() {
    let mut r: Registry<SystemClock> = Registry::new();
    let mut g = Gauge::new();
    g.set(-7);
    r.register("queue.depth".to_string(), MetricEntry::Gauge(g)).unwrap();
    match r.get(&"queue.depth".to_string()) {
        Some(MetricEntry::Gauge(found)) => assert_eq!(found.value(), -7),
        _ => panic!("expected the registered gauge"),
    }
    assert!(r.get(&"absent".to_string()).is_none());
}

#[test]
fn remove_frees_the_name() {
    let mut r: Registry<SystemClock> = Registry::new();
    r.register("a".to_string(), MetricEntry::Counter(Counter::new())).unwrap();
    r.register("b".to_string(), MetricEntry::Counter(Counter::new())).unwrap();
    assert!(r.remove(&"a".to_string()));
    assert!(!r.remove(&"a".to_string()));
    assert_eq!(r.len(), 1);
    assert!(r.get(&"a".to_string()).is_none());
    assert!(r.register("a".to_string(), MetricEntry::Counter(Counter::new())).is_ok());
}

#[test]
fn export_all_reads_every_metric_in_order() {
    let mut r: Registry<SystemClock> = Registry::new();
    let mut c = Counter::new();
    c.inc(41);
    c.inc(1);
    r.register("hits".to_string(), MetricEntry::Counter(c)).unwrap();
    let mut g = Gauge::new();
    g.set(17);
    r.register("level".to_string(), MetricEntry::Gauge(g)).unwrap();
    r.register("rate".to_string(), MetricEntry::Meter(StdMeter::new())).unwrap();

    let out = r.export_all();
    assert_eq!(out.len(), 3);
    assert_eq!(out[0].0, "hits");
    match out[0].1 {
        MetricValue::Counter(v) => assert_eq!(v, 42),
        _ => panic!("expected a counter value"),
    }
    assert_eq!(out[1].0, "level");
    match out[1].1 {
        MetricValue::Gauge(v) => assert_eq!(v, 17),
        _ => panic!("expected a gauge value"),
    }
    assert_eq!(out[2].0, "rate");
    match &out[2].1 {
        MetricValue::Meter(s) => assert_eq!(s.count, 0),
        _ => panic!("expected a meter snapshot"),
    }
    // Exporting leaves every metric registered.
    assert_eq!(r.len(), 3);
}

#[test]
fn counter_wraps_and_clears() {
    let mut c = Counter::new();
    c.inc(u64::MAX);
    c.inc(3);
    assert_eq!(c.value(), 2);
    c.clear();
    assert_eq!(c.value(), 0);
}
