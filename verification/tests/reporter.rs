use metrics::carbon::parse_line;
use metrics::meter::MeterSnapshot;
use metrics::reporter::{format_batch, metric_lines, needs_connect, next_status};
use metrics::{MetricValue, SendOutcome, SenderStatus};

#[test]
fn snapshot_batch_round_trips() {
    // A snapshot with count 5, mean rate 1.2 and window rates 0.5, 0.3 and
    // 0.1 events per second yields exactly five lines, each parseable back
    // into its path, value and the shared timestamp.
    let snap = MeterSnapshot {
        count: 5,
        rates: [500_000_000, 300_000_000, 100_000_000],
        mean: 1_200_000_000,
    };
    let ts: u64 = 1234567890;
    let lines = metric_lines(&b"m".to_vec(), &MetricValue::Meter(snap), ts);
    assert_eq!(lines.len(), 5);

    let expected: [(&[u8], u128); 5] = [
        (b"m.count", 5_000_000_000),
        (b"m.meanRate", 1_200_000_000),
        (b"m.m1", 500_000_000),
        (b"m.m5", 300_000_000),
        (b"m.m15", 100_000_000),
    ];
    for (line, (path, value)) in lines.iter().zip(expected.iter()) {
        let parsed = parse_line(line).expect("well-formed line");
        assert_eq!(parsed.0, path.to_vec());
        assert_eq!(parsed.1, *value);
        assert_eq!(parsed.2, ts);
    }
}

#[test]
fn batch_covers_every_entry_in_order() {
    let entries = vec![
        (b"hits".to_vec(), MetricValue::Counter(3)),
        (b"depth".to_vec(), MetricValue::Gauge(-2)),
    ];
    let batch = format_batch(&entries, 60);
    assert_eq!(batch.len(), 2);
    assert_eq!(batch[0], b"hits 3.000000000 60\n".to_vec());
    assert_eq!(batch[1], b"depth -2.000000000 60\n".to_vec());
}

#[test]
fn write_failure_forces_fresh_connection() {
    // After a failed write the sender is disconnected, so the next
    // interval must open a fresh connection rather than reuse the old one.
    let after = next_status(SenderStatus::Connected, SendOutcome::WriteFailed);
    assert_eq!(after, SenderStatus::Disconnected);
    assert!(needs_connect(after));

    let after = next_status(SenderStatus::Disconnected, SendOutcome::ConnectFailed);
    assert_eq!(after, SenderStatus::Disconnected);
    assert!(needs_connect(after));

    let after = next_status(SenderStatus::Disconnected, SendOutcome::Sent);
    assert_eq!(after, SenderStatus::Connected);
    assert!(!needs_connect(after));
}
