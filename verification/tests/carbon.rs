use metrics::carbon::{format_line, parse_line};

#[test]
fn format_line_spells_fixed_point() {
    let path = b"server.requests.m1".to_vec();
    let line = format_line(&path, 1_200_000_000, 1234567890);
    assert_eq!(line, b"server.requests.m1 1.200000000 1234567890\n".to_vec());
}

#[test]
fn format_line_pads_the_fraction() {
    let path = b"x".to_vec();
    let line = format_line(&path, 42, 7);
    assert_eq!(line, b"x 0.000000042 7\n".to_vec());
}

#[test]
fn parse_inverts_format() {
    let path = b"a.dotted.path".to_vec();
    let value: u128 = 987_654_321_123_456_789;
    let ts: u64 = 1_700_000_000;
    let line = format_line(&path, value, ts);
    let parsed = parse_line(&line).expect("a formatted line parses");
    assert_eq!(parsed.0, path);
    assert_eq!(parsed.1, value);
    assert_eq!(parsed.2, ts);
}

#[test]
fn parse_rejects_missing_pieces() {
    assert!(parse_line(&b"no-spaces-here\n".to_vec()).is_none());
    assert!(parse_line(&b"path 1.2 3\n".to_vec()).is_none());
    assert!(parse_line(&b"".to_vec()).is_none());
    assert!(parse_line(&b"path 1x000000000 3\n".to_vec()).is_none());
}

#[test]
fn zero_value_round_trips() {
    let path = b"p".to_vec();
    let line = format_line(&path, 0, 0);
    assert_eq!(line, b"p 0.000000000 0\n".to_vec());
    let parsed = parse_line(&line).unwrap();
    assert_eq!(parsed.1, 0);
    assert_eq!(parsed.2, 0);
}
