use logsentinel::log_parser::{parse_batch, parse_log_entry};
use logsentinel::models::LogEntry;

fn ok(line: &str) -> LogEntry {
    parse_log_entry(line).expect("line should parse")
}

#[test]
fn parses_full_line() {
    let line = "[2023-10-27T10:00:00Z] [INFO] 192.168.1.1 user_id=testuser event=login_failed details={\"reason\":\"bad_password\"}";
    let e = ok(line);
    assert_eq!(e.timestamp, 1698400800);
    assert_eq!(e.ip_address, "192.168.1.1");
    assert_eq!(e.user_id.as_deref(), Some("testuser"));
    assert_eq!(e.event_type, "login_failed");
    assert_eq!(
        e.details,
        vec![("reason".to_string(), "bad_password".to_string())]
    );
}

#[test]
fn parse_is_idempotent() {
    let line = "[1970-01-01T00:01:00Z] [WARN] 10.0.0.5 user_id=alice event=port_scan details={\"a\":\"b\",\"c\":\"d\"}";
    let first = parse_log_entry(line);
    let second = parse_log_entry(line);
    assert_eq!(first, second);
    assert!(first.is_some());
}

#[test]
fn event_type_defaults_to_unknown() {
    let e = ok("[1970-01-01T00:00:10Z] [INFO] 10.0.0.1 user_id=bob");
    assert_eq!(e.event_type, "unknown");
    assert_eq!(e.user_id.as_deref(), Some("bob"));
    assert!(e.details.is_empty());
}

#[test]
fn details_sorted_by_key() {
    let e = ok("[1970-01-01T00:00:10Z] [INFO] 10.0.0.1 details={\"z\":\"1\",\"a\":\"2\"}");
    assert_eq!(
        e.details,
        vec![
            ("a".to_string(), "2".to_string()),
            ("z".to_string(), "1".to_string())
        ]
    );
}

#[test]
fn malformed_details_are_ignored_not_rejected() {
    let e = ok("[1970-01-01T00:00:10Z] [INFO] 10.0.0.1 event=x details={notjson");
    assert_eq!(e.event_type, "x");
    assert!(e.details.is_empty());
}

#[test]
fn unrecognized_tokens_are_ignored() {
    let e = ok("[1970-01-01T00:00:10Z] [INFO] 10.0.0.1 level=9 event=x trailing");
    assert_eq!(e.event_type, "x");
}

#[test]
fn unicode_whitespace_separates_tokens() {
    // Form feed and no-break space are Unicode whitespace and separate
    // tokens just like a plain space.
    let line = "[1970-01-01T00:00:10Z] [INFO] 10.0.0.1\u{000C}user_id=bob\u{00A0}event=x";
    let e = ok(line);
    assert_eq!(e.ip_address, "10.0.0.1");
    assert_eq!(e.user_id.as_deref(), Some("bob"));
    assert_eq!(e.event_type, "x");
}

#[test]
fn rejects_line_with_one_segment() {
    assert_eq!(parse_log_entry("[1970-01-01T00:00:10Z] no second separator"), None);
}

#[test]
fn rejects_bad_timestamp() {
    assert_eq!(parse_log_entry("[not-a-time] [INFO] 10.0.0.1 event=x"), None);
    assert_eq!(parse_log_entry("[] [INFO] 10.0.0.1 event=x"), None);
}

#[test]
fn rejects_missing_ip() {
    assert_eq!(parse_log_entry("[1970-01-01T00:00:10Z] [INFO] "), None);
    assert_eq!(parse_log_entry("[1970-01-01T00:00:10Z] [INFO]  \t "), None);
}

#[test]
fn rejects_empty_first_segment() {
    assert_eq!(parse_log_entry("] x] 10.0.0.1 event=y"), None);
}

#[test]
fn timestamp_normalized_to_utc() {
    // 02:00 at +02:00 is midnight UTC.
    let e = ok("[1970-01-01T02:00:00+02:00] [INFO] 10.0.0.1 event=x");
    assert_eq!(e.timestamp, 0);
}

#[test]
fn batch_drops_malformed_lines() {
    // 100 lines, 10 of them malformed: exactly 90 records survive.
    let mut lines: Vec<String> = Vec::new();
    for i in 0..100 {
        if i % 10 == 0 {
            lines.push(format!("malformed line number {}", i));
        } else {
            lines.push(format!(
                "[1970-01-01T00:00:{:02}Z] [INFO] 10.0.0.{} event=login_failed",
                i % 60,
                i % 7
            ));
        }
    }
    let records = parse_batch(&lines);
    assert_eq!(records.len(), 90);
    for r in &records {
        assert_eq!(r.event_type, "login_failed");
    }
}
