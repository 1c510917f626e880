use logsentinel::coordinator::{merge_results, run_partitioned_local, run_sequential};
use logsentinel::engine::evaluate;
use logsentinel::log_parser::parse_batch;
use logsentinel::models::{
    AlertType, AnalysisError, ExecMode, LogEntry, Metrics, Rule, RuleType,
};

fn entry(ts: i64, ip: &str, user: Option<&str>, event: &str) -> LogEntry {
    LogEntry {
        timestamp: ts,
        ip_address: ip.to_string(),
        user_id: user.map(|u| u.to_string()),
        event_type: event.to_string(),
        details: Vec::new(),
    }
}

fn rule(name: &str, rt: RuleType, threshold: usize, window: u64) -> Rule {
    Rule {
        name: name.to_string(),
        description: format!("{} rule", name),
        rule_type: rt,
        threshold,
        time_window_seconds: window,
    }
}

#[test]
fn window_correctness_brute_force() {
    // threshold=3, window=60s, five login_failed events from one IP at
    // t = 0, 10, 20, 70, 80: exactly one alert, at t=20 (the third event in
    // the first window). The in-window count never drops below 3 between
    // t=20 and t=70 (at t=70 the window still holds 10, 20, 70), so the rule
    // does not re-arm and no second alert fires.
    let records: Vec<LogEntry> = [0, 10, 20, 70, 80]
        .iter()
        .map(|&t| entry(t, "10.0.0.5", Some("alice"), "login_failed"))
        .collect();
    let rules = vec![rule("bf", RuleType::BruteForce, 3, 60)];
    let m = run_sequential(&records, &rules);
    assert_eq!(m.total_logs_processed, 5);
    assert_eq!(m.alerts_generated.len(), 1);
    let a = &m.alerts_generated[0];
    assert_eq!(a.timestamp, 20);
    assert_eq!(a.alert_type, AlertType::BruteForce);
    // Ids length-prefix the rule name, IP and user so the encoding is
    // injective; the firing time closes the id.
    assert_eq!(
        a.id,
        format!("{:020}bf{:020}10.0.0.5u{:020}alice|20", 2, 8, 5)
    );
    assert_eq!(
        a.description,
        "rule bf: observed 3 events, threshold 3, group 10.0.0.5/alice"
    );
    let sample = a.log_entry_sample.as_ref().expect("triggering record");
    assert_eq!(sample.timestamp, 20);
}

#[test]
fn window_rearms_after_count_drops() {
    // Two bursts far apart: the window empties in between, the count drops
    // below the threshold, and the rule fires once per burst.
    let times = [0, 10, 20, 200, 210, 220];
    let records: Vec<LogEntry> = times
        .iter()
        .map(|&t| entry(t, "10.0.0.5", None, "login_failed"))
        .collect();
    let rules = vec![rule("bf", RuleType::BruteForce, 3, 60)];
    let m = run_sequential(&records, &rules);
    assert_eq!(m.alerts_generated.len(), 2);
    assert_eq!(m.alerts_generated[0].timestamp, 20);
    assert_eq!(m.alerts_generated[1].timestamp, 220);
}

#[test]
fn zero_window_spans_whole_batch() {
    // time_window = 0: the whole batch is one window. threshold=2 with two
    // qualifying events anywhere fires exactly once.
    let records = vec![
        entry(5, "10.0.0.9", None, "login_failed"),
        entry(1000000, "10.0.0.9", None, "other"),
        entry(99999999, "10.0.0.9", None, "login_failed"),
    ];
    let rules = vec![rule("bf0", RuleType::BruteForce, 2, 0)];
    let m = run_sequential(&records, &rules);
    assert_eq!(m.alerts_generated.len(), 1);
    assert_eq!(m.alerts_generated[0].timestamp, 99999999);
}

#[test]
fn high_frequency_counts_every_event() {
    let records = vec![
        entry(0, "1.1.1.1", None, "a"),
        entry(1, "1.1.1.1", None, "b"),
        entry(2, "1.1.1.1", None, "c"),
        entry(3, "2.2.2.2", None, "d"),
    ];
    let rules = vec![rule("hf", RuleType::HighFrequencyRequest, 3, 100)];
    let m = run_sequential(&records, &rules);
    assert_eq!(m.alerts_generated.len(), 1);
    assert_eq!(m.alerts_generated[0].timestamp, 2);
    assert_eq!(m.alerts_generated[0].alert_type, AlertType::HighFrequencyRequest);
    // Grouping is per IP without the user id.
    assert_eq!(
        m.alerts_generated[0].id,
        format!("{:020}hf{:020}1.1.1.1n|2", 2, 7)
    );
}

#[test]
fn alert_ids_distinguish_lookalike_groups() {
    // An IP that happens to contain a separator character must not collide
    // with an IP-plus-user group that renders the same way.
    let records = vec![
        entry(5, "a/b", None, "login_failed"),
        entry(5, "a", Some("b"), "login_failed"),
    ];
    let rules = vec![rule("bf", RuleType::BruteForce, 1, 0)];
    let m = run_sequential(&records, &rules);
    assert_eq!(m.alerts_generated.len(), 2);
    assert_ne!(m.alerts_generated[0].id, m.alerts_generated[1].id);
}

#[test]
fn suspicious_ip_counts_only_suspicious_events() {
    let records = vec![
        entry(0, "3.3.3.3", None, "port_scan"),
        entry(1, "3.3.3.3", None, "login_ok"),
        entry(2, "3.3.3.3", None, "unauthorized_access"),
        entry(3, "3.3.3.3", None, "login_ok"),
    ];
    let rules = vec![rule("si", RuleType::SuspiciousIp, 2, 100)];
    let m = run_sequential(&records, &rules);
    assert_eq!(m.alerts_generated.len(), 1);
    assert_eq!(m.alerts_generated[0].timestamp, 2);
    assert_eq!(
        m.alerts_generated[0].alert_type,
        AlertType::SuspiciousIpBehavior
    );
}

#[test]
fn custom_rule_matches_its_tag() {
    let records = vec![
        entry(0, "4.4.4.4", None, "weird_event"),
        entry(1, "4.4.4.4", None, "weird_event"),
        entry(2, "4.4.4.4", None, "other"),
    ];
    let rules = vec![rule(
        "cu",
        RuleType::Custom("weird_event".to_string()),
        2,
        0,
    )];
    let m = run_sequential(&records, &rules);
    assert_eq!(m.alerts_generated.len(), 1);
    assert_eq!(
        m.alerts_generated[0].alert_type,
        AlertType::Custom("weird_event".to_string())
    );
}

#[test]
fn evaluate_reports_processed_count_without_rules() {
    let records = vec![entry(0, "1.1.1.1", None, "a"), entry(1, "1.1.1.1", None, "b")];
    let (alerts, n) = evaluate(&records, &Vec::new());
    assert!(alerts.is_empty());
    assert_eq!(n, 2);
}

fn alert_keys(m: &Metrics) -> Vec<(String, String, i64)> {
    let mut v: Vec<(String, String, i64)> = m
        .alerts_generated
        .iter()
        .map(|a| (a.id.clone(), a.description.clone(), a.timestamp))
        .collect();
    v.sort();
    v
}

#[test]
fn mode_equivalence_sequential_vs_partitioned() {
    // A mixed batch over several IPs and two rules: any worker count yields
    // the same total and the same set of alerts, reordered at most.
    let mut records = Vec::new();
    for i in 0..40i64 {
        let ip = match i % 4 {
            0 => "10.0.0.1",
            1 => "10.0.0.2",
            2 => "172.16.0.9",
            _ => "192.168.7.7",
        };
        let event = if i % 3 == 0 { "login_failed" } else { "ping" };
        records.push(entry(i, ip, Some("u"), event));
    }
    let rules = vec![
        rule("bf", RuleType::BruteForce, 2, 30),
        rule("hf", RuleType::HighFrequencyRequest, 5, 100),
    ];
    let seq = run_sequential(&records, &rules);
    assert!(!seq.alerts_generated.is_empty());
    for workers in 1..6 {
        let par = run_partitioned_local(&records, &rules, ExecMode::Parallel, workers)
            .expect("partitioned run succeeds");
        assert_eq!(par.total_logs_processed, seq.total_logs_processed);
        assert_eq!(par.mode, ExecMode::Parallel);
        assert_eq!(alert_keys(&par), alert_keys(&seq));
    }
}

#[test]
fn mode_tag_records_how_the_run_executed() {
    let records = vec![entry(0, "1.1.1.1", None, "a")];
    let rules: Vec<Rule> = Vec::new();
    assert_eq!(run_sequential(&records, &rules).mode, ExecMode::Sequential);
    let d = run_partitioned_local(&records, &rules, ExecMode::Distributed, 2).unwrap();
    assert_eq!(d.mode, ExecMode::Distributed);
}

#[test]
fn worker_failure_fails_the_whole_run() {
    // A worker that never returns (None) makes the merge fail with
    // WorkerFailure; no Metrics value is produced.
    let good = Metrics {
        total_logs_processed: 3,
        alerts_generated: Vec::new(),
        mode: ExecMode::Parallel,
    };
    let partials = vec![Some(good), None];
    let r = merge_results(&partials, ExecMode::Parallel);
    match r {
        Err(AnalysisError::WorkerFailure(_)) => {}
        other => panic!("expected WorkerFailure, got {:?}", other),
    }
}

#[test]
fn merge_concatenates_in_partition_order() {
    let mk = |ts: i64, id: &str| logsentinel::models::Alert {
        id: id.to_string(),
        timestamp: ts,
        alert_type: AlertType::BruteForce,
        description: "d".to_string(),
        log_entry_sample: None,
    };
    let p0 = Metrics {
        total_logs_processed: 2,
        alerts_generated: vec![mk(1, "a"), mk(2, "b")],
        mode: ExecMode::Parallel,
    };
    let p1 = Metrics {
        total_logs_processed: 3,
        alerts_generated: vec![mk(3, "c")],
        mode: ExecMode::Parallel,
    };
    let merged = merge_results(&vec![Some(p0), Some(p1)], ExecMode::Parallel).unwrap();
    assert_eq!(merged.total_logs_processed, 5);
    let ids: Vec<&str> = merged.alerts_generated.iter().map(|a| a.id.as_str()).collect();
    assert_eq!(ids, vec!["a", "b", "c"]);
}

#[test]
fn malformed_lines_never_reach_alerts() {
    // Ten malformed lines among 100: the run counts 90 and no alert samples
    // a malformed line.
    let mut lines: Vec<String> = Vec::new();
    for i in 0..100i64 {
        if i % 10 == 0 {
            lines.push(format!("not a log line {}", i));
        } else {
            lines.push(format!(
                "[1970-01-01T00:{:02}:{:02}Z] [INFO] 10.9.9.9 user_id=eve event=login_failed",
                i / 60,
                i % 60
            ));
        }
    }
    let records = parse_batch(&lines);
    assert_eq!(records.len(), 90);
    let rules = vec![rule("bf", RuleType::BruteForce, 3, 3600)];
    let m = run_sequential(&records, &rules);
    assert_eq!(m.total_logs_processed, 90);
    for a in &m.alerts_generated {
        let s = a.log_entry_sample.as_ref().expect("sample");
        assert_eq!(s.event_type, "login_failed");
        assert_eq!(s.ip_address, "10.9.9.9");
    }
}

#[test]
fn run_analysis_dispatches_on_mode() {
    let records: Vec<LogEntry> = (0..6i64)
        .map(|t| entry(t, "8.8.8.8", None, "login_failed"))
        .collect();
    let rules = vec![rule("bf", RuleType::BruteForce, 3, 100)];
    let seq = logsentinel::coordinator::run_analysis(&records, &rules, ExecMode::Sequential, 1)
        .unwrap();
    let par = logsentinel::coordinator::run_analysis(&records, &rules, ExecMode::Parallel, 3)
        .unwrap();
    assert_eq!(seq.mode, ExecMode::Sequential);
    assert_eq!(par.mode, ExecMode::Parallel);
    assert_eq!(seq.total_logs_processed, 6);
    assert_eq!(par.total_logs_processed, 6);
    assert_eq!(alert_keys(&seq), alert_keys(&par));
}

#[test]
fn timer_is_monotone() {
    let t = logsentinel::utils::Timer::new();
    let a = t.elapsed_millis();
    let b = t.elapsed_millis();
    assert!(b >= a);
}
