use logsentinel::codec::{
    accept_generated_rule, deserialize_rule, parse_rule_set, serialize_rule, serialize_rule_set,
};
use logsentinel::models::{
    LogEntry, MasterMessage, Rule, RuleLoadError, RuleType, WorkerMessage,
};
use logsentinel::protocol::WorkerSm;

fn rule(name: &str, rt: RuleType, threshold: usize, window: u64) -> Rule {
    Rule {
        name: name.to_string(),
        description: format!("{} description", name),
        rule_type: rt,
        threshold,
        time_window_seconds: window,
    }
}

#[test]
fn rule_round_trips() {
    let r = rule("brute", RuleType::BruteForce, 3, 60);
    let s = serialize_rule(&r);
    let back = deserialize_rule(&s).expect("round trip");
    assert_eq!(back, r);
}

#[test]
fn custom_rule_with_awkward_strings_round_trips() {
    let mut r = rule("we|ird: name] ", RuleType::Custom("π/2 = 90°".to_string()), 7, 0);
    r.description = "line\nbreak and {\"json\":\"ish\"}".to_string();
    let s = serialize_rule(&r);
    let back = deserialize_rule(&s).expect("round trip");
    assert_eq!(back, r);
}

#[test]
fn every_rule_type_round_trips() {
    for rt in [
        RuleType::BruteForce,
        RuleType::HighFrequencyRequest,
        RuleType::SuspiciousIp,
        RuleType::Custom(String::new()),
    ] {
        let r = rule("n", rt, 1, 5);
        let s = serialize_rule(&r);
        assert_eq!(deserialize_rule(&s).as_ref(), Some(&r));
    }
}

#[test]
fn deserialize_rejects_garbage_and_truncation() {
    assert_eq!(deserialize_rule("definitely not a rule"), None);
    assert_eq!(deserialize_rule(""), None);
    let r = rule("n", RuleType::BruteForce, 2, 9);
    let s = serialize_rule(&r);
    let truncated: String = s.chars().take(s.chars().count() - 1).collect();
    assert_eq!(deserialize_rule(&truncated), None);
    let padded = format!("{} ", s);
    assert_eq!(deserialize_rule(&padded), None);
}

#[test]
fn rule_set_round_trips() {
    let rules = vec![
        rule("a", RuleType::BruteForce, 2, 10),
        rule("b", RuleType::HighFrequencyRequest, 5, 0),
        rule("c", RuleType::Custom("tag".to_string()), 1, 1),
    ];
    let s = serialize_rule_set(&rules);
    let back = parse_rule_set(&s).expect("rule set loads");
    assert_eq!(back, rules);
}

#[test]
fn rule_set_load_rejects_malformed_content() {
    match parse_rule_set("this is not a rule set") {
        Err(RuleLoadError::Malformed(_)) => {}
        other => panic!("expected Malformed, got {:?}", other),
    }
}

#[test]
fn rule_set_load_rejects_whole_set_on_one_invalid_rule() {
    // One rule with threshold 0 poisons the whole load: Invalid, not a
    // partial set.
    let rules = vec![
        rule("ok", RuleType::BruteForce, 2, 10),
        rule("bad", RuleType::BruteForce, 0, 10),
    ];
    let s = serialize_rule_set(&rules);
    match parse_rule_set(&s) {
        Err(RuleLoadError::Invalid(_)) => {}
        other => panic!("expected Invalid, got {:?}", other),
    }
}

#[test]
fn rule_set_load_rejects_duplicate_names() {
    // Rule names are unique labels; a duplicate rejects the whole load.
    let rules = vec![
        rule("same", RuleType::BruteForce, 2, 10),
        rule("same", RuleType::HighFrequencyRequest, 3, 20),
    ];
    let s = serialize_rule_set(&rules);
    match parse_rule_set(&s) {
        Err(RuleLoadError::Invalid(_)) => {}
        other => panic!("expected Invalid, got {:?}", other),
    }
}

#[test]
fn serialized_rule_carries_field_names() {
    let r = rule("n1", RuleType::BruteForce, 2, 9);
    let s = serialize_rule(&r);
    for label in ["name:", "description:", "rule_type:", "threshold:", "time_window:"] {
        assert!(s.contains(label), "missing field name {}", label);
    }
    assert!(serialize_rule_set(&vec![r]).starts_with("rules:"));
}

#[test]
fn generated_rule_is_accepted_or_classified() {
    let good = rule("gen", RuleType::SuspiciousIp, 4, 30);
    let payload = serialize_rule(&good);
    assert_eq!(accept_generated_rule(&payload), Ok(good));
    match accept_generated_rule("not a rule") {
        Err(RuleLoadError::Malformed(_)) => {}
        other => panic!("expected Malformed, got {:?}", other),
    }
    let zero = rule("gen", RuleType::SuspiciousIp, 0, 30);
    match accept_generated_rule(&serialize_rule(&zero)) {
        Err(RuleLoadError::Invalid(_)) => {}
        other => panic!("expected Invalid, got {:?}", other),
    }
}

fn entry(ts: i64, ip: &str, event: &str) -> LogEntry {
    LogEntry {
        timestamp: ts,
        ip_address: ip.to_string(),
        user_id: None,
        event_type: event.to_string(),
        details: Vec::new(),
    }
}

#[test]
fn worker_follows_the_protocol() {
    let mut sm = WorkerSm::new();
    // A chunk before the rules breaks the protocol.
    let reply = sm.handle(WorkerMessage::LogChunk(vec![entry(0, "1.1.1.1", "x")]));
    assert!(matches!(reply, Some(MasterMessage::Error(_))));
    // Rules are acknowledged.
    let rules = vec![rule("hf", RuleType::HighFrequencyRequest, 2, 0)];
    assert_eq!(sm.handle(WorkerMessage::Rules(rules)), Some(MasterMessage::Ack));
    // Chunks accumulate silently.
    assert_eq!(
        sm.handle(WorkerMessage::LogChunk(vec![
            entry(0, "1.1.1.1", "x"),
            entry(1, "1.1.1.1", "y"),
        ])),
        None
    );
    assert_eq!(
        sm.handle(WorkerMessage::LogChunk(vec![entry(2, "1.1.1.1", "z")])),
        None
    );
    // StartAnalysis evaluates everything received.
    match sm.handle(WorkerMessage::StartAnalysis) {
        Some(MasterMessage::AnalysisResult(m)) => {
            assert_eq!(m.total_logs_processed, 3);
            assert_eq!(m.alerts_generated.len(), 1);
            assert_eq!(m.alerts_generated[0].timestamp, 1);
        }
        other => panic!("expected AnalysisResult, got {:?}", other),
    }
    // Shutdown is acknowledged; afterwards the worker is silent forever.
    assert_eq!(sm.handle(WorkerMessage::Shutdown), Some(MasterMessage::Ack));
    assert_eq!(sm.handle(WorkerMessage::StartAnalysis), None);
    assert_eq!(sm.handle(WorkerMessage::Shutdown), None);
}

#[test]
fn worker_rejects_double_rules_and_late_chunks() {
    let mut sm = WorkerSm::new();
    let rules = vec![rule("hf", RuleType::HighFrequencyRequest, 2, 0)];
    assert_eq!(
        sm.handle(WorkerMessage::Rules(rules.clone())),
        Some(MasterMessage::Ack)
    );
    let reply = sm.handle(WorkerMessage::Rules(rules));
    assert!(matches!(reply, Some(MasterMessage::Error(_))));
    assert!(matches!(
        sm.handle(WorkerMessage::StartAnalysis),
        Some(MasterMessage::AnalysisResult(_))
    ));
    // After the result, another chunk is out of order.
    let reply = sm.handle(WorkerMessage::LogChunk(vec![entry(9, "1.1.1.1", "x")]));
    assert!(matches!(reply, Some(MasterMessage::Error(_))));
}
