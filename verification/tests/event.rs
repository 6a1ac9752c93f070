use aegis_core::event::{HealthState, ProcessedEvent, PRIORITY_HIGH, PRIORITY_LOW, PRIORITY_MEDIUM};

#[test]
fn sourcetypes_priorities_and_times() {
    let raw = ProcessedEvent::Raw { line: "x".into(), ts_ms: 5, source: "tcp://a".into(), service: "svc".into() };
    assert_eq!(raw.sourcetype(), "aegis:raw");
    assert_eq!(raw.priority(), PRIORITY_HIGH);
    assert_eq!(raw.event_time(), 5);
    assert_eq!(raw.source(), "tcp://a");
    let silent = ProcessedEvent::ServiceSilent { service: "orders".into(), last_seen_ms: u64::MAX - 1, silence_ms: 10, last_sample: None };
    assert_eq!(silent.sourcetype(), "aegis:silent");
    assert_eq!(silent.event_time(), u64::MAX);
    assert_eq!(silent.source(), "orders");
    let summary = ProcessedEvent::Summary {
        source: "s".into(),
        window_ms: 0,
        first_seen_ms: 1,
        last_seen_ms: 2,
        suppressed_lines: 0,
        unique_signatures: 0,
        top_signatures: vec![],
    };
    assert_eq!(summary.priority(), PRIORITY_LOW);
    assert_eq!(summary.event_time(), 2);
    let memory = ProcessedEvent::IncidentMemory {
        incident_id: "i".into(),
        chain_id: "c".into(),
        ts_ms: 9,
        root_cause_service: "db".into(),
        services: vec![],
        cause: None,
        fix: None,
        resolved_at_ms: None,
        resolved_in_minutes: None,
    };
    assert_eq!(memory.priority(), PRIORITY_MEDIUM);
    assert_eq!(memory.sourcetype(), "aegis:incident");
    let card = ProcessedEvent::DecisionCard {
        decision_id: "d".into(),
        ts_ms: 3,
        state: HealthState::Orange,
        chain_id: None,
        root_cause_service: None,
        headline: String::new(),
        suggested_next_step: String::new(),
        business_impact: None,
        similar_incidents: vec![],
    };
    assert_eq!(card.source(), "aegis");
    assert_eq!(card.sourcetype(), "aegis:decision");
    assert_eq!(HealthState::Orange.as_str(), "orange");
    assert_eq!(HealthState::Green.as_str(), "green");
    assert_eq!(HealthState::Red.as_str(), "red");
}

#[test]
fn payload_kinds_and_resolved_flag() {
    let raw = ProcessedEvent::Raw { line: "x".into(), ts_ms: 1, source: "s".into(), service: "v".into() };
    assert_eq!(raw.payload_kind(), "raw");
    assert!(!raw.reports_resolved());
    let mem = |cause: Option<&str>, fix: Option<&str>| ProcessedEvent::IncidentMemory {
        incident_id: "i".into(),
        chain_id: "c".into(),
        ts_ms: 0,
        root_cause_service: "db".into(),
        services: vec!["db".into()],
        cause: cause.map(String::from),
        fix: fix.map(String::from),
        resolved_at_ms: None,
        resolved_in_minutes: None,
    };
    assert_eq!(mem(None, None).payload_kind(), "incident_memory");
    assert!(mem(Some("c"), Some("f")).reports_resolved());
    assert!(!mem(Some("c"), None).reports_resolved());
}
