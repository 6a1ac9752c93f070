use aegis_core::event::{CausalLink, HealthState, IncidentMatch, ProcessedEvent, TopSig};
use aegis_core::sink::{format_event, short_sig};

#[test]
fn first_occurrence_line() {
    let ev = ProcessedEvent::FirstOccurrence {
        signature: "0123456789abcdef0123".into(),
        line: "ERROR payment-api: boom".into(),
        ts_ms: 0,
        source: "tcp://x".into(),
        service: "payment-api".into(),
    };
    assert_eq!(format_event(&ev), "[FIRST   svc=payment-api    sig=0123456789ab] ERROR payment-api: boom");
}

#[test]
fn collapsed_line_pads_count_and_window() {
    let ev = ProcessedEvent::Collapsed {
        signature: "abc".into(),
        count: 42,
        window_ms: 12_345,
        first_seen_ms: 0,
        last_seen_ms: 12_345,
        sample: "WARN slow".into(),
        source: "s".into(),
        service: "a-very-long-service-name".into(),
        classification: None,
    };
    assert_eq!(format_event(&ev), "[DEDUP   svc=a-very-long-service-name sig=abc x   42 in  12.3s] WARN slow");
}

#[test]
fn raw_summary_and_silent_lines() {
    let raw = ProcessedEvent::Raw { line: "hello".into(), ts_ms: 0, source: "s".into(), service: "svc".into() };
    assert_eq!(format_event(&raw), "[RAW     svc=svc           ] hello");
    let summary = ProcessedEvent::Summary {
        source: "tcp://x".into(),
        window_ms: 30_000,
        first_seen_ms: 0,
        last_seen_ms: 30_000,
        suppressed_lines: 900,
        unique_signatures: 4,
        top_signatures: vec![TopSig { signature: "s".into(), count: 900, sample: "x".into() }],
    };
    assert_eq!(format_event(&summary), "[SUMMARY src=tcp://x 4 sigs in  30.0s] suppressed=900 routine lines");
    let silent = ProcessedEvent::ServiceSilent {
        service: "orders".into(),
        last_seen_ms: 0,
        silence_ms: 125_500,
        last_sample: None,
    };
    assert_eq!(format_event(&silent), "[SILENT  svc=orders         quiet=  126s] last=?");
}

#[test]
fn chain_and_card_lines() {
    let link = |svc: &str, off: u64| CausalLink {
        service: svc.into(),
        signature: "s".into(),
        ts_ms: off,
        ts_offset_ms: off,
        sample: "x".into(),
    };
    let chain = ProcessedEvent::CausalChain {
        chain_id: "c".into(),
        root_cause_service: "db".into(),
        confidence_bp: 8449,
        chain: vec![link("db", 0), link("api", 2_500)],
        first_seen_ms: 0,
        last_seen_ms: 2_500,
        suppressed_lines: 0,
    };
    assert_eq!(format_event(&chain), "[CHAIN   root=db conf=84%] db (+0.0s) \u{2192} api (+2.5s)");
    let m = IncidentMatch {
        incident_id: "i".into(),
        similarity_bp: 9000,
        past_ts_ms: 0,
        past_root_cause_service: "db".into(),
        past_cause: None,
        past_fix: None,
        past_resolved_in_minutes: None,
    };
    let card = ProcessedEvent::DecisionCard {
        decision_id: "d".into(),
        ts_ms: 0,
        state: HealthState::Red,
        chain_id: None,
        root_cause_service: None,
        headline: "Boom.".into(),
        suggested_next_step: "Look.".into(),
        business_impact: None,
        similar_incidents: vec![m],
    };
    assert_eq!(format_event(&card), "[DECIDE  state=red root=-] Boom. (1 similar past incident)");
    let memory = ProcessedEvent::IncidentMemory {
        incident_id: "inc".into(),
        chain_id: "c".into(),
        ts_ms: 0,
        root_cause_service: "db".into(),
        services: vec![],
        cause: None,
        fix: None,
        resolved_at_ms: None,
        resolved_in_minutes: None,
    };
    assert_eq!(format_event(&memory), "[MEMORY  id=inc root=db] (open \u{2014} no resolution yet)");
}

#[test]
fn short_signatures_keep_twelve_bytes() {
    assert_eq!(short_sig("0123456789abcdef"), "0123456789ab");
    assert_eq!(short_sig("abc"), "abc");
    assert_eq!(short_sig(""), "");
}
