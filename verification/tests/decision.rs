use aegis_core::decision::{
    format_offset, headline_for_chain, suggest_next_step, trim_sample, DecisionEngine, DecisionError,
    DecisionParams, DecisionStage,
};
use aegis_core::event::{CausalLink, HealthState, IncidentMatch, ProcessedEvent};
use aegis_core::incident_memory::{ResolutionCard, Store};
use aegis_core::service_catalog::ServiceCatalog;

fn chain_ev() -> ProcessedEvent {
    ProcessedEvent::CausalChain {
        chain_id: "ch1".into(),
        root_cause_service: "payment-api".into(),
        confidence_bp: 9000,
        chain: vec![
            CausalLink {
                service: "payment-api".into(),
                signature: "s1".into(),
                ts_ms: 0,
                ts_offset_ms: 0,
                sample: "ERROR payment-api: db pool exhausted".into(),
            },
            CausalLink {
                service: "checkout".into(),
                signature: "s2".into(),
                ts_ms: 26_000,
                ts_offset_ms: 26_000,
                sample: "ERROR checkout: payment-api timeout".into(),
            },
        ],
        first_seen_ms: 0,
        last_seen_ms: 26_000,
        suppressed_lines: 1000,
    }
}

fn with_chain_id(id: &str) -> ProcessedEvent {
    let mut clone = chain_ev();
    if let ProcessedEvent::CausalChain { chain_id, .. } = &mut clone {
        *chain_id = id.into();
    }
    clone
}

#[test]
fn headline_lists_root_then_followers() {
    let chain = chain_ev();
    let links = match &chain {
        ProcessedEvent::CausalChain { chain, .. } => chain.clone(),
        _ => unreachable!(),
    };
    let h = headline_for_chain("payment-api", &links, 8900);
    assert!(h.contains("payment-api broke first"));
    assert!(h.contains("checkout followed"));
    assert!(h.contains("89% confidence"));
}

#[test]
fn engine_emits_red_card_with_business_impact() {
    let store = Store::new();
    let catalog = ServiceCatalog::with_entries(&[("payment-api", "Handles all transaction processing.")]);
    let mut engine = DecisionEngine::new(DecisionParams::default(), store, catalog);
    let card = engine.on_chain(&chain_ev(), "inc-d1".into(), "d1".into()).unwrap();
    match card {
        ProcessedEvent::DecisionCard { state, root_cause_service, business_impact, .. } => {
            assert_eq!(state, HealthState::Red);
            assert_eq!(root_cause_service.as_deref(), Some("payment-api"));
            assert!(business_impact.unwrap().contains("transaction"));
        }
        _ => panic!("expected DecisionCard"),
    }
    // The chain is remembered as a fingerprint under the incident id.
    assert_eq!(engine.store().count(), 1);
    let fp = engine.store().get("inc-d1").unwrap();
    assert_eq!(fp.chain_id, "ch1");
    assert_eq!(fp.root_cause_service, "payment-api");
}

#[test]
fn engine_surfaces_past_fix_when_present() {
    let mut store = Store::new();
    let past = chain_ev();
    let id = store.record_chain(&past, "inc-1".into()).unwrap();
    store
        .resolve(
            &id,
            ResolutionCard { cause: "Connection pool exhausted".into(), fix: "Reduced retry interval to 30s".into() },
            60_000,
        )
        .unwrap();
    let new = with_chain_id("different");
    let mut engine = DecisionEngine::new(DecisionParams::default(), store, ServiceCatalog::default());
    let card = engine.on_chain(&new, "inc-d2".into(), "d2".into()).unwrap();
    match card {
        ProcessedEvent::DecisionCard { similar_incidents, suggested_next_step, .. } => {
            assert!(!similar_incidents.is_empty());
            assert!(suggested_next_step.contains("Connection pool exhausted"));
            assert!(suggested_next_step.contains("retry interval"));
        }
        _ => panic!("expected DecisionCard"),
    }
}

#[test]
fn engine_handles_first_time_incident_gracefully() {
    // No past incidents in memory → the card should still render, with
    // a sensible "first time we've seen this" next-step nudge.
    let mut engine = DecisionEngine::new(DecisionParams::default(), Store::new(), ServiceCatalog::default());
    let card = engine.on_chain(&chain_ev(), "inc-d3".into(), "d3".into()).unwrap();
    match card {
        ProcessedEvent::DecisionCard { similar_incidents, suggested_next_step, .. } => {
            assert!(similar_incidents.is_empty());
            assert!(suggested_next_step.to_lowercase().contains("first time"));
            assert!(suggested_next_step.contains("resolution card"));
        }
        _ => panic!("expected DecisionCard"),
    }
}

#[test]
fn engine_prefers_resolved_match_over_unresolved() {
    let mut store = Store::new();
    // Two past chains; only the first is resolved. The engine must
    // prefer the resolved one when phrasing the next-step suggestion.
    let resolved = chain_ev();
    let resolved_id = store.record_chain(&resolved, "inc-resolved".into()).unwrap();
    store
        .resolve(
            &resolved_id,
            ResolutionCard {
                cause: "Cache stampede".into(),
                fix: "Added jittered exponential backoff to retries".into(),
            },
            30_000,
        )
        .unwrap();
    store.record_chain(&with_chain_id("unresolved"), "inc-open".into()).unwrap();
    let new = with_chain_id("now");
    let mut engine = DecisionEngine::new(DecisionParams::default(), store, ServiceCatalog::default());
    let card = engine.on_chain(&new, "inc-d4".into(), "d4".into()).unwrap();
    match card {
        ProcessedEvent::DecisionCard { suggested_next_step, .. } => {
            assert!(suggested_next_step.contains("Cache stampede"));
            assert!(suggested_next_step.contains("jittered"));
        }
        _ => panic!("expected DecisionCard"),
    }
}

#[test]
fn green_card_is_neutral() {
    let engine = DecisionEngine::new(DecisionParams::default(), Store::new(), ServiceCatalog::default());
    let card = engine.green_card("g1".into(), 123);
    match card {
        ProcessedEvent::DecisionCard { state, .. } => assert_eq!(state, HealthState::Green),
        _ => panic!("expected DecisionCard"),
    }
}

#[test]
fn red_card_copy_is_exact() {
    let mut engine = DecisionEngine::new(DecisionParams::default(), Store::new(), ServiceCatalog::default());
    match engine.on_chain(&chain_ev(), "inc-d5".into(), "d5".into()).unwrap() {
        ProcessedEvent::DecisionCard {
            decision_id,
            ts_ms,
            chain_id,
            headline,
            suggested_next_step,
            business_impact,
            ..
        } => {
            assert_eq!(decision_id, "d5");
            assert_eq!(ts_ms, 26_000);
            assert_eq!(chain_id.as_deref(), Some("ch1"));
            assert_eq!(
                headline,
                "payment-api broke first. checkout followed 26s later. Root cause: payment-api (90% confidence)."
            );
            assert_eq!(
                suggested_next_step,
                "Check payment-api health and recent deploys. Earliest signal: ERROR payment-api: db pool exhausted. This is the first time Aegis has seen this incident shape; please record a resolution card when you fix it."
            );
            assert_eq!(business_impact, None);
        }
        _ => panic!("expected DecisionCard"),
    }
}

#[test]
fn on_chain_refuses_other_events() {
    let mut engine = DecisionEngine::new(DecisionParams::default(), Store::new(), ServiceCatalog::default());
    let ev = ProcessedEvent::Raw { line: "x".into(), ts_ms: 1, source: "s".into(), service: "svc".into() };
    assert_eq!(engine.on_chain(&ev, "inc".into(), "d".into()).err(), Some(DecisionError::NotACausalChain));
    assert_eq!(engine.store().count(), 0);
}

#[test]
fn orange_card_names_the_service_and_sample() {
    let catalog = ServiceCatalog::with_entries(&[("orders", "Order fulfilment pipeline.")]);
    let engine = DecisionEngine::new(DecisionParams::default(), Store::new(), catalog);
    match engine.on_orange("orders", "  ERROR orders:\nqueue full \r", "o1".into(), 77) {
        ProcessedEvent::DecisionCard { state, headline, suggested_next_step, business_impact, ts_ms, chain_id, .. } => {
            assert_eq!(state, HealthState::Orange);
            assert_eq!(ts_ms, 77);
            assert_eq!(chain_id, None);
            assert_eq!(headline, "orders is misbehaving. No multi-service chain detected yet, but volume is rising.");
            assert_eq!(
                suggested_next_step,
                "Check orders health and recent deploys. Aegis will escalate to red if other services start failing.\nSample: ERROR orders: queue full"
            );
            assert_eq!(business_impact.as_deref(), Some("Order fulfilment pipeline."));
        }
        _ => panic!("expected DecisionCard"),
    }
}

#[test]
fn offsets_render_in_seconds_or_minutes() {
    assert_eq!(format_offset(0), "almost immediately");
    assert_eq!(format_offset(999), "almost immediately");
    assert_eq!(format_offset(1_000), "1s");
    assert_eq!(format_offset(26_400), "26s");
    assert_eq!(format_offset(26_500), "27s");
    assert_eq!(format_offset(59_999), "60s");
    assert_eq!(format_offset(60_000), "1.0 min");
    assert_eq!(format_offset(90_000), "1.5 min");
    assert_eq!(format_offset(3_600_000), "60.0 min");
}

#[test]
fn samples_are_trimmed_and_cut() {
    assert_eq!(trim_sample("  a\nb\rc  "), "a b c");
    let long = "x".repeat(200);
    let t = trim_sample(&long);
    assert_eq!(t.len(), 140);
    assert!(t.ends_with("..."));
    assert_eq!(trim_sample(&"y".repeat(140)), "y".repeat(140));
    // 137 ASCII bytes then two-byte characters: the cut at byte 137 falls on a boundary
    let mixed = format!("{}{}", "a".repeat(137), "é".repeat(10));
    assert_eq!(trim_sample(&mixed), format!("{}...", "a".repeat(137)));
}

#[test]
fn next_step_nudges_when_no_fix_is_known() {
    let m = IncidentMatch {
        incident_id: "i".into(),
        similarity_bp: 7349,
        past_ts_ms: 0,
        past_root_cause_service: "db".into(),
        past_cause: None,
        past_fix: None,
        past_resolved_in_minutes: None,
    };
    let s = suggest_next_step("db", &[], &[m]);
    assert_eq!(
        s,
        "This looks 73% similar to a past incident \u{2014} but no one ever filled in what fixed it. Check db health and recent deploys; please record a resolution card when you fix this one so the next on-call has a head start."
    );
    let s = suggest_next_step("db", &[], &[]);
    assert!(s.starts_with("Check db health, recent deploys, and dependency status."));
}

#[test]
fn next_step_quotes_the_fix_and_its_duration() {
    let unresolved = IncidentMatch {
        incident_id: "a".into(),
        similarity_bp: 9000,
        past_ts_ms: 0,
        past_root_cause_service: "db".into(),
        past_cause: Some("only a cause".into()),
        past_fix: None,
        past_resolved_in_minutes: None,
    };
    let resolved = IncidentMatch {
        incident_id: "b".into(),
        similarity_bp: 8050,
        past_ts_ms: 0,
        past_root_cause_service: "db".into(),
        past_cause: Some("pool".into()),
        past_fix: Some("bigger pool".into()),
        past_resolved_in_minutes: Some(12),
    };
    let s = suggest_next_step("db", &[], &[unresolved, resolved]);
    assert_eq!(
        s,
        "This looks 81% similar to a past incident (fixed in 12 min last time). Last time the cause was: \"pool\". The fix was: \"bigger pool\". Start by verifying that."
    );
}

#[test]
fn stage_remembers_answers_and_goes_green_once() {
    let params = DecisionParams { idle_to_green_secs: 300, ..DecisionParams::default() };
    let engine = DecisionEngine::new(params, Store::new(), ServiceCatalog::default());
    let mut stage = DecisionStage::new(engine);
    // Nothing happened yet: no green card.
    assert!(stage.on_sweep("g0".into(), 0, 1_000_000).is_none());
    let out = stage.on_event(chain_ev(), "inc-1".into(), "d1".into(), 10_000);
    match out.memory {
        Some(ProcessedEvent::IncidentMemory { incident_id, chain_id, cause, .. }) => {
            assert_eq!(incident_id, "inc-1");
            assert_eq!(chain_id, "ch1");
            assert_eq!(cause, None);
        }
        other => panic!("expected IncidentMemory, got {other:?}"),
    }
    assert!(matches!(out.card, Some(ProcessedEvent::DecisionCard { state: HealthState::Red, .. })));
    assert!(matches!(out.forward, ProcessedEvent::CausalChain { .. }));
    assert_eq!(stage.engine().store().count(), 1);
    // Before the idle period: nothing; after it: one green card, once.
    assert!(stage.on_sweep("g1".into(), 5, 10_000 + 299_999).is_none());
    assert!(matches!(
        stage.on_sweep("g2".into(), 6, 10_000 + 300_000),
        Some(ProcessedEvent::DecisionCard { state: HealthState::Green, .. })
    ));
    assert!(stage.on_sweep("g3".into(), 7, 10_000 + 900_000).is_none());
    // Other events pass straight through.
    let raw = ProcessedEvent::Raw { line: "x".into(), ts_ms: 1, source: "s".into(), service: "svc".into() };
    let out = stage.on_event(raw, "unused".into(), "unused".into(), 0);
    assert!(out.memory.is_none() && out.card.is_none());
    assert!(matches!(out.forward, ProcessedEvent::Raw { .. }));
}

#[test]
fn stage_quotes_a_resolved_fix_on_the_next_similar_chain() {
    let engine = DecisionEngine::new(DecisionParams::default(), Store::new(), ServiceCatalog::default());
    let mut stage = DecisionStage::new(engine);
    let first = stage.on_event(with_chain_id("ch-a"), "inc-a".into(), "d1".into(), 0);
    assert!(first.card.is_some());
    let card = ResolutionCard { cause: "pool too small".into(), fix: "raised pool size".into() };
    assert!(stage.resolve("inc-a", card, 600_000).is_some());
    let second = stage.on_event(with_chain_id("ch-b"), "inc-b".into(), "d2".into(), 700_000);
    match second.card {
        Some(ProcessedEvent::DecisionCard { similar_incidents, suggested_next_step, .. }) => {
            assert_eq!(similar_incidents.len(), 1);
            assert_eq!(similar_incidents[0].incident_id, "inc-a");
            assert_eq!(similar_incidents[0].past_cause.as_deref(), Some("pool too small"));
            assert_eq!(similar_incidents[0].past_fix.as_deref(), Some("raised pool size"));
            assert!(suggested_next_step.contains("raised pool size"));
        }
        other => panic!("expected a decision card, got {other:?}"),
    }
    // An unknown id resolves nothing.
    let card = ResolutionCard { cause: "c".into(), fix: "f".into() };
    assert!(stage.resolve("missing", card, 1).is_none());
}

#[test]
fn stage_reports_the_fingerprint_just_written() {
    let engine = DecisionEngine::new(DecisionParams::default(), Store::new(), ServiceCatalog::default());
    let mut stage = DecisionStage::new(engine);
    let mut late = with_chain_id("late");
    if let ProcessedEvent::CausalChain { first_seen_ms, .. } = &mut late {
        *first_seen_ms = 900_000;
    }
    stage.on_event(late, "inc-late".into(), "d1".into(), 0);
    // An older chain arrives afterwards: its own fingerprint is reported.
    let out = stage.on_event(with_chain_id("early"), "inc-early".into(), "d2".into(), 1);
    match out.memory {
        Some(ProcessedEvent::IncidentMemory { incident_id, chain_id, ts_ms, .. }) => {
            assert_eq!(incident_id, "inc-early");
            assert_eq!(chain_id, "early");
            assert_eq!(ts_ms, 0);
        }
        other => panic!("expected IncidentMemory, got {other:?}"),
    }
}
