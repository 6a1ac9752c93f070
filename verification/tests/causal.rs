use aegis_core::causal::{is_anomalous, CausalEngine, CausalParams};
use aegis_core::event::{CausalLink, ProcessedEvent};

fn first(service: &str, sig: &str, ts_ms: u64) -> ProcessedEvent {
    ProcessedEvent::FirstOccurrence {
        signature: sig.into(),
        line: format!("ERROR {service}: boom"),
        ts_ms,
        source: "tcp://x".into(),
        service: service.into(),
    }
}

fn unwrap_chain(ev: &ProcessedEvent) -> &Vec<CausalLink> {
    match ev {
        ProcessedEvent::CausalChain { chain, .. } => chain,
        other => panic!("expected CausalChain, got {other:?}"),
    }
}

/// Feed events through the detector the way the pipeline stage does: a
/// chain (if any) goes out before the event that fired it.
fn run(engine: &mut CausalEngine, events: Vec<ProcessedEvent>) -> Vec<ProcessedEvent> {
    let mut out = Vec::new();
    for (i, ev) in events.into_iter().enumerate() {
        let now_mono = ev.event_time();
        if let Some(chain) = engine.on_event(&ev, now_mono, format!("chain-{i}")) {
            out.push(chain);
        }
        out.push(ev);
    }
    out
}

#[test]
fn three_services_fire_a_chain() {
    let params = CausalParams { window_secs: 60, min_services: 3, cooldown_secs: 1, per_service_buffer: 8 };
    let mut engine = CausalEngine::new(params);
    // payment-api breaks first at t=0, checkout at t=10, orders at t=20.
    let out = run(
        &mut engine,
        vec![first("payment-api", "sig-a", 0), first("checkout", "sig-b", 10_000), first("orders", "sig-c", 20_000)],
    );
    let chain = out
        .iter()
        .find(|e| matches!(e, ProcessedEvent::CausalChain { .. }))
        .expect("a chain should have fired");
    let links = unwrap_chain(chain);
    assert_eq!(links.len(), 3);
    assert_eq!(links[0].service, "payment-api");
    assert_eq!(links[1].service, "checkout");
    assert_eq!(links[2].service, "orders");
    // Root cause confidence should be high — clear 10s + 20s spread.
    match chain {
        ProcessedEvent::CausalChain { confidence_bp, root_cause_service, .. } => {
            assert!(*confidence_bp > 9000, "expected high confidence, got {confidence_bp}");
            assert_eq!(root_cause_service, "payment-api");
        }
        _ => unreachable!(),
    }
}

#[test]
fn single_service_does_not_fire_chain() {
    let mut engine = CausalEngine::new(CausalParams::default());
    // Same service, three signatures — should NOT trigger.
    let events = run(&mut engine, vec![first("svc", "sig-a", 0), first("svc", "sig-b", 1000), first("svc", "sig-c", 2000)]);
    assert_eq!(events.len(), 3);
    assert!(events.iter().all(|e| matches!(e, ProcessedEvent::FirstOccurrence { .. })));
}

#[test]
fn routine_info_lines_do_not_fire_chain() {
    let mut engine = CausalEngine::new(CausalParams::default());
    // Three *healthy* services seen for the first time — INFO lines must
    // never be mistaken for a multi-service incident.
    let info = |svc: &str, sig: &str, ts_ms: u64| ProcessedEvent::FirstOccurrence {
        signature: sig.into(),
        line: format!("INFO  [t] {svc}: 200 OK"),
        ts_ms,
        source: "tcp://x".into(),
        service: svc.into(),
    };
    let events = run(&mut engine, vec![info("api-gateway", "s1", 0), info("auth", "s2", 1000), info("orders", "s3", 2000)]);
    assert_eq!(events.len(), 3);
    assert!(events.iter().all(|e| matches!(e, ProcessedEvent::FirstOccurrence { .. })));
}

#[test]
fn simultaneous_failures_yield_lower_confidence() {
    let params = CausalParams { min_services: 3, cooldown_secs: 1, ..CausalParams::default() };
    let mut engine = CausalEngine::new(params);
    // Three services break in the same instant — temporal order is
    // ambiguous, confidence should be low.
    let out = run(&mut engine, vec![first("a", "sig-a", 100_000), first("b", "sig-b", 100_000), first("c", "sig-c", 100_000)]);
    let conf = out
        .iter()
        .find_map(|e| match e {
            ProcessedEvent::CausalChain { confidence_bp, .. } => Some(*confidence_bp),
            _ => None,
        })
        .expect("chain should have fired");
    assert!(conf <= 7000, "expected ambiguous confidence, got {conf}");
}

#[test]
fn cooldown_suppresses_back_to_back_chains() {
    let params = CausalParams { window_secs: 600, min_services: 2, cooldown_secs: 600, per_service_buffer: 8 };
    let mut engine = CausalEngine::new(params);
    let out = run(
        &mut engine,
        vec![
            first("a", "s1", 0),
            first("b", "s2", 1000),
            // Another two services in the same window — should NOT re-fire.
            first("a", "s3", 2000),
            first("b", "s4", 3000),
        ],
    );
    let chain_count = out.iter().filter(|e| matches!(e, ProcessedEvent::CausalChain { .. })).count();
    assert_eq!(chain_count, 1);
}

#[test]
fn chain_reports_offsets_times_and_confidence() {
    let params = CausalParams { window_secs: 60, min_services: 2, cooldown_secs: 0, per_service_buffer: 4 };
    let mut engine = CausalEngine::new(params);
    assert!(engine.on_event(&first("db", "s1", 5_000), 5_000, "x".into()).is_none());
    let chain = engine.on_event(&first("api", "s2", 7_000), 7_000, "c-42".into()).expect("fires");
    match chain {
        ProcessedEvent::CausalChain { chain_id, root_cause_service, confidence_bp, chain, first_seen_ms, last_seen_ms, suppressed_lines } => {
            assert_eq!(chain_id, "c-42");
            assert_eq!(root_cause_service, "db");
            // 65% + 0.7 * 2000 ms / 10 = 6500 + 1400
            assert_eq!(confidence_bp, 7900);
            assert_eq!(chain.len(), 2);
            assert_eq!(chain[0].ts_offset_ms, 0);
            assert_eq!(chain[1].ts_offset_ms, 2_000);
            assert_eq!(chain[1].sample, "ERROR api: boom");
            assert_eq!(first_seen_ms, 5_000);
            assert_eq!(last_seen_ms, 7_000);
            assert_eq!(suppressed_lines, 0);
        }
        other => panic!("expected CausalChain, got {other:?}"),
    }
}

#[test]
fn ties_in_time_are_ordered_by_service_name() {
    let params = CausalParams { window_secs: 60, min_services: 2, cooldown_secs: 0, per_service_buffer: 4 };
    let mut engine = CausalEngine::new(params);
    assert!(engine.on_event(&first("zeta", "s1", 1_000), 1_000, "x".into()).is_none());
    let chain = engine.on_event(&first("alpha", "s2", 1_000), 1_000, "y".into()).expect("fires");
    let links = unwrap_chain(&chain);
    assert_eq!(links[0].service, "alpha");
    assert_eq!(links[1].service, "zeta");
}

#[test]
fn garbage_collection_forgets_old_first_occurrences() {
    let params = CausalParams { window_secs: 10, min_services: 2, cooldown_secs: 0, per_service_buffer: 4 };
    let mut engine = CausalEngine::new(params);
    assert!(engine.on_event(&first("a", "s1", 0), 0, "x".into()).is_none());
    engine.gc(60_000);
    // `a` fell out of the window and was forgotten: `b` alone does not fire.
    assert!(engine.on_event(&first("b", "s2", 60_000), 60_000, "y".into()).is_none());
}

#[test]
fn anomalous_lines_are_those_not_routine() {
    assert!(is_anomalous("ERROR payment-api: boom"));
    assert!(is_anomalous("  at db::Pool::checkout"));
    assert!(is_anomalous(""));
    assert!(!is_anomalous("INFO  [t] svc: 200 OK"));
    assert!(!is_anomalous("   debug something"));
    assert!(!is_anomalous("Trace x"));
    assert!(!is_anomalous("NOTICE hello"));
    assert!(is_anomalous("notice: hello"));
    assert!(is_anomalous("INFO: colon glued to the level"));
}

#[test]
fn forward_sends_the_chain_just_before_its_trigger() {
    let params = CausalParams { window_secs: 60, min_services: 2, cooldown_secs: 1, per_service_buffer: 8 };
    let mut engine = CausalEngine::new(params);
    let a = first("db", "s1", 0);
    let out = engine.forward(a.clone(), 0, "c0".into());
    assert_eq!(out, vec![a]);
    let b = first("api", "s2", 5_000);
    let out = engine.forward(b.clone(), 5_000, "c1".into());
    assert_eq!(out.len(), 2);
    assert!(matches!(&out[0], ProcessedEvent::CausalChain { chain_id, root_cause_service, .. }
        if chain_id == "c1" && root_cause_service == "db"));
    assert_eq!(out[1], b);
    let raw = ProcessedEvent::Raw { line: "x".into(), ts_ms: 6_000, source: "s".into(), service: "db".into() };
    assert_eq!(engine.forward(raw.clone(), 6_000, "c2".into()), vec![raw]);
}
