use aegis_core::dedup::{DedupEngine, DedupParams, LineOutput};
use aegis_core::event::{Classification, IngestLine, ProcessedEvent};
use aegis_core::signature::compute;
use aegis_core::table::NameTable;

fn default_params(window_secs: u64) -> DedupParams {
    DedupParams {
        window_secs,
        max_open_signatures: 16,
        sidecar_enabled: false,
        summarize_routine: false,
        summary_flush_secs: 60,
        source_to_service: NameTable::new(),
    }
}

fn line(source: &str, text: &str, ts_ms: u64) -> IngestLine {
    IngestLine { source: source.into(), text: text.into(), ts_ms }
}

#[test]
fn collapses_repeated_lines() {
    let mut engine = DedupEngine::new(default_params(1));
    let mut out = Vec::new();
    let mut events_in = 0;
    for _ in 0..10 {
        events_in += 1;
        let LineOutput { events, classify } = engine.on_line(line("test", "ERROR boom", 1_700_000_000_000), 0, false);
        assert!(classify.is_none());
        out.extend(events);
    }
    assert_eq!(out.len(), 1);
    assert!(matches!(out[0], ProcessedEvent::FirstOccurrence { .. }));
    // 1.5 s later the window (1 s) has closed.
    let closed = engine.on_tick(1_500);
    assert_eq!(closed.len(), 1);
    match &closed[0] {
        ProcessedEvent::Collapsed { count, classification, .. } => {
            assert_eq!(*count, 10);
            assert!(classification.is_none(), "no sidecar configured");
        }
        other => panic!("expected Collapsed, got {other:?}"),
    }
    assert_eq!(events_in, 10);
    assert!(engine.flush_all().is_empty());
}

#[test]
fn distinct_signatures_each_get_first_occurrence() {
    let mut engine = DedupEngine::new(default_params(5));
    let a = engine.on_line(line("t", "ERROR a", 1_000), 0, false);
    let b = engine.on_line(line("t", "INFO b", 2_000), 0, false);
    assert_eq!(a.events.len(), 1);
    assert_eq!(b.events.len(), 1);
    assert!(matches!(a.events[0], ProcessedEvent::FirstOccurrence { .. }));
    assert!(matches!(b.events[0], ProcessedEvent::FirstOccurrence { .. }));
    assert_eq!(engine.open_signatures(), 2);
    // Each seen once: shutdown drops them silently.
    assert!(engine.flush_all().is_empty());
    assert_eq!(engine.open_signatures(), 0);
}

#[test]
fn first_occurrence_carries_line_service_and_signature() {
    let mut engine = DedupEngine::new(default_params(30));
    let out = engine.on_line(line("tcp://x", "ERROR payment-api: pool exhausted", 42), 0, false);
    match &out.events[0] {
        ProcessedEvent::FirstOccurrence { signature, line, ts_ms, source, service } => {
            assert_eq!(*signature, compute("ERROR payment-api: pool exhausted").to_hex());
            assert_eq!(line, "ERROR payment-api: pool exhausted");
            assert_eq!(*ts_ms, 42);
            assert_eq!(source, "tcp://x");
            assert_eq!(service, "payment-api");
        }
        other => panic!("expected FirstOccurrence, got {other:?}"),
    }
    // A stack frame on the same source inherits the service.
    let out = engine.on_line(line("tcp://x", "  at db::Pool::checkout (db.rs:142)", 43), 0, false);
    match &out.events[0] {
        ProcessedEvent::FirstOccurrence { service, .. } => assert_eq!(service, "payment-api"),
        other => panic!("expected FirstOccurrence, got {other:?}"),
    }
}

#[test]
fn pinned_source_names_the_service() {
    let mut pins = NameTable::new();
    pins.set("udp://gw".to_string(), "us-east-payment".to_string());
    let params = DedupParams { source_to_service: pins, ..default_params(30) };
    let mut engine = DedupEngine::new(params);
    let out = engine.on_line(line("udp://gw", "ERROR checkout: boom", 1), 0, false);
    match &out.events[0] {
        ProcessedEvent::FirstOccurrence { service, .. } => assert_eq!(service, "us-east-payment"),
        other => panic!("expected FirstOccurrence, got {other:?}"),
    }
}

#[test]
fn override_passes_every_line_raw() {
    let mut engine = DedupEngine::new(default_params(30));
    for i in 0..3 {
        let out = engine.on_line(line("t", "ERROR same", i), 0, true);
        assert_eq!(out.events.len(), 1);
        match &out.events[0] {
            ProcessedEvent::Raw { line, ts_ms, .. } => {
                assert_eq!(line, "ERROR same");
                assert_eq!(*ts_ms, i);
            }
            other => panic!("expected Raw, got {other:?}"),
        }
    }
    assert_eq!(engine.open_signatures(), 0);
}

#[test]
fn full_table_flushes_the_oldest_entry_first() {
    let params = DedupParams { max_open_signatures: 2, ..default_params(30) };
    let mut engine = DedupEngine::new(params);
    engine.on_line(line("t", "ERROR one", 1), 10, false);
    engine.on_line(line("t", "ERROR one", 2), 11, false);
    engine.on_line(line("t", "ERROR two", 3), 20, false);
    let out = engine.on_line(line("t", "ERROR three", 4), 30, false);
    assert_eq!(out.events.len(), 2);
    match &out.events[0] {
        ProcessedEvent::Collapsed { count, sample, first_seen_ms, last_seen_ms, window_ms, .. } => {
            assert_eq!(*count, 2);
            assert_eq!(sample, "ERROR one");
            assert_eq!((*first_seen_ms, *last_seen_ms, *window_ms), (1, 2, 1));
        }
        other => panic!("expected Collapsed, got {other:?}"),
    }
    assert!(matches!(out.events[1], ProcessedEvent::FirstOccurrence { .. }));
    assert_eq!(engine.open_signatures(), 2);
}

#[test]
fn entries_held_for_twice_the_window_close_even_if_busy() {
    let mut engine = DedupEngine::new(default_params(10));
    engine.on_line(line("t", "ERROR busy", 0), 0, false);
    engine.on_line(line("t", "ERROR busy", 1), 15_000, false);
    assert!(engine.on_tick(19_999).is_empty());
    let out = engine.on_tick(20_000);
    assert_eq!(out.len(), 1);
    assert_eq!(engine.open_signatures(), 0);
}

#[test]
fn sidecar_labels_ride_on_the_collapse() {
    let params = DedupParams { sidecar_enabled: true, ..default_params(1) };
    let mut engine = DedupEngine::new(params);
    let out = engine.on_line(line("t", "WARN disk 91% full", 0), 0, false);
    let (sig, text) = out.classify.expect("a new signature is classified");
    assert_eq!(text, "WARN disk 91% full");
    engine.on_classification(sig, Classification { label: "anomaly".into(), confidence_bp: 9100, strategy: "embedding_distance".into() });
    engine.on_line(line("t", "WARN disk 92% full", 1), 10, false);
    let closed = engine.on_tick(5_000);
    match &closed[0] {
        ProcessedEvent::Collapsed { count, classification, .. } => {
            assert_eq!(*count, 2);
            assert_eq!(classification.as_ref().map(|c| c.label.as_str()), Some("anomaly"));
        }
        other => panic!("expected Collapsed, got {other:?}"),
    }
}

#[test]
fn routine_collapses_roll_into_summaries() {
    let params = DedupParams { sidecar_enabled: true, summarize_routine: true, ..default_params(1) };
    let mut engine = DedupEngine::new(params);
    let out = engine.on_line(line("src-a", "INFO heartbeat 1", 0), 0, false);
    let (sig, _) = out.classify.unwrap();
    engine.on_classification(sig, Classification { label: "routine".into(), confidence_bp: 9900, strategy: "rules".into() });
    engine.on_line(line("src-a", "INFO heartbeat 2", 500), 0, false);
    engine.on_line(line("src-a", "INFO heartbeat 3", 900), 0, false);
    assert!(engine.on_tick(5_000).is_empty());
    let sums = engine.on_summary_tick();
    assert_eq!(sums.len(), 1);
    match &sums[0] {
        ProcessedEvent::Summary { source, suppressed_lines, unique_signatures, first_seen_ms, last_seen_ms, .. } => {
            assert_eq!(source, "src-a");
            assert_eq!(*suppressed_lines, 3);
            assert_eq!(*unique_signatures, 1);
            assert_eq!((*first_seen_ms, *last_seen_ms), (0, 900));
        }
        other => panic!("expected Summary, got {other:?}"),
    }
    assert!(engine.on_summary_tick().is_empty());
    assert_eq!(engine.summary_period_secs(), 60);
}

#[test]
fn one_first_occurrence_and_one_count_per_signature_among_others() {
    let mut engine = DedupEngine::new(default_params(1));
    let mut out = Vec::new();
    for (i, text) in ["ERROR a", "WARN b", "ERROR a", "ERROR a", "WARN b", "ERROR c"].iter().enumerate() {
        out.extend(engine.on_line(line("src", text, 1_000 + i as u64), 0, false).events);
    }
    let firsts: Vec<&str> = out
        .iter()
        .map(|e| match e {
            ProcessedEvent::FirstOccurrence { line, .. } => line.as_str(),
            other => panic!("unexpected {other:?}"),
        })
        .collect();
    assert_eq!(firsts, vec!["ERROR a", "WARN b", "ERROR c"]);
    let closed = engine.on_tick(1_500);
    let counts: Vec<(String, u64)> = closed
        .iter()
        .map(|e| match e {
            ProcessedEvent::Collapsed { sample, count, .. } => (sample.clone(), *count),
            other => panic!("unexpected {other:?}"),
        })
        .collect();
    // "ERROR c" was seen once: it closes silently.
    assert_eq!(counts, vec![("ERROR a".to_string(), 3), ("WARN b".to_string(), 2)]);
}
