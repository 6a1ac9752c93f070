use aegis_core::event::ProcessedEvent;
use aegis_core::summary::{SourceAccumulator, SummaryTable, TOP_N};

#[test]
fn collapses_signatures_into_top_n() {
    let mut t = SummaryTable::default();
    for i in 0..10 {
        // Inject 10 distinct signatures, with sig "X" having the most volume.
        t.observe("svc", &format!("sig-{i}"), (i + 1) as u64, "sample", 1_000, 5_000);
    }
    t.observe("svc", "sig-X", 10_000, "boom", 500, 10_000);

    let events = t.drain_all();
    assert_eq!(events.len(), 1);
    match &events[0] {
        ProcessedEvent::Summary {
            source,
            suppressed_lines,
            unique_signatures,
            top_signatures,
            first_seen_ms,
            last_seen_ms,
            ..
        } => {
            assert_eq!(source, "svc");
            assert_eq!(*unique_signatures, 11);
            assert_eq!(*suppressed_lines, 10 * 11 / 2 + 10_000);
            assert_eq!(top_signatures.len(), TOP_N);
            assert_eq!(top_signatures[0].signature, "sig-X");
            assert_eq!(top_signatures[0].count, 10_000);
            assert_eq!(*first_seen_ms, 500);
            assert_eq!(*last_seen_ms, 10_000);
        }
        other => panic!("expected Summary, got {other:?}"),
    }
}

#[test]
fn empty_table_drains_to_nothing() {
    let mut t = SummaryTable::default();
    assert!(t.drain_all().is_empty());
}

#[test]
fn drain_resets_state() {
    let mut t = SummaryTable::default();
    t.observe("svc", "sig", 5, "x", 1_000, 2_000);
    let first = t.drain_all();
    assert_eq!(first.len(), 1);
    // Second drain should be empty until new observations land.
    let second = t.drain_all();
    assert!(second.is_empty());
}

#[test]
fn top_signatures_break_ties_by_name() {
    let mut acc = SourceAccumulator::default();
    assert!(acc.is_empty());
    acc.observe("b", 3, "sb", 10, 20);
    acc.observe("a", 3, "sa", 5, 30);
    acc.observe("c", 7, "sc", 8, 9);
    acc.observe("a", 1, "ignored", 1, 2);
    assert!(!acc.is_empty());
    match acc.drain_into_event("src".into()) {
        ProcessedEvent::Summary { window_ms, first_seen_ms, last_seen_ms, suppressed_lines, top_signatures, .. } => {
            assert_eq!((first_seen_ms, last_seen_ms, window_ms), (1, 30, 29));
            assert_eq!(suppressed_lines, 14);
            let order: Vec<(&str, u64)> = top_signatures.iter().map(|t| (t.signature.as_str(), t.count)).collect();
            assert_eq!(order, vec![("c", 7), ("a", 4), ("b", 3)]);
            assert_eq!(top_signatures[1].sample, "sa");
        }
        other => panic!("expected Summary, got {other:?}"),
    }
    assert!(acc.is_empty());
}

#[test]
fn summaries_come_per_source_in_order_of_first_sight() {
    let mut t = SummaryTable::default();
    t.observe("s2", "x", 1, "a", 1, 1);
    t.observe("s1", "y", 2, "b", 2, 2);
    t.observe("s2", "z", 3, "c", 3, 3);
    let sources: Vec<String> = t
        .drain_all()
        .into_iter()
        .map(|e| match e {
            ProcessedEvent::Summary { source, .. } => source,
            other => panic!("expected Summary, got {other:?}"),
        })
        .collect();
    assert_eq!(sources, vec!["s2".to_string(), "s1".to_string()]);
}
