use aegis_core::event::{CausalLink, ProcessedEvent};
use aegis_core::incident_memory::{Fingerprint, MemoryError, ResolutionCard, Store};
use aegis_core::similarity::{jaccard, order_lcs_ratio};

fn strings(v: &[&str]) -> Vec<String> {
    v.iter().map(|s| s.to_string()).collect()
}

fn make_chain(chain_id: &str, root: &str, services: &[&str], signatures: &[&str]) -> ProcessedEvent {
    let links: Vec<CausalLink> = services
        .iter()
        .zip(signatures.iter())
        .enumerate()
        .map(|(i, (svc, sig))| CausalLink {
            service: svc.to_string(),
            signature: sig.to_string(),
            ts_ms: i as u64 * 1000,
            ts_offset_ms: i as u64 * 1000,
            sample: format!("ERROR {svc}: boom"),
        })
        .collect();
    ProcessedEvent::CausalChain {
        chain_id: chain_id.to_string(),
        root_cause_service: root.to_string(),
        confidence_bp: 9000,
        chain: links,
        first_seen_ms: 0,
        last_seen_ms: services.len() as u64 * 1000,
        suppressed_lines: 100,
    }
}

#[test]
fn jaccard_basic() {
    let a = strings(&["x", "y", "z"]);
    let b = strings(&["y", "z", "w"]);
    // |{y,z}| = 2, |union| = 4 → 0.5
    assert_eq!(jaccard(&a, &b), 5000);
}

#[test]
fn order_lcs_identical() {
    let a = strings(&["a", "b", "c"]);
    let b = a.clone();
    assert_eq!(order_lcs_ratio(&a, &b), 10000);
}

#[test]
fn order_lcs_subsequence() {
    let a = strings(&["a", "b", "c", "d"]);
    let b = strings(&["a", "c"]);
    // LCS is "a c" with length 2; max(n,m) is 4; ratio = 0.5
    assert_eq!(order_lcs_ratio(&a, &b), 5000);
}

#[test]
fn record_and_recall_round_trip() {
    let mut store = Store::new();
    let chain = make_chain("c1", "payment-api", &["payment-api", "checkout"], &["s1", "s2"]);
    let id = store.record_chain(&chain, "inc-1".into()).unwrap();
    let fp = store.get(&id).unwrap();
    assert_eq!(fp.root_cause_service, "payment-api");
    assert_eq!(fp.services.len(), 2);
    assert!(!fp.is_resolved());

    let resolved = store
        .resolve(
            &id,
            ResolutionCard { cause: "DB pool exhausted".into(), fix: "Reduced retry interval to 30s".into() },
            fp.ts_ms + 60_000,
        )
        .unwrap();
    assert!(resolved.is_resolved());
    assert_eq!(resolved.resolved_in_minutes, Some(1));
}

#[test]
fn similar_search_ranks_better_overlap_higher() {
    let mut store = Store::new();
    let past_a = make_chain("pa", "payment-api", &["payment-api", "checkout", "orders"], &["s1", "s2", "s3"]);
    let past_b = make_chain("pb", "auth", &["auth", "session-cache"], &["sX", "sY"]);
    store.record_chain(&past_a, "inc-a".into()).unwrap();
    store.record_chain(&past_b, "inc-b".into()).unwrap();

    // Resolve so the matches carry cause/fix text downstream.
    let pa_id = store.recent(2)[1].id.clone();
    let _ = store.resolve(
        &pa_id,
        ResolutionCard { cause: "DB pool exhausted".into(), fix: "Reduced retry interval".into() },
        10_000,
    );

    let new_chain = make_chain("new", "payment-api", &["payment-api", "checkout"], &["s1", "s2"]);
    let matches = store.search_similar(&new_chain, 3, 1000);
    assert!(!matches.is_empty());
    // The matching past incident must come first.
    assert_eq!(matches[0].past_root_cause_service, "payment-api");
    assert!(matches[0].similarity_bp > 5000);
}

#[test]
fn does_not_match_itself() {
    let mut store = Store::new();
    let chain = make_chain("same", "a", &["a", "b"], &["s1", "s2"]);
    let _id = store.record_chain(&chain, "inc".into()).unwrap();
    let matches = store.search_similar(&chain, 3, 0);
    assert!(matches.is_empty(), "must not match its own chain_id");
}

#[test]
fn similarity_blend_is_exact() {
    let mut store = Store::new();
    store
        .record_chain(&make_chain("pa", "payment-api", &["payment-api", "checkout", "orders"], &["s1", "s2", "s3"]), "inc-a".into())
        .unwrap();
    let new_chain = make_chain("new", "payment-api", &["payment-api", "checkout"], &["s1", "s2"]);
    let m = store.search_similar(&new_chain, 3, 0);
    assert_eq!(m.len(), 1);
    // (50 + 30 + 15)% of 2/3 (6666 bp each) plus the 5% root bonus.
    assert_eq!(m[0].similarity_bp, 95 * 6666 / 100 + 500);
    assert_eq!(m[0].incident_id, "inc-a");
    // A higher bar filters it out.
    assert!(store.search_similar(&new_chain, 3, 6900).is_empty());
    // And top_n bounds the answer.
    assert!(store.search_similar(&new_chain, 0, 0).is_empty());
}

#[test]
fn recent_is_newest_first_and_limited() {
    let mut store = Store::new();
    for (i, id) in ["a", "b", "c"].iter().enumerate() {
        let mut ev = make_chain(id, "svc", &["svc"], &["s"]);
        if let ProcessedEvent::CausalChain { first_seen_ms, .. } = &mut ev {
            *first_seen_ms = (i as u64 + 1) * 1000;
        }
        store.record_chain(&ev, format!("inc-{id}")).unwrap();
    }
    let ids: Vec<String> = store.recent(-1).into_iter().map(|f| f.id).collect();
    assert_eq!(ids, vec!["inc-c", "inc-b", "inc-a"]);
    assert_eq!(store.recent(2).len(), 2);
    assert_eq!(store.recent(0).len(), 0);
    assert_eq!(store.count(), 3);
}

#[test]
fn recording_again_under_an_id_replaces_it() {
    let mut store = Store::new();
    store.record_chain(&make_chain("x", "a", &["a"], &["s"]), "inc".into()).unwrap();
    store.record_chain(&make_chain("y", "b", &["b"], &["s"]), "inc".into()).unwrap();
    assert_eq!(store.count(), 1);
    assert_eq!(store.get("inc").unwrap().chain_id, "y");
}

#[test]
fn only_chains_are_remembered_and_unknown_ids_are_absent() {
    let mut store = Store::new();
    let ev = ProcessedEvent::Raw { line: "x".into(), ts_ms: 0, source: "s".into(), service: "v".into() };
    assert_eq!(store.record_chain(&ev, "inc".into()), Err(MemoryError::NotACausalChain));
    assert_eq!(store.count(), 0);
    assert!(store.get("nope").is_none());
    assert!(store
        .resolve("nope", ResolutionCard { cause: "c".into(), fix: "f".into() }, 1)
        .is_none());
}

#[test]
fn rows_load_in_order() {
    let mut a = Store::new();
    a.record_chain(&make_chain("x", "a", &["a", "b"], &["s1", "s2"]), "inc-1".into()).unwrap();
    let rows: Vec<Fingerprint> = a.recent(-1);
    let b = Store::from_rows(rows);
    assert_eq!(b.count(), 1);
    let fp = b.get("inc-1").unwrap();
    assert_eq!(fp.services, vec!["a".to_string(), "b".to_string()]);
    assert_eq!(fp.signatures, vec!["s1".to_string(), "s2".to_string()]);
    match fp.to_event() {
        ProcessedEvent::IncidentMemory { incident_id, services, resolved_at_ms, .. } => {
            assert_eq!(incident_id, "inc-1");
            assert_eq!(services.len(), 2);
            assert_eq!(resolved_at_ms, None);
        }
        other => panic!("expected IncidentMemory, got {other:?}"),
    }
}

#[test]
fn services_and_signatures_as_sets() {
    let mut store = Store::new();
    let chain = make_chain("c1", "db", &["db", "api", "db", "web"], &["s1", "s2", "s1", "s3"]);
    let id = store.record_chain(&chain, "inc-1".into()).unwrap();
    let fp: Fingerprint = store.get(&id).unwrap();
    let mut services = fp.services_set();
    services.sort();
    assert_eq!(services, strings(&["api", "db", "web"]));
    let mut signatures = fp.signatures_set();
    signatures.sort();
    assert_eq!(signatures, strings(&["s1", "s2", "s3"]));
}
