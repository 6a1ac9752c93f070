use aegis_core::service_catalog::ServiceCatalog;

#[test]
fn lookup_returns_known_service_impact() {
    let c = ServiceCatalog::with_entries(&[("payment-api", "Money flows.")]);
    assert_eq!(c.lookup("payment-api"), Some("Money flows."));
}

#[test]
fn lookup_returns_none_for_unknown_service() {
    let c = ServiceCatalog::default();
    assert!(c.lookup("payment-api").is_none());
}

#[test]
fn later_entry_for_a_service_wins() {
    let c = ServiceCatalog::with_entries(&[("a", "one"), ("b", "two"), ("a", "three")]);
    assert_eq!(c.len(), 2);
    assert_eq!(c.lookup("a"), Some("three"));
    assert_eq!(c.lookup("b"), Some("two"));
    assert!(!c.is_empty());
    assert!(ServiceCatalog::default().is_empty());
}

#[test]
fn from_map_holds_the_pairs() {
    let c = ServiceCatalog::from_map(vec![
        ("orders".to_string(), "Order fulfilment pipeline.".to_string()),
        ("checkout".to_string(), "Customer-facing checkout flow.".to_string()),
    ]);
    assert_eq!(c.len(), 2);
    assert_eq!(c.lookup("orders"), Some("Order fulfilment pipeline."));
    assert_eq!(c.lookup("missing"), None);
}

#[test]
fn later_entry_wins_and_len_counts_names() {
    let c = ServiceCatalog::with_entries(&[("a", "1"), ("b", "x"), ("a", "2")]);
    assert_eq!(c.lookup("a"), Some("2"));
    assert_eq!(c.lookup("b"), Some("x"));
    assert_eq!(c.len(), 2);
}
