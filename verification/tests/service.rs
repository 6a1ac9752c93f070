use aegis_core::service::{choose_service, extract, extract_full, extract_with_continuation, extract_with_hint, is_continuation};

#[test]
fn level_prefix() {
    assert_eq!(extract("ERROR payment-api: connection refused", "tcp://x"), "payment-api");
}

#[test]
fn level_with_timestamp_prefix() {
    assert_eq!(extract("ERROR [2026-05-21T12:00:00Z] order-svc: boom", "tcp://x"), "order-svc");
}

#[test]
fn json_service_field() {
    assert_eq!(extract(r#"{"service":"checkout","msg":"oops"}"#, "tcp://x"), "checkout");
}

#[test]
fn kv_service_field() {
    assert_eq!(extract("rid=abc svc=ledger-api status=500", "tcp://x"), "ledger-api");
}

#[test]
fn bracketed_service() {
    assert_eq!(extract("[fulfilment] picking up order #42", "tcp://x"), "fulfilment");
}

#[test]
fn falls_back_to_source() {
    assert_eq!(
        extract("just a noisy line with no service tag", "tcp://1.2.3.4:5140"),
        "tcp://1.2.3.4:5140"
    );
}

#[test]
fn hint_wins() {
    assert_eq!(
        extract_with_hint("ERROR payment-api: oops", "tcp://x", Some("us-east-payment")),
        "us-east-payment"
    );
}

#[test]
fn ignores_level_after_brackets() {
    // `[ERROR]` is a level, not a service.
    assert_eq!(extract("[ERROR] something blew up", "tcp://x"), "tcp://x");
}

#[test]
fn unknown_when_source_empty() {
    assert_eq!(extract("noise", ""), "unknown");
}

#[test]
fn detects_continuation_lines() {
    assert!(is_continuation("  at db::Pool::checkout (db.rs:142)"));
    assert!(is_continuation("\tat handlers::charge (handlers.rs:88)"));
    assert!(is_continuation("caused by: io::Error: ConnectionRefused"));
    assert!(is_continuation("Caused by: java.sql.SQLException"));
    assert!(is_continuation("Traceback (most recent call last):"));
    assert!(!is_continuation("ERROR payment-api: connection refused"));
    assert!(!is_continuation("INFO 200 OK"));
}

#[test]
fn continuation_inherits_last_service() {
    let svc = extract_with_continuation(
        "  at db::Pool::checkout (db.rs:142)",
        "tcp://127.0.0.1:5140",
        Some("payment-api"),
    );
    assert_eq!(svc, "payment-api");
}

#[test]
fn continuation_without_last_service_falls_back() {
    let svc = extract_with_continuation("  at db::Pool::checkout (db.rs:142)", "tcp://x", None);
    assert_eq!(svc, "tcp://x");
}

#[test]
fn extract_full_prioritises_hint_then_inference_then_inheritance() {
    // Hint wins
    let s = extract_full("ERROR payment-api: x", "tcp://x", Some("us-east-payment"), Some("ignored"));
    assert_eq!(s, "us-east-payment");
    // No hint → inference wins on a regular line
    let s = extract_full("ERROR payment-api: x", "tcp://x", None, Some("ignored"));
    assert_eq!(s, "payment-api");
    // No hint, continuation → inheritance wins
    let s = extract_full("  at db::checkout", "tcp://x", None, Some("payment-api"));
    assert_eq!(s, "payment-api");
}

#[test]
fn blank_hint_does_not_win() {
    assert_eq!(extract_with_hint("ERROR payment-api: oops", "tcp://x", Some("   ")), "payment-api");
    assert_eq!(extract_with_hint("noise", "tcp://x", Some("  pinned  ")), "pinned");
}

#[test]
fn fallback_trims_source() {
    assert_eq!(extract("noise", "  tcp://y  "), "tcp://y");
    assert_eq!(extract("noise", "   "), "unknown");
}

#[test]
fn choose_service_takes_the_first_usable_shape() {
    let s = |x: &str| Some(x.to_string());
    assert_eq!(choose_service(s("json-svc"), s("kv"), s("lvl"), s("br")), s("json-svc"));
    assert_eq!(choose_service(None, s("kv"), s("lvl"), s("br")), s("kv"));
    assert_eq!(choose_service(s(""), None, s("ERROR"), s("br")), s("br"));
    assert_eq!(choose_service(None, None, s("payment-api"), None), s("payment-api"));
    assert_eq!(choose_service(None, None, s("warn"), s("Info")), None);
}
