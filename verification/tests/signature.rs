use aegis_core::event::ProcessedEvent;
use aegis_core::signature::{compute, mask};

#[test]
fn identical_lines_share_signature() {
    let a = "ERROR [2026-05-21T22:11:03Z] payment-service: connection refused to 10.0.4.12:5432";
    let b = "ERROR [2026-05-21T22:11:04Z] payment-service: connection refused to 10.0.4.12:5432";
    assert_eq!(compute(a), compute(b));
}

#[test]
fn distinct_lines_diverge() {
    let a = "ERROR [2026-05-21T22:11:03Z] payment-service: connection refused to 10.0.4.12:5432";
    let b = "INFO  [2026-05-21T22:11:03Z] payment-service: connection established to 10.0.4.12:5432";
    assert_ne!(compute(a), compute(b));
}

#[test]
fn masks_uuid_and_request_id() {
    let line = "req=550e8400-e29b-41d4-a716-446655440000 rid=deadbeef0123456789abcdef status=500";
    let masked = mask(line);
    assert!(masked.contains("<UUID>"));
    assert!(masked.contains("<HEX>"));
    assert!(masked.contains("<N>"));
}

#[test]
fn mask_replaces_each_kind_of_token() {
    assert_eq!(
        mask("at 2026-05-21T22:11:03Z from 10.0.4.12 took 250ms, 3 retries"),
        "at <TS> from <IP> took <DUR>, <N> retries"
    );
    assert_eq!(mask("no tokens here"), "no tokens here");
}

#[test]
fn signature_is_the_blake3_prefix_of_the_mask() {
    let line = "ERROR payment-api: timeout after 30s";
    let digest = blake3::hash(mask(line).as_bytes());
    assert_eq!(compute(line).0[..], digest.as_bytes()[..16]);
    let hex = compute(line).to_hex();
    assert_eq!(hex.len(), 32);
    assert_eq!(ProcessedEvent::signature_hex(&compute(line)), hex);
    assert!(hex.chars().all(|c| c.is_ascii_hexdigit() && !c.is_ascii_uppercase()));
    assert_ne!(hex, mask(line));
}
