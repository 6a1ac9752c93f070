use aegis_core::id::short_uuid_from_seed;
use std::collections::HashSet;

#[test]
fn returns_sixteen_hex_chars() {
    let id = short_uuid_from_seed(1_700_000_000_123_456_789, 0);
    assert_eq!(id.len(), 16);
    assert!(id.chars().all(|c| c.is_ascii_hexdigit()));
}

#[test]
fn ids_are_unique_within_a_run() {
    let mut seen = HashSet::new();
    for counter in 0..1024 {
        assert!(seen.insert(short_uuid_from_seed(1_700_000_000_000_000_000, counter)));
    }
}

#[test]
fn id_is_the_hashed_seed() {
    let mut seed = Vec::new();
    seed.extend_from_slice(&42u64.to_le_bytes());
    seed.extend_from_slice(&7u64.to_le_bytes());
    let digest = blake3::hash(&seed);
    let expected: String = digest.as_bytes()[..8].iter().map(|b| format!("{b:02x}")).collect();
    assert_eq!(short_uuid_from_seed(42, 7), expected);
}
