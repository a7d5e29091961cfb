use eks::event::{chain_hash, event_aad, StoreEvent, GENESIS_HASH};
use sha2::Digest;

const TS: i64 = 1_700_000_000_000_000;

#[test]
fn new_sets_timestamp_and_fields() {
    let before = chrono::Utc::now().timestamp_micros();
    let event = StoreEvent::new(3, 37);
    let after = chrono::Utc::now().timestamp_micros();

    assert_eq!(event.event_id, 3);
    assert_eq!(event.payload, 37);
    assert!(event.created_at >= before);
    assert!(event.created_at <= after);
    assert_eq!(event.hash, GENESIS_HASH);
}

#[test]
fn new_at_uses_provided_timestamp() {
    let event = StoreEvent::new_at(7, 37, TS);

    assert_eq!(event.event_id, 7);
    assert_eq!(event.payload, 37);
    assert_eq!(event.created_at, TS);
}

#[test]
fn chain_hash_depends_on_every_input() {
    let base = chain_hash(&GENESIS_HASH, 1, TS, b"body");

    assert_ne!(base, chain_hash(&[1u8; 32], 1, TS, b"body"));
    assert_ne!(base, chain_hash(&GENESIS_HASH, 2, TS, b"body"));
    assert_ne!(base, chain_hash(&GENESIS_HASH, 1, TS + 1_000_000, b"body"));
    assert_ne!(base, chain_hash(&GENESIS_HASH, 1, TS, b"body!"));
    // Deterministic.
    assert_eq!(base, chain_hash(&GENESIS_HASH, 1, TS, b"body"));
}

#[test]
fn chain_hash_only_uses_microsecond_precision() {
    // Timestamps are carried as whole microseconds: a time with sub-microsecond
    // digits hashes as its microsecond truncation.
    let micros = 1_700_000_000_123_456i64;
    let with_nanos = chrono::DateTime::from_timestamp_micros(micros).unwrap() + chrono::Duration::nanoseconds(789);
    assert_eq!(
        chain_hash(&GENESIS_HASH, 1, micros, b"body"),
        chain_hash(&GENESIS_HASH, 1, with_nanos.timestamp_micros(), b"body"),
    );
}

#[test]
fn event_aad_is_stable_and_distinct() {
    assert_eq!(event_aad(1, TS, &GENESIS_HASH), event_aad(1, TS, &GENESIS_HASH));
    assert_ne!(event_aad(1, TS, &GENESIS_HASH), event_aad(2, TS, &GENESIS_HASH));
    assert_ne!(event_aad(1, TS, &GENESIS_HASH), event_aad(1, TS, &[7u8; 32]));
}

#[test]
fn chain_hash_is_sha256_of_the_documented_layout() {
    let mut input = Vec::new();
    input.extend_from_slice(&[9u8; 32]);
    input.extend_from_slice(&5u64.to_le_bytes());
    input.extend_from_slice(&TS.to_le_bytes());
    input.extend_from_slice(b"payload");
    let expected: [u8; 32] = sha2::Sha256::digest(&input).into();
    assert_eq!(chain_hash(&[9u8; 32], 5, TS, b"payload"), expected);

    let mut aad = Vec::new();
    aad.extend_from_slice(&5u64.to_le_bytes());
    aad.extend_from_slice(&TS.to_le_bytes());
    aad.extend_from_slice(&[9u8; 32]);
    assert_eq!(event_aad(5, TS, &[9u8; 32]), aad);
}
