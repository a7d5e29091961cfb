use eks::error::AppError;
use eks::memory::MemoryStore;
use eks::stream::{Scope, StreamId};

const ELECTION: &str = "EK27";

#[test]
fn streams_by_scope_filters_on_scope_and_data() {
    let mut store = MemoryStore::new();
    let pg = StreamId(1);
    let csb = StreamId(2);
    let empty = StreamId(3);

    store.ensure_stream(pg, ELECTION, Scope::PoliticalGroup);
    store.ensure_stream(csb, ELECTION, Scope::CentralElectoralCommittee);
    store.ensure_stream(empty, ELECTION, Scope::PoliticalGroup);
    store.record_event(pg, ELECTION, 1, [1u8; 32]);
    store.record_event(csb, ELECTION, 1, [2u8; 32]);

    assert_eq!(store.streams_by_scope(Scope::PoliticalGroup), vec![(pg, ELECTION.to_string())]);
    assert_eq!(store.streams_by_scope(Scope::CentralElectoralCommittee), vec![(csb, ELECTION.to_string())]);
}

#[test]
fn find_event_by_hash_prefix_matches_political_group_only() {
    let mut store = MemoryStore::new();
    let pg = StreamId(1);
    let csb = StreamId(2);
    store.ensure_stream(pg, ELECTION, Scope::PoliticalGroup);
    store.ensure_stream(csb, ELECTION, Scope::CentralElectoralCommittee);

    let pg_hash = [0xABu8; 32];
    let csb_hash = [0xCDu8; 32];
    store.record_event(pg, ELECTION, 1, pg_hash);
    store.record_event(csb, ELECTION, 1, csb_hash);

    assert_eq!(store.find_event_by_hash_prefix(&pg_hash[..4]).unwrap(), Some((pg, ELECTION.to_string(), 1)));
    // A CSB event is never resolved, even on an exact hash.
    assert_eq!(store.find_event_by_hash_prefix(&csb_hash).unwrap(), None);
    // Nothing matches an unknown prefix.
    assert_eq!(store.find_event_by_hash_prefix(&[0xFFu8; 4]).unwrap(), None);
}

#[test]
fn find_event_by_hash_prefix_detects_ambiguity() {
    let mut store = MemoryStore::new();
    let stream = StreamId(1);
    store.ensure_stream(stream, ELECTION, Scope::PoliticalGroup);
    let mut first = [0x01u8; 32];
    let mut second = [0x02u8; 32];
    first[0] = 0xAB;
    second[0] = 0xAB;
    store.record_event(stream, ELECTION, 1, first);
    store.record_event(stream, ELECTION, 2, second);

    // The shared `0xAB` first byte matches both events.
    let err = store.find_event_by_hash_prefix(&[0xABu8]).unwrap_err();
    assert!(matches!(err, AppError::AmbiguousHash));
}

#[test]
fn ensure_stream_does_not_overwrite_scope() {
    let mut store = MemoryStore::new();
    let stream = StreamId(1);
    store.ensure_stream(stream, ELECTION, Scope::PoliticalGroup);
    store.ensure_stream(stream, ELECTION, Scope::CentralElectoralCommittee);
    store.record_event(stream, ELECTION, 1, [1u8; 32]);

    assert_eq!(store.streams_by_scope(Scope::PoliticalGroup), vec![(stream, ELECTION.to_string())]);
}

#[test]
fn elections_are_listed_per_stream() {
    let mut store = MemoryStore::new();
    store.ensure_stream(StreamId(1), "EK27", Scope::PoliticalGroup);
    store.ensure_stream(StreamId(1), "PS27:groningen", Scope::PoliticalGroup);
    store.ensure_stream(StreamId(2), "GR26", Scope::PoliticalGroup);
    store.ensure_stream(StreamId(1), "GR26", Scope::PoliticalGroup);
    store.record_event(StreamId(1), "EK27", 1, [1u8; 32]);
    store.record_event(StreamId(1), "PS27:groningen", 1, [2u8; 32]);
    store.record_event(StreamId(2), "GR26", 1, [3u8; 32]);
    // A stream counts for an election only once it holds events there.
    let mut elections = store.elections_for_stream(StreamId(1));
    elections.sort();
    assert_eq!(elections, vec!["EK27".to_string(), "PS27:groningen".to_string()]);
    assert!(store.elections_for_stream(StreamId(3)).is_empty());
}
