use eks::csb_main::{CsbMainAction, CsbMainStoreData, CsbUser};
use eks::event::{EventHash, StoreEvent, GENESIS_HASH};
use eks::event_hash_prefix::EventHashPrefix;
use eks::error::AppError;
use eks::memory::MemoryStore;
use eks::store::{append_in_memory_if_unchanged, apply_event, current_event_hash, current_event_id, event_hash_matches, has_event_hash, StoreData};
use eks::stream::{Scope, StreamId};

fn order_event(event_id: usize, id: u128) -> StoreEvent<eks::csb_main::CsbMainEvent> {
    StoreEvent::new(event_id, CsbMainAction::UpdateListOrder(vec![StreamId(id)]).by_user(CsbUser { id: 1 }))
}

#[test]
fn apply_event_updates_projection_and_last_event_id() {
    let mut data = CsbMainStoreData::new();

    apply_event(&mut data, order_event(1, 42));

    assert_eq!(data.last_event_id(), 1);
    assert_eq!(data.list_order(), &vec![StreamId(42)]);
}

/// Applies an event carrying `hash` as its chain hash.
fn apply_hashed(data: &mut CsbMainStoreData, event_id: usize, hash: EventHash) {
    let mut event = order_event(event_id, event_id as u128);
    event.hash = hash;
    apply_event(data, event);
}

#[test]
fn event_hash_lookups_accept_only_this_stream_s_events() {
    let mut data = CsbMainStoreData::new();
    apply_hashed(&mut data, 1, [0x11; 32]);
    apply_hashed(&mut data, 2, [0x22; 32]);

    assert!(has_event_hash(&data, EventHashPrefix::of(&[0x11; 32])));
    assert!(has_event_hash(&data, EventHashPrefix::of(&[0x22; 32])));
    assert!(!has_event_hash(&data, EventHashPrefix::of(&[0xEE; 32])));

    // bound to one event, so a sibling's hash does not open it
    assert!(event_hash_matches(&data, 2, EventHashPrefix::of(&[0x22; 32])));
    assert!(!event_hash_matches(&data, 2, EventHashPrefix::of(&[0x11; 32])));
    assert!(!event_hash_matches(&data, 3, EventHashPrefix::of(&[0x22; 32])));
}

/// The genesis placeholder is shared by every stream, so it must never
/// name an event, even once one carries it.
#[test]
fn the_genesis_hash_never_matches() {
    let mut data = CsbMainStoreData::new();
    apply_hashed(&mut data, 1, GENESIS_HASH);

    let genesis = EventHashPrefix::of(&GENESIS_HASH);
    assert!(!has_event_hash(&data, genesis));
    assert!(!event_hash_matches(&data, 1, genesis));
}

#[test]
fn apply_event_skips_when_already_up_to_date() {
    let mut data = CsbMainStoreData::new();
    data.apply(order_event(2, 0));

    apply_event(&mut data, order_event(1, 7));

    assert_eq!(data.last_event_id(), 2);
    assert_eq!(data.events().len(), 1);
    assert_eq!(data.list_order(), &vec![StreamId(0)]);
}

#[test]
fn an_empty_projection_sits_at_genesis() {
    let mut data = CsbMainStoreData::new();
    assert_eq!(current_event_id(&data), 0);
    assert_eq!(current_event_hash(&data), GENESIS_HASH);
    apply_hashed(&mut data, 4, [0x44; 32]);
    assert_eq!(current_event_id(&data), 4);
    assert_eq!(current_event_hash(&data), [0x44; 32]);
    assert_eq!(CsbMainStoreData::scope(), Scope::CentralElectoralCommittee);
}

fn order_action(id: u128) -> eks::csb_main::CsbMainEvent {
    CsbMainAction::UpdateListOrder(vec![StreamId(id)]).by_user(CsbUser { id: 1 })
}

/// Two writers validate against the same snapshot; only the first may
/// write, the second sees the stream has moved.
#[test]
fn a_write_on_a_changed_stream_is_refused() {
    let mut data = CsbMainStoreData::new();
    let mut index = MemoryStore::new();
    let seen_by_both = data.last_event_id();

    let first = append_in_memory_if_unchanged(&mut data, &mut index, StreamId(1), "EK27", order_action(1), 10, b"a", seen_by_both);
    assert!(first.is_ok());

    let second = append_in_memory_if_unchanged(&mut data, &mut index, StreamId(1), "EK27", order_action(2), 20, b"b", seen_by_both);
    assert_eq!(second, Err(AppError::Conflict));
    assert_eq!(data.events().len(), 1);

    // A writer that saw the new state may write.
    let seen = data.last_event_id();
    assert!(append_in_memory_if_unchanged(&mut data, &mut index, StreamId(1), "EK27", order_action(3), 30, b"c", seen).is_ok());
    assert_eq!(data.events().len(), 2);
}
