use eks::crypto::StreamKey;
use eks::csb_main::{CsbMainEvent, CsbMainStoreData};
use eks::error::AppError;
use eks::replay::{apply_encrypted_events, highest_frame_id, EncryptedEvent, Replay};
use eks::store::StoreData;
use eks::stream::StreamId;

fn no_decode(_: Vec<u8>) -> Option<CsbMainEvent> {
    None
}

#[test]
fn a_broken_chain_link_names_the_event() {
    let cipher = StreamKey::generate().cipher();
    let mut data = CsbMainStoreData::new();
    let events = vec![EncryptedEvent { event_id: 7, created_at: 10, hash: [0; 32], payload: vec![1, 2, 3] }];

    let r = apply_encrypted_events(&mut data, &cipher, &events, &no_decode, true);

    assert_eq!(r.err(), Some(AppError::EventDecodeError("hash chain broken at event 7".to_string())));
    assert!(data.events().is_empty());
}

#[test]
fn an_unreadable_payload_says_why() {
    let cipher = StreamKey::generate().cipher();
    let mut data = CsbMainStoreData::new();
    let events = vec![EncryptedEvent { event_id: 1, created_at: 10, hash: [0; 32], payload: vec![1, 2, 3] }];

    let r = apply_encrypted_events(&mut data, &cipher, &events, &no_decode, false);

    assert_eq!(r.err(), Some(AppError::EventDecodeError("ciphertext too short for nonce".to_string())));
    assert!(data.events().is_empty());
}

#[test]
fn a_truncated_replay_refuses_appends() {
    let replay = Replay { chain_tip: [0; 32], truncated_at: Some(3) };
    assert_eq!(
        replay.reject_append(StreamId(0x0123_4567_89ab_cdef_0123_4567_89ab_cdef)).err(),
        Some(AppError::EventDecodeError(
            "stream 01234567-89ab-cdef-0123-456789abcdef stopped replaying at event 3: refusing to append to a stream this build cannot fully read"
                .to_string()
        ))
    );
    assert!(Replay { chain_tip: [0; 32], truncated_at: None }.reject_append(StreamId(1)).is_ok());
}

fn frame_with_id(event_id: usize) -> EncryptedEvent {
    EncryptedEvent { event_id, created_at: 0, hash: [0; 32], payload: vec![] }
}

#[test]
fn the_last_file_id_is_the_highest_frame_id() {
    assert_eq!(highest_frame_id(&vec![]), 0);
    assert_eq!(highest_frame_id(&vec![frame_with_id(1), frame_with_id(2), frame_with_id(5)]), 5);
    assert_eq!(highest_frame_id(&vec![frame_with_id(1), frame_with_id(5), frame_with_id(3)]), 5);
    assert_eq!(highest_frame_id(&vec![frame_with_id(4), frame_with_id(4)]), 4);
}

#[test]
fn frames_out_of_order_are_still_replayed() {
    let cipher = StreamKey::generate().cipher();
    let mut data = CsbMainStoreData::new();
    let events = vec![frame_with_id(4), frame_with_id(2)];

    let r = apply_encrypted_events(&mut data, &cipher, &events, &no_decode, false);

    assert_eq!(r.err(), Some(AppError::EventDecodeError("ciphertext too short for nonce".to_string())));
}
