use eks::crypto::StreamKey;
use eks::event::{chain_hash, GENESIS_HASH};
use eks::frames::{frame, key_path, parse_stream_filename, split_frames, stream_file, stream_path};
use eks::replay::{seal_event, stream_meta, EncryptedEvent};
use eks::stream::StreamId;

#[test]
fn frames_round_trip() {
    let mut file = Vec::new();
    for body in [b"one".to_vec(), vec![], vec![7u8; 300]] {
        file.extend(frame(&body).unwrap());
    }
    let bodies = split_frames(&file).unwrap();
    assert_eq!(bodies, vec![b"one".to_vec(), vec![], vec![7u8; 300]]);
}

#[test]
fn a_frame_is_its_length_then_its_body() {
    assert_eq!(frame(b"ab").unwrap(), vec![2, 0, 0, 0, b'a', b'b']);
}

#[test]
fn a_torn_tail_ends_the_file_and_an_overlong_header_is_an_error() {
    let mut file = frame(b"kept").unwrap();
    file.extend_from_slice(&[1, 0]);
    assert_eq!(split_frames(&file).unwrap(), vec![b"kept".to_vec()]);

    let mut bad = frame(b"kept").unwrap();
    bad.extend_from_slice(&[9, 0, 0, 0, 1]);
    assert!(split_frames(&bad).is_err());
}

#[test]
fn stream_files_are_named_by_stream_and_election() {
    let id = StreamId(0x0123_4567_89ab_cdef_0123_4567_89ab_cdef);
    assert_eq!(stream_path(id, "PS27:prov1"), "01234567-89ab-cdef-0123-456789abcdef_PS27_prov1.bin");
    assert_eq!(key_path(id, "EK27"), "01234567-89ab-cdef-0123-456789abcdef_EK27.key");
    assert_eq!(stream_file(id, "a:b:c", "tmp"), "01234567-89ab-cdef-0123-456789abcdef_a_b_c.tmp");
}

#[test]
fn sealed_events_chain_and_decrypt() {
    let cipher = StreamKey::generate().cipher();
    let (blob, hash) = seal_event(&cipher, 1, 42, &GENESIS_HASH, b"payload").unwrap();
    assert_eq!(hash, chain_hash(&GENESIS_HASH, 1, 42, &blob));
    let aad = eks::event::event_aad(1, 42, &GENESIS_HASH);
    assert_eq!(cipher.decrypt(&blob, &aad).unwrap(), b"payload".to_vec());
    let stored = EncryptedEvent { event_id: 1, created_at: 42, hash, payload: blob };
    assert_eq!(stored.event_id, 1);
}

#[test]
fn stream_file_names_parse_back() {
    let id = StreamId(0x0123_4567_89ab_cdef_0123_4567_89ab_cdef);
    assert_eq!(parse_stream_filename(&stream_path(id, "EK27")), Some((id, "EK27".to_string())));
    assert_eq!(parse_stream_filename(&stream_path(id, "PS27:prov1")), Some((id, "PS27:prov1".to_string())));
    // Only the first `_` after the id is turned back into `:`.
    assert_eq!(parse_stream_filename(&stream_path(id, "a:b:c")), Some((id, "a:b_c".to_string())));
    // Unrelated files are skipped.
    assert_eq!(parse_stream_filename(&key_path(id, "EK27")), None);
    assert_eq!(parse_stream_filename("notes.txt"), None);
    assert_eq!(parse_stream_filename("bin"), None);
    assert_eq!(parse_stream_filename("no-underscore.bin"), None);
    assert_eq!(parse_stream_filename("not-a-uuid_EK27.bin"), None);
}

#[test]
fn stream_metadata_summarises_the_stored_events() {
    let ev = |event_id: usize, created_at: i64| EncryptedEvent { event_id, created_at, hash: [0; 32], payload: vec![] };
    let meta = stream_meta(StreamId(5), "EK27".to_string(), &vec![ev(1, 100), ev(3, 300), ev(2, 200)]);
    assert_eq!(meta.stream_id, StreamId(5));
    assert_eq!(meta.election, "EK27");
    assert_eq!(meta.event_count, 3);
    assert_eq!(meta.created_at, Some(100));
    assert_eq!(meta.last_event_at, Some(200));

    let empty = stream_meta(StreamId(5), "EK27".to_string(), &vec![]);
    assert_eq!(empty.event_count, 0);
    assert_eq!(empty.created_at, None);
    assert_eq!(empty.last_event_at, None);
}
