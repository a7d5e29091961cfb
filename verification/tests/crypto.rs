use eks::crypto::{wrap_aad, EventCipher, EventDecryptError, EventEncryption, MasterKey, StreamKey, WrappedKey};
use eks::error::AppError;
use eks::stream::StreamId;

const TEST_ELECTION: &str = "EK27";
const NO_AAD: &[u8] = b"";

fn test_master() -> MasterKey {
    MasterKey::new("test-encryption-secret")
}

fn encrypt<T: serde::Serialize>(cipher: &EventCipher, value: &T, aad: &[u8]) -> Result<Vec<u8>, AppError> {
    cipher.encrypt(&postcard::to_allocvec(value).unwrap(), aad)
}

fn decrypt<T: serde::de::DeserializeOwned>(cipher: &EventCipher, data: Vec<u8>, aad: &[u8]) -> Result<T, AppError> {
    let plain = cipher.decrypt(&data, aad).map_err(|e| e.into_app_error())?;
    postcard::from_bytes(&plain).map_err(|e| AppError::EventDecodeError(e.to_string()))
}

#[test]
fn wrap_unwrap_round_trip() {
    let master = test_master();
    let stream_id = StreamId(1);
    let key = StreamKey::generate();

    let wrapped = master.wrap_key(&key, stream_id, TEST_ELECTION).unwrap();
    let unwrapped = master.unwrap_key(&wrapped, stream_id, TEST_ELECTION).unwrap();

    assert_eq!(key.expose_secret(), unwrapped.expose_secret());
}

#[test]
fn generated_keys_are_distinct() {
    let a = StreamKey::generate();
    let b = StreamKey::generate();

    assert_ne!(a.expose_secret(), b.expose_secret());
}

#[test]
fn wrong_master_key_cannot_unwrap() {
    let stream_id = StreamId(1);
    let key = StreamKey::generate();
    let wrapped = test_master().wrap_key(&key, stream_id, TEST_ELECTION).unwrap();

    let other = MasterKey::new("different-secret");
    let result = other.unwrap_key(&wrapped, stream_id, TEST_ELECTION);

    assert!(matches!(result, Err(AppError::EventDecodeError(_))));
}

#[test]
fn wrapped_key_is_bound_to_stream_and_election() {
    let master = test_master();
    let stream_id = StreamId(1);
    let key = StreamKey::generate();
    let wrapped = master.wrap_key(&key, stream_id, TEST_ELECTION).unwrap();

    // A different stream cannot unwrap it.
    assert!(master.unwrap_key(&wrapped, StreamId(2), TEST_ELECTION).is_err());
    // A different election cannot unwrap it.
    assert!(master.unwrap_key(&wrapped, stream_id, "PS27:groningen").is_err());
}

#[test]
fn tampered_wrapped_key_fails() {
    let master = test_master();
    let stream_id = StreamId(1);
    let key = StreamKey::generate();

    let mut bytes = master.wrap_key(&key, stream_id, TEST_ELECTION).unwrap().as_bytes().to_vec();
    let last = bytes.len() - 1;
    bytes[last] ^= 0x01;
    let wrapped = WrappedKey::from_bytes(bytes);

    assert!(master.unwrap_key(&wrapped, stream_id, TEST_ELECTION).is_err());
}

#[test]
fn too_short_wrapped_key_fails() {
    let master = test_master();
    let result = master.unwrap_key(&WrappedKey::from_bytes(vec![0u8; 5]), StreamId(1), TEST_ELECTION);
    assert!(matches!(result, Err(AppError::EventDecodeError(_))));
}

#[test]
fn crypto_round_trip_encrypt_decrypt() {
    let cipher = StreamKey::generate().cipher();

    let original: Vec<u8> = vec![1, 2, 3, 4, 5];
    let encrypted = encrypt(&cipher, &original, NO_AAD).unwrap();
    let decrypted: Vec<u8> = decrypt(&cipher, encrypted, NO_AAD).unwrap();

    assert_eq!(original, decrypted);
}

#[test]
fn different_keys_produce_different_ciphertexts() {
    let cipher_a = StreamKey::generate().cipher();
    let cipher_b = StreamKey::generate().cipher();

    let data = "same payload";
    let enc_a = encrypt(&cipher_a, &data, NO_AAD).unwrap();
    let enc_b = encrypt(&cipher_b, &data, NO_AAD).unwrap();

    // Different keys → different ciphertext (with overwhelming probability)
    assert_ne!(enc_a, enc_b);
}

#[test]
fn wrong_key_fails_decryption() {
    let cipher_a = StreamKey::generate().cipher();
    let cipher_b = StreamKey::generate().cipher();

    let encrypted = encrypt(&cipher_a, &42u32, NO_AAD).unwrap();
    let result = decrypt::<u32>(&cipher_b, encrypted, NO_AAD);

    assert!(result.is_err());
}

#[test]
fn crypto_tampered_ciphertext_fails() {
    let cipher = StreamKey::generate().cipher();

    let mut encrypted = encrypt(&cipher, &"hello", NO_AAD).unwrap();
    // Flip a bit in the ciphertext (after the nonce)
    let last = encrypted.len() - 1;
    encrypted[last] ^= 0x01;

    let result = decrypt::<String>(&cipher, encrypted, NO_AAD);
    assert!(result.is_err());
}

#[test]
fn wrong_aad_fails_decryption() {
    let cipher = StreamKey::generate().cipher();

    let encrypted = encrypt(&cipher, &"hello", b"aad-a").unwrap();

    assert!(decrypt::<String>(&cipher, encrypted.clone(), b"aad-b").is_err());
    assert!(decrypt::<String>(&cipher, encrypted.clone(), NO_AAD).is_err());
    assert_eq!(decrypt::<String>(&cipher, encrypted, b"aad-a").unwrap(), "hello");
}

#[test]
fn crypto_decrypt_too_short_data_fails() {
    let cipher = StreamKey::generate().cipher();

    let result = decrypt::<u32>(&cipher, vec![0u8; 5], NO_AAD);
    assert!(result.is_err());
}

#[test]
fn crypto_same_plaintext_produces_different_ciphertexts() {
    let cipher = StreamKey::generate().cipher();

    let data = "repeated";
    let enc1 = encrypt(&cipher, &data, NO_AAD).unwrap();
    let enc2 = encrypt(&cipher, &data, NO_AAD).unwrap();

    // Random nonces → different ciphertexts
    assert_ne!(enc1, enc2);

    // Both decrypt to the same value
    let dec1: String = decrypt(&cipher, enc1, NO_AAD).unwrap();
    let dec2: String = decrypt(&cipher, enc2, NO_AAD).unwrap();
    assert_eq!(dec1, dec2);
    assert_eq!(dec1, "repeated");
}

#[test]
fn ciphertext_is_nonce_then_sealed_payload() {
    let cipher = StreamKey::generate().cipher();
    let encrypted = cipher.encrypt(b"abc", NO_AAD).unwrap();
    assert_eq!(encrypted.len(), 12 + 3 + 16);
    assert_eq!(cipher.decrypt(&encrypted, NO_AAD).unwrap(), b"abc".to_vec());
}

#[test]
fn wrap_aad_names_stream_and_election() {
    let aad = wrap_aad(StreamId(0x0102), "EK27");
    let mut expected = b"stream-key:".to_vec();
    expected.extend_from_slice(&0x0102u128.to_be_bytes());
    expected.push(b':');
    expected.extend_from_slice(b"EK27");
    assert_eq!(aad, expected);
}

fn test_secret() -> &'static str {
    "test-encryption-secret"
}

#[test]
fn encryption_round_trip_encrypt_decrypt() {
    let enc = EventEncryption::new(test_secret());
    let stream_id = StreamId(1);
    let cipher = enc.derive_cipher(stream_id, TEST_ELECTION);

    let original: Vec<u8> = vec![1, 2, 3, 4, 5];
    let encrypted = encrypt(&cipher, &original, NO_AAD).unwrap();
    let decrypted: Vec<u8> = decrypt(&cipher, encrypted, NO_AAD).unwrap();

    assert_eq!(original, decrypted);
}

#[test]
fn different_streams_produce_different_ciphertexts() {
    let enc = EventEncryption::new(test_secret());
    let cipher_a = enc.derive_cipher(StreamId(1), TEST_ELECTION);
    let cipher_b = enc.derive_cipher(StreamId(2), TEST_ELECTION);

    let data = "same payload";
    let enc_a = encrypt(&cipher_a, &data, NO_AAD).unwrap();
    let enc_b = encrypt(&cipher_b, &data, NO_AAD).unwrap();

    assert_ne!(enc_a, enc_b);
}

#[test]
fn wrong_stream_fails_decryption() {
    let enc = EventEncryption::new(test_secret());
    let cipher_a = enc.derive_cipher(StreamId(1), TEST_ELECTION);
    let cipher_b = enc.derive_cipher(StreamId(2), TEST_ELECTION);

    let encrypted = encrypt(&cipher_a, &42u32, NO_AAD).unwrap();
    assert!(decrypt::<u32>(&cipher_b, encrypted, NO_AAD).is_err());
}

#[test]
fn different_elections_fail_decryption() {
    let enc = EventEncryption::new(test_secret());
    let stream_id = StreamId(1);
    let cipher_a = enc.derive_cipher(stream_id, TEST_ELECTION);
    let cipher_b = enc.derive_cipher(stream_id, "PS27:groningen");

    let encrypted = encrypt(&cipher_a, &42u32, NO_AAD).unwrap();
    assert!(decrypt::<u32>(&cipher_b, encrypted, NO_AAD).is_err());
}

#[test]
fn wrong_secret_fails_decryption() {
    let stream_id = StreamId(1);
    let cipher_a = EventEncryption::new("secret-a").derive_cipher(stream_id, TEST_ELECTION);
    let cipher_b = EventEncryption::new("secret-b").derive_cipher(stream_id, TEST_ELECTION);

    let encrypted = encrypt(&cipher_a, &42u32, NO_AAD).unwrap();
    assert!(decrypt::<u32>(&cipher_b, encrypted, NO_AAD).is_err());
}

#[test]
fn encryption_tampered_ciphertext_fails() {
    let cipher = EventEncryption::new(test_secret()).derive_cipher(StreamId(1), TEST_ELECTION);

    let mut encrypted = encrypt(&cipher, &"hello", NO_AAD).unwrap();
    let last = encrypted.len() - 1;
    encrypted[last] ^= 0x01;

    assert!(decrypt::<String>(&cipher, encrypted, NO_AAD).is_err());
}

#[test]
fn encryption_decrypt_too_short_data_fails() {
    let cipher = EventEncryption::new(test_secret()).derive_cipher(StreamId(1), TEST_ELECTION);

    assert!(decrypt::<u32>(&cipher, vec![0u8; 5], NO_AAD).is_err());
}

#[test]
fn encryption_same_plaintext_produces_different_ciphertexts() {
    let cipher = EventEncryption::new(test_secret()).derive_cipher(StreamId(1), TEST_ELECTION);

    let data = "repeated";
    let enc1 = encrypt(&cipher, &data, NO_AAD).unwrap();
    let enc2 = encrypt(&cipher, &data, NO_AAD).unwrap();

    assert_ne!(enc1, enc2);

    let dec1: String = decrypt(&cipher, enc1, NO_AAD).unwrap();
    let dec2: String = decrypt(&cipher, enc2, NO_AAD).unwrap();
    assert_eq!(dec1, dec2);
    assert_eq!(dec1, "repeated");
}

#[test]
fn derived_cipher_is_deterministic() {
    let a = EventEncryption::new(test_secret()).derive_cipher(StreamId(1), TEST_ELECTION);
    let b = EventEncryption::new(test_secret()).derive_cipher(StreamId(1), TEST_ELECTION);
    let encrypted = encrypt(&a, &7u32, NO_AAD).unwrap();
    assert_eq!(decrypt::<u32>(&b, encrypted, NO_AAD).unwrap(), 7);
}

#[test]
fn decryption_failures_report_their_reason() {
    assert_eq!(
        EventDecryptError::IncompatiblePayload("bad tag".to_string()).into_app_error(),
        AppError::EventDecodeError("payload deserialize failed: bad tag".to_string())
    );
    assert_eq!(
        EventDecryptError::Unreadable("aead failure".to_string()).into_app_error(),
        AppError::EventDecodeError("aead failure".to_string())
    );
}

#[test]
fn key_and_cipher_descriptions_are_redacted() {
    assert_eq!(test_master().describe(), "MasterKey([REDACTED])");
    assert_eq!(StreamKey::generate().describe(), "StreamKey([REDACTED])");
    assert_eq!(StreamKey::generate().cipher().describe(), "EventCipher([REDACTED])");
    let wrapped = test_master().wrap_key(&StreamKey::generate(), StreamId(1), TEST_ELECTION).unwrap();
    assert_eq!(wrapped.describe(), "WrappedKey(60 bytes)");
}

#[test]
fn wrapped_key_is_nonce_ciphertext_and_tag() {
    let wrapped = test_master().wrap_key(&StreamKey::generate(), StreamId(1), TEST_ELECTION).unwrap();
    assert_eq!(wrapped.as_bytes().len(), 12 + 32 + 16);
    assert!(WrappedKey::from_bytes(wrapped.as_bytes().to_vec()) == wrapped);
}

#[test]
fn unwrap_failures_say_why() {
    let master = test_master();
    let short = master.unwrap_key(&WrappedKey::from_bytes(vec![0u8; 5]), StreamId(1), TEST_ELECTION);
    assert_eq!(short.err(), Some(AppError::EventDecodeError("wrapped stream key too short for nonce".to_string())));

    let wrapped = master.wrap_key(&StreamKey::generate(), StreamId(1), TEST_ELECTION).unwrap();
    let other = master.unwrap_key(&wrapped, StreamId(2), TEST_ELECTION);
    assert_eq!(other.err(), Some(AppError::EventDecodeError("stream key unwrap failed: aead::Error".to_string())));
}

#[test]
fn decrypt_failures_say_why() {
    let cipher = StreamKey::generate().cipher();
    assert_eq!(
        cipher.decrypt(&[0u8; 5], &[]).err(),
        Some(EventDecryptError::Unreadable("ciphertext too short for nonce".to_string()))
    );
    let sealed = cipher.encrypt(b"payload", b"aad").unwrap();
    assert_eq!(
        cipher.decrypt(&sealed, b"other").err(),
        Some(EventDecryptError::Unreadable("AES-GCM decrypt failed: aead::Error".to_string()))
    );
}
