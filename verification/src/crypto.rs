//! Envelope encryption for event payloads.
//!
//! Each stream gets a random 256-bit [`StreamKey`]. Event payloads are
//! encrypted with it using AES-256-GCM ([`EventCipher`]) as
//! `nonce ‖ ciphertext ‖ tag`. The stream key is stored only in wrapped form:
//! encrypted by the [`MasterKey`] (derived from the master secret with
//! HKDF-SHA256) with `(stream_id, election)` bound as associated data, so a
//! wrapped key cannot be moved to another stream.

use aes_gcm::aead::{Aead, AeadCore, KeyInit, OsRng, Payload};
use aes_gcm::Aes256Gcm;
use vstd::prelude::*;
use vstd::string::StringSliceAdditionalSpecFns;

use crate::bytes::{push_u128_be, u128_be};
use crate::entities::push_all;
use crate::error::AppError;
use crate::stream::StreamId;
use crate::text::{decimal, push_decimal};

verus! {

/// Domain-separation salt for the key-encryption key.
pub const KEK_HKDF_SALT: &'static str = "e-KS stream key wrapping v1";

/// HKDF info string for the key-encryption key.
pub const KEK_HKDF_INFO: &'static str = "key-encryption-key:v1";

/// Prefix of the associated data binding a wrapped key to its stream.
pub const WRAP_AAD_PREFIX: &'static str = "stream-key:";

/// Length of an AES-256 key.
pub const KEY_LEN: usize = 32;

/// Length of an AES-GCM nonce.
pub const NONCE_LEN: usize = 12;

/// The largest plaintext (and associated data) AES-GCM accepts: 2^36 bytes.
pub open spec fn gcm_max_len() -> nat {
    0x10_0000_0000
}

/// AES-256-GCM encryption of `msg` under `key` and `nonce` with `aad`
/// authenticated: the ciphertext followed by the 16-byte tag.
pub uninterp spec fn aes256gcm_seal(key: Seq<u8>, nonce: Seq<u8>, aad: Seq<u8>, msg: Seq<u8>) -> Seq<u8>;

/// AES-256-GCM decryption of `ciphertext ‖ tag`: the plaintext when the tag
/// authenticates under `key`, `nonce` and `aad`, nothing otherwise.
pub uninterp spec fn aes256gcm_open(key: Seq<u8>, nonce: Seq<u8>, aad: Seq<u8>, ct: Seq<u8>) -> Option<Seq<u8>>;

/// HKDF-SHA256 (extract with `salt`, then expand with `info`) of `len` bytes.
pub uninterp spec fn hkdf_sha256(salt: Seq<u8>, ikm: Seq<u8>, info: Seq<u8>, len: nat) -> Seq<u8>;

/// The error `aes-gcm` reports when it refuses to encrypt or decrypt.
#[verifier::external_type_specification]
#[verifier::external_body]
pub struct ExAeadError(aes_gcm::Error);

/// Calls `aes_gcm::Aes256Gcm::encrypt` with `aad` as associated data.
/// Trusted: the source refuses plaintexts or associated data longer than
/// 2^36 bytes and otherwise returns the ciphertext with its 16-byte tag,
/// which `aes256gcm_seal` names; decrypting it with the same key, nonce and
/// associated data gives the plaintext back (AEAD correctness).
#[verifier::external_body]
fn aead_seal(key: &[u8], nonce: &[u8], aad: &[u8], msg: &[u8]) -> (r: Result<Vec<u8>, aes_gcm::Error>)
    requires
        key@.len() == KEY_LEN,
        nonce@.len() == NONCE_LEN,
    ensures
        match r {
            Ok(c) => {
                &&& msg@.len() <= gcm_max_len() && aad@.len() <= gcm_max_len()
                &&& c@ == aes256gcm_seal(key@, nonce@, aad@, msg@)
                &&& c@.len() == msg@.len() + 16
                &&& aes256gcm_open(key@, nonce@, aad@, c@) == Some(msg@)
            },
            Err(_) => !(msg@.len() <= gcm_max_len() && aad@.len() <= gcm_max_len()),
        },
{
    let cipher = Aes256Gcm::new_from_slice(key).unwrap();
    cipher.encrypt(aes_gcm::Nonce::from_slice(nonce), Payload { msg, aad })
}

/// Calls `aes_gcm::Aes256Gcm::decrypt` with `aad` as associated data.
/// Trusted: the result is the plaintext exactly when `aes256gcm_open` names
/// one.
#[verifier::external_body]
fn aead_open(key: &[u8], nonce: &[u8], aad: &[u8], ct: &[u8]) -> (r: Result<Vec<u8>, aes_gcm::Error>)
    requires
        key@.len() == KEY_LEN,
        nonce@.len() == NONCE_LEN,
    ensures
        match r {
            Ok(p) => aes256gcm_open(key@, nonce@, aad@, ct@) == Some(p@),
            Err(_) => aes256gcm_open(key@, nonce@, aad@, ct@) is None,
        },
{
    let cipher = Aes256Gcm::new_from_slice(key).unwrap();
    cipher.decrypt(aes_gcm::Nonce::from_slice(nonce), Payload { msg: ct, aad })
}

/// Calls `aes_gcm::Error`'s `Display`, which writes the fixed text
/// `aead::Error` whatever went wrong.
#[verifier::external_body]
fn aead_error_text(e: &aes_gcm::Error) -> (t: String)
    ensures
        t@ == "aead::Error"@,
{
    e.to_string()
}

/// Calls `Aes256Gcm::generate_nonce` with the operating system's CSPRNG.
/// Nothing is stated of the bytes: they are random.
#[verifier::external_body]
fn random_nonce() -> (n: [u8; 12]) {
    Aes256Gcm::generate_nonce(&mut OsRng).into()
}

/// Calls `Aes256Gcm::generate_key` with the operating system's CSPRNG.
/// Nothing is stated of the bytes: they are random.
#[verifier::external_body]
fn random_key() -> (k: [u8; 32]) {
    Aes256Gcm::generate_key(&mut OsRng).into()
}

/// Calls `hkdf::Hkdf::<Sha256>::new(Some(salt), ikm).expand(info, ..)` for
/// 32 bytes. Trusted: the output is what `hkdf_sha256` names (32 bytes is far
/// below the 255-block limit, so expand does not fail).
#[verifier::external_body]
fn hkdf_sha256_32(salt: &[u8], ikm: &[u8], info: &[u8]) -> (okm: [u8; 32])
    ensures
        okm@ == hkdf_sha256(salt@, ikm@, info@, 32),
{
    let hk = hkdf::Hkdf::<sha2::Sha256>::new(Some(salt), ikm);
    let mut okm = [0u8; 32];
    hk.expand(info, &mut okm).unwrap();
    okm
}

fn copy_bytes(out: &mut Vec<u8>, src: &[u8])
    ensures
        final(out)@ == old(out)@ + src@,
{
    let ghost start = out@;
    let mut i: usize = 0;
    while i < src.len()
        invariant
            i <= src@.len(),
            out@ == start + src@.take(i as int),
        decreases src@.len() - i,
    {
        out.push(src[i]);
        assert(src@.take(i + 1) =~= src@.take(i as int).push(src@[i as int]));
        i = i + 1;
    }
    assert(src@.take(src@.len() as int) =~= src@);
}

fn slice_to_vec(src: &[u8], from: usize, to: usize) -> (v: Vec<u8>)
    requires
        from <= to <= src@.len(),
    ensures
        v@ == src@.subrange(from as int, to as int),
{
    let mut v: Vec<u8> = Vec::new();
    let mut i: usize = from;
    while i < to
        invariant
            from <= i <= to,
            to <= src@.len(),
            v@ == src@.subrange(from as int, i as int),
        decreases to - i,
    {
        v.push(src[i]);
        assert(src@.subrange(from as int, i + 1) =~= src@.subrange(from as int, i as int).push(
            src@[i as int],
        ));
        i = i + 1;
    }
    v
}

/// The reason a blob that does not open is reported with: too short to hold
/// a nonce, or refused by AES-GCM.
pub open spec fn open_failure_text(data: Seq<u8>) -> Seq<char> {
    if data.len() < NONCE_LEN {
        "ciphertext too short for nonce"@
    } else {
        "AES-GCM decrypt failed: "@ + "aead::Error"@
    }
}

/// What decrypting `data` (`nonce ‖ ciphertext ‖ tag`) under `key` with
/// `aad` yields: the plaintext, or nothing when the data is too short to hold
/// a nonce or does not authenticate.
pub open spec fn open_blob(key: Seq<u8>, data: Seq<u8>, aad: Seq<u8>) -> Option<Seq<u8>> {
    if data.len() < NONCE_LEN {
        None
    } else {
        aes256gcm_open(key, data.take(NONCE_LEN as int), aad, data.skip(NONCE_LEN as int))
    }
}

/// Why a stored event payload could not be turned back into an event.
#[derive(Debug, Clone, PartialEq, Eq)]
pub enum EventDecryptError {
    /// Authentication or framing failed; the plaintext was never recovered.
    Unreadable(String),
    /// Plaintext recovered, but it does not decode into this build's event type.
    IncompatiblePayload(String),
}

/// How a decryption failure reads: the reason as given, with a payload that
/// does not decode marked as such.
pub open spec fn decrypt_error_text(e: EventDecryptError) -> Seq<char> {
    match e {
        EventDecryptError::Unreadable(msg) => msg@,
        EventDecryptError::IncompatiblePayload(msg) => "payload deserialize failed: "@ + msg@,
    }
}

impl EventDecryptError {
    /// The store error this decryption failure is reported as: an event
    /// decoding error carrying the failure's text.
    pub fn into_app_error(self) -> (e: AppError)
        ensures
            e matches AppError::EventDecodeError(text) && text@ == decrypt_error_text(self),
    {
        match self {
            EventDecryptError::Unreadable(msg) => AppError::EventDecodeError(msg),
            EventDecryptError::IncompatiblePayload(msg) => {
                let mut text = String::new();
                push_all(&mut text, "payload deserialize failed: ");
                push_all(&mut text, msg.as_str());
                AppError::EventDecodeError(text)
            },
        }
    }
}

/// AES-256-GCM cipher for a single stream's event payloads.
#[derive(Clone)]
pub struct EventCipher {
    key: [u8; 32],
}

impl View for EventCipher {
    type V = Seq<u8>;

    /// The stream key this cipher encrypts with.
    closed spec fn view(&self) -> Seq<u8> {
        self.key@
    }
}

impl EventCipher {
    /// How the cipher shows in logs: redacted.
    pub fn describe(&self) -> (s: String)
        ensures
            s@ == "EventCipher([REDACTED])"@,
    {
        "EventCipher([REDACTED])".to_string()
    }

    /// Encrypt `plaintext` under a fresh random nonce, binding `aad` into the
    /// tag. Returns `nonce ‖ ciphertext ‖ tag`.
    pub fn encrypt(&self, plaintext: &[u8], aad: &[u8]) -> (r: Result<Vec<u8>, AppError>)
        ensures
            match r {
                Ok(out) => {
                    &&& out@.len() == NONCE_LEN + plaintext@.len() + 16
                    &&& out@.skip(NONCE_LEN as int) == aes256gcm_seal(
                        self@,
                        out@.take(NONCE_LEN as int),
                        aad@,
                        plaintext@,
                    )
                    &&& open_blob(self@, out@, aad@) == Some(plaintext@)
                },
                Err(e) => {
                    &&& e matches AppError::ServerError(t) && t@ == "aead::Error"@
                    &&& !(plaintext@.len() <= gcm_max_len() && aad@.len() <= gcm_max_len())
                },
            },
    {
        let nonce = random_nonce();
        match aead_seal(self.key.as_slice(), nonce.as_slice(), aad, plaintext) {
            Ok(sealed) => {
                let mut out: Vec<u8> = Vec::new();
                copy_bytes(&mut out, nonce.as_slice());
                copy_bytes(&mut out, sealed.as_slice());
                assert(out@.take(NONCE_LEN as int) =~= nonce@);
                assert(out@.skip(NONCE_LEN as int) =~= sealed@);
                Ok(out)
            },
            Err(e) => Err(AppError::ServerError(aead_error_text(&e))),
        }
    }

    /// Decrypt `nonce (12 bytes) ‖ ciphertext ‖ tag` with the `aad` used when
    /// encrypting.
    pub fn decrypt(&self, data: &[u8], aad: &[u8]) -> (r: Result<Vec<u8>, EventDecryptError>)
        ensures
            match open_blob(self@, data@, aad@) {
                Some(p) => r matches Ok(q) && q@ == p,
                None => r matches Err(EventDecryptError::Unreadable(t)) && t@ == open_failure_text(data@),
            },
    {
        if data.len() < NONCE_LEN {
            return Err(EventDecryptError::Unreadable("ciphertext too short for nonce".to_string()));
        }
        let nonce = slice_to_vec(data, 0, NONCE_LEN);
        let ct = slice_to_vec(data, NONCE_LEN, data.len());
        assert(nonce@ =~= data@.take(NONCE_LEN as int));
        assert(ct@ =~= data@.skip(NONCE_LEN as int));
        match aead_open(self.key.as_slice(), nonce.as_slice(), aad, ct.as_slice()) {
            Ok(p) => Ok(p),
            Err(e) => {
                let mut t = String::new();
                push_all(&mut t, "AES-GCM decrypt failed: ");
                let reason = aead_error_text(&e);
                push_all(&mut t, reason.as_str());
                Err(EventDecryptError::Unreadable(t))
            },
        }
    }
}

/// Random 256-bit data-encryption key for a single stream.
pub struct StreamKey {
    bytes: [u8; 32],
}

impl View for StreamKey {
    type V = Seq<u8>;

    closed spec fn view(&self) -> Seq<u8> {
        self.bytes@
    }
}

impl StreamKey {
    /// Generate a fresh key from the operating system's CSPRNG.
    pub fn generate() -> (k: Self)
        ensures
            k@.len() == KEY_LEN,
    {
        StreamKey { bytes: random_key() }
    }

    /// How the key shows in logs: redacted.
    pub fn describe(&self) -> (s: String)
        ensures
            s@ == "StreamKey([REDACTED])"@,
    {
        "StreamKey([REDACTED])".to_string()
    }

    /// The key itself, for comparing and storing it.
    pub fn expose_secret(&self) -> (b: &[u8; 32])
        ensures
            b@ == self@,
    {
        &self.bytes
    }

    /// The cipher for this stream's payloads.
    pub fn cipher(&self) -> (c: EventCipher)
        ensures
            c@ == self@,
    {
        EventCipher { key: self.bytes }
    }
}

/// A [`StreamKey`] encrypted by the [`MasterKey`] as `nonce ‖ ciphertext ‖ tag`.
#[derive(Clone, PartialEq, Eq)]
pub struct WrappedKey(Vec<u8>);

impl View for WrappedKey {
    type V = Seq<u8>;

    closed spec fn view(&self) -> Seq<u8> {
        self.0@
    }
}

impl WrappedKey {
    /// The stored bytes.
    pub fn as_bytes(&self) -> (b: &[u8])
        ensures
            b@ == self@,
    {
        self.0.as_slice()
    }

    /// How the key shows in logs: its length only, never its bytes.
    pub fn describe(&self) -> (s: String)
        ensures
            s@ == "WrappedKey("@ + decimal(self@.len()) + " bytes)"@,
    {
        let mut s = String::new();
        push_all(&mut s, "WrappedKey(");
        push_decimal(&mut s, self.0.len() as u64);
        push_all(&mut s, " bytes)");
        s
    }

    /// Only for reading back a persisted wrapped key.
    pub fn from_bytes(bytes: Vec<u8>) -> (w: Self)
        ensures
            w@ == bytes@,
    {
        WrappedKey(bytes)
    }
}

/// Associated data binding a wrapped key to its `(stream_id, election)`.
pub open spec fn wrap_aad_bytes(stream_id: StreamId, election_id: Seq<u8>) -> Seq<u8> {
    WRAP_AAD_PREFIX.spec_bytes() + u128_be(stream_id.0) + seq![58u8] + election_id
}

/// `stream-key:` ‖ stream id (16 bytes, big-endian) ‖ `:` ‖ election id.
pub fn wrap_aad(stream_id: StreamId, election_id: &str) -> (aad: Vec<u8>)
    ensures
        aad@ == wrap_aad_bytes(stream_id, election_id.spec_bytes()),
{
    let mut aad: Vec<u8> = Vec::new();
    copy_bytes(&mut aad, WRAP_AAD_PREFIX.as_bytes());
    push_u128_be(&mut aad, stream_id.0);
    aad.push(58u8);
    copy_bytes(&mut aad, election_id.as_bytes());
    aad
}

/// Key-wrapping key derived from the master secret.
#[derive(Clone)]
pub struct MasterKey {
    kek: [u8; 32],
}

impl View for MasterKey {
    type V = Seq<u8>;

    closed spec fn view(&self) -> Seq<u8> {
        self.kek@
    }
}

/// Why `wrapped` does not unwrap: too short to hold a nonce, refused by
/// AES-GCM, or a key of the wrong length inside.
pub open spec fn unwrap_failure_text(kek: Seq<u8>, wrapped: Seq<u8>, aad: Seq<u8>) -> Seq<char> {
    if wrapped.len() < NONCE_LEN {
        "wrapped stream key too short for nonce"@
    } else {
        match open_blob(kek, wrapped, aad) {
            None => "stream key unwrap failed: "@ + "aead::Error"@,
            Some(k) => "unwrapped stream key is "@ + decimal(k.len()) + " bytes, expected 32"@,
        }
    }
}

/// What unwrapping `wrapped` for `(stream_id, election)` under `kek` yields.
pub open spec fn unwrap_spec(kek: Seq<u8>, wrapped: Seq<u8>, aad: Seq<u8>) -> Option<Seq<u8>> {
    match open_blob(kek, wrapped, aad) {
        Some(k) => if k.len() == KEY_LEN {
            Some(k)
        } else {
            None
        },
        None => None,
    }
}

impl MasterKey {
    /// How the key shows in logs: redacted.
    pub fn describe(&self) -> (s: String)
        ensures
            s@ == "MasterKey([REDACTED])"@,
    {
        "MasterKey([REDACTED])".to_string()
    }

    /// Derive the key-wrapping key from the master secret with HKDF-SHA256.
    pub fn new(secret: &str) -> (m: Self)
        ensures
            m@ == hkdf_sha256(
                KEK_HKDF_SALT.spec_bytes(),
                secret.spec_bytes(),
                KEK_HKDF_INFO.spec_bytes(),
                32,
            ),
    {
        MasterKey {
            kek: hkdf_sha256_32(KEK_HKDF_SALT.as_bytes(), secret.as_bytes(), KEK_HKDF_INFO.as_bytes()),
        }
    }

    /// Encrypt `key` for storage next to its stream, binding
    /// `(stream_id, election)` into the tag.
    pub fn wrap_key(&self, key: &StreamKey, stream_id: StreamId, election_id: &str) -> (r: Result<
        WrappedKey,
        AppError,
    >)
        ensures
            match r {
                Ok(w) => {
                    let aad = wrap_aad_bytes(stream_id, election_id.spec_bytes());
                    &&& w@.len() == NONCE_LEN + KEY_LEN + 16
                    &&& w@.skip(NONCE_LEN as int) == aes256gcm_seal(self@, w@.take(NONCE_LEN as int), aad, key@)
                    &&& unwrap_spec(self@, w@, aad) == Some(key@)
                },
                Err(e) => e matches AppError::ServerError(t) && t@ == "aead::Error"@ && wrap_aad_bytes(
                    stream_id,
                    election_id.spec_bytes(),
                ).len() > gcm_max_len(),
            },
    {
        let aad = wrap_aad(stream_id, election_id);
        let cipher = EventCipher { key: self.kek };
        match cipher.encrypt(key.bytes.as_slice(), aad.as_slice()) {
            Ok(out) => Ok(WrappedKey(out)),
            Err(e) => Err(e),
        }
    }

    /// Decrypt a key wrapped by [`MasterKey::wrap_key`] for the same
    /// `(stream_id, election)`.
    pub fn unwrap_key(&self, wrapped: &WrappedKey, stream_id: StreamId, election_id: &str) -> (r:
        Result<StreamKey, AppError>)
        ensures
            ({
                let aad = wrap_aad_bytes(stream_id, election_id.spec_bytes());
                match unwrap_spec(self@, wrapped@, aad) {
                    Some(k) => r matches Ok(key) && key@ == k,
                    None => r matches Err(AppError::EventDecodeError(t)) && t@ == unwrap_failure_text(
                        self@,
                        wrapped@,
                        aad,
                    ),
                }
            }),
    {
        if wrapped.0.len() < NONCE_LEN {
            return Err(AppError::EventDecodeError("wrapped stream key too short for nonce".to_string()));
        }
        let aad = wrap_aad(stream_id, election_id);
        let cipher = EventCipher { key: self.kek };
        match cipher.decrypt(wrapped.0.as_slice(), aad.as_slice()) {
            Ok(k) => {
                if k.len() != KEY_LEN {
                    let mut t = String::new();
                    push_all(&mut t, "unwrapped stream key is ");
                    push_decimal(&mut t, k.len() as u64);
                    push_all(&mut t, " bytes, expected 32");
                    return Err(AppError::EventDecodeError(t));
                }
                let mut bytes: [u8; 32] = [0u8; 32];
                let mut i: usize = 0;
                while i < 32
                    invariant
                        i <= 32,
                        k@.len() == 32,
                        bytes@.len() == 32,
                        forall|j: int| 0 <= j < i ==> bytes@[j] == k@[j],
                    decreases 32 - i,
                {
                    bytes[i] = k[i];
                    i = i + 1;
                }
                let key = StreamKey { bytes };
                assert(key@ =~= k@);
                Ok(key)
            },
            Err(_) => {
                let mut t = String::new();
                push_all(&mut t, "stream key unwrap failed: ");
                push_all(&mut t, "aead::Error");
                Err(AppError::EventDecodeError(t))
            },
        }
    }
}

/// Domain-separation salt for keys derived per stream.
pub const EVENT_HKDF_SALT: &'static str = "e-KS event encryption v1";

/// Prefix of the HKDF info that names the stream a derived key is for.
pub const EVENT_KEY_INFO_PREFIX: &'static str = "event-key:";

/// HKDF info naming a `(stream_id, election)` pair:
/// `event-key:` ‖ stream id (16 bytes, big-endian) ‖ `:` ‖ election id.
pub open spec fn event_key_info(stream_id: StreamId, election_id: Seq<u8>) -> Seq<u8> {
    EVENT_KEY_INFO_PREFIX.spec_bytes() + u128_be(stream_id.0) + seq![58u8] + election_id
}

/// Derives a key per `(stream, election)` pair from a master secret with
/// HKDF-SHA256, so events of different elections keep independent keys.
pub struct EventEncryption {
    secret: Vec<u8>,
}

impl View for EventEncryption {
    type V = Seq<u8>;

    /// The master secret keys are derived from.
    closed spec fn view(&self) -> Seq<u8> {
        self.secret@
    }
}

impl EventEncryption {
    /// Key derivation from the master secret `secret`.
    pub fn new(secret: &str) -> (e: Self)
        ensures
            e@ == secret.spec_bytes(),
    {
        let mut bytes: Vec<u8> = Vec::new();
        copy_bytes(&mut bytes, secret.as_bytes());
        EventEncryption { secret: bytes }
    }

    /// The cipher for the given `(stream, election)` pair.
    pub fn derive_cipher(&self, stream_id: StreamId, election_id: &str) -> (c: EventCipher)
        ensures
            c@ == hkdf_sha256(
                EVENT_HKDF_SALT.spec_bytes(),
                self@,
                event_key_info(stream_id, election_id.spec_bytes()),
                32,
            ),
    {
        let mut info: Vec<u8> = Vec::new();
        copy_bytes(&mut info, EVENT_KEY_INFO_PREFIX.as_bytes());
        push_u128_be(&mut info, stream_id.0);
        info.push(58u8);
        copy_bytes(&mut info, election_id.as_bytes());
        assert(info@ =~= event_key_info(stream_id, election_id.spec_bytes()));
        EventCipher { key: hkdf_sha256_32(EVENT_HKDF_SALT.as_bytes(), self.secret.as_slice(), info.as_slice()) }
    }
}

} // verus!
