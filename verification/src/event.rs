//! Events of the event-sourced store and the hash chain that links them.
//!
//! Every persisted event carries a 32-byte chain hash
//! `SHA256(prev_hash ‖ event_id (u64 LE) ‖ created_at (i64 LE, µs) ‖ body)`,
//! where `body` is the stored representation of the payload. Timestamps are
//! microseconds since the Unix epoch: that is all that survives a round-trip
//! through the stored frames.

use sha2::Digest;
use vstd::prelude::*;

use crate::bytes::{i64_le, push_i64_le, push_u64_le, u64_le, lemma_le_bytes_len};

verus! {

/// SHA-256 digest linking one persisted event to the previous one.
pub type EventHash = [u8; 32];

/// Hash linked to the (virtual) event preceding the first event of a stream.
pub const GENESIS_HASH: EventHash = [0, 0, 0, 0, 0, 0, 0, 0, 0, 0, 0, 0, 0, 0, 0, 0, 0, 0, 0, 0, 0, 0, 0, 0, 0, 0, 0, 0, 0, 0, 0, 0];

/// The all-zero hash, as a sequence.
pub open spec fn genesis() -> Seq<u8> {
    Seq::new(32, |i: int| 0u8)
}

/// The SHA-256 digest of `data`, as computed by the `sha2` crate.
pub uninterp spec fn sha256(data: Seq<u8>) -> Seq<u8>;

/// Calls `sha2::Sha256::digest` on `data`. Trusted: the digest is the value
/// that `sha256` names for `data`.
#[verifier::external_body]
fn sha256_digest(data: &[u8]) -> (hash: EventHash)
    ensures
        hash@ == sha256(data@),
{
    sha2::Sha256::digest(data).into()
}

/// Which UI language a description is rendered in.
#[derive(Clone, Copy, Debug, PartialEq, Eq)]
pub enum Locale {
    Nl,
    En,
}

/// What every stored event offers the audit log.
pub trait Event {
    /// A stable category key for filtering in the audit log.
    fn category(&self) -> &'static str;

    /// A stable snake_case key identifying the event variant.
    fn key(&self) -> &'static str;

    /// Translated label describing what the event did.
    fn description(&self, locale: Locale) -> String;

    /// Short human-readable details for a listing row.
    fn details(&self) -> String;
}

/// One applied event: its position in the stream, payload, creation time and
/// chain hash.
#[derive(Debug, Clone)]
pub struct StoreEvent<E> {
    /// Monotonic event identifier within a stream.
    pub event_id: usize,
    /// Domain-specific event payload.
    pub payload: E,
    /// Creation time, microseconds since the Unix epoch.
    pub created_at: i64,
    /// Chain hash of this event.
    pub hash: EventHash,
}

/// The current time as microseconds since the Unix epoch.
#[verifier::external_body]
pub(crate) fn now_micros() -> (t: i64) {
    chrono::Utc::now().timestamp_micros()
}

impl<E> StoreEvent<E> {
    /// An event stamped with the current time and the placeholder
    /// [`GENESIS_HASH`] as its chain hash, for projections where the hash is
    /// irrelevant.
    pub fn new(event_id: usize, payload: E) -> (r: Self)
        ensures
            r.event_id == event_id,
            r.payload == payload,
            r.hash@ == genesis(),
    {
        Self::new_at(event_id, payload, now_micros())
    }

    /// Like [`StoreEvent::new`] with an explicit timestamp.
    pub fn new_at(event_id: usize, payload: E, created_at: i64) -> (r: Self)
        ensures
            r.event_id == event_id,
            r.payload == payload,
            r.created_at == created_at,
            r.hash@ == genesis(),
    {
        let r = StoreEvent { event_id, payload, created_at, hash: GENESIS_HASH };
        assert(r.hash@ =~= genesis());
        r
    }
}

/// The associated data mixed into AES-256-GCM for an event payload:
/// `event_id (u64 LE) ‖ created_at (i64 LE) ‖ prev_hash`.
pub open spec fn aad_bytes(event_id: usize, created_at: i64, prev_hash: Seq<u8>) -> Seq<u8> {
    u64_le(event_id as u64) + i64_le(created_at) + prev_hash
}

/// The bytes the chain hash is taken over:
/// `prev_hash ‖ event_id (u64 LE) ‖ created_at (i64 LE) ‖ body`.
pub open spec fn chain_input(
    prev_hash: Seq<u8>,
    event_id: usize,
    created_at: i64,
    body: Seq<u8>,
) -> Seq<u8> {
    prev_hash + u64_le(event_id as u64) + i64_le(created_at) + body
}

/// Associated data authenticating an event's cleartext metadata and pinning
/// its ciphertext to its position in the chain.
pub fn event_aad(event_id: usize, created_at: i64, prev_hash: &EventHash) -> (aad: Vec<u8>)
    ensures
        aad@ == aad_bytes(event_id, created_at, prev_hash@),
{
    let mut aad: Vec<u8> = Vec::new();
    push_u64_le(&mut aad, event_id as u64);
    push_i64_le(&mut aad, created_at);
    let mut i: usize = 0;
    while i < 32
        invariant
            i <= 32,
            aad@ == u64_le(event_id as u64) + i64_le(created_at) + prev_hash@.take(i as int),
        decreases 32 - i,
    {
        aad.push(prev_hash[i]);
        assert(prev_hash@.take(i + 1) =~= prev_hash@.take(i as int).push(prev_hash@[i as int]));
        i = i + 1;
    }
    assert(prev_hash@.take(32) =~= prev_hash@);
    aad
}

/// The chain hash of an event: SHA-256 over [`chain_input`].
pub fn chain_hash(prev_hash: &EventHash, event_id: usize, created_at: i64, body: &[u8]) -> (hash:
    EventHash)
    ensures
        hash@ == sha256(chain_input(prev_hash@, event_id, created_at, body@)),
{
    let mut input: Vec<u8> = Vec::new();
    let mut i: usize = 0;
    while i < 32
        invariant
            i <= 32,
            input@ == prev_hash@.take(i as int),
        decreases 32 - i,
    {
        input.push(prev_hash[i]);
        assert(prev_hash@.take(i + 1) =~= prev_hash@.take(i as int).push(prev_hash@[i as int]));
        i = i + 1;
    }
    assert(prev_hash@.take(32) =~= prev_hash@);
    push_u64_le(&mut input, event_id as u64);
    push_i64_le(&mut input, created_at);
    let ghost head = input@;
    let mut j: usize = 0;
    while j < body.len()
        invariant
            j <= body@.len(),
            input@ == head + body@.take(j as int),
        decreases body@.len() - j,
    {
        input.push(body[j]);
        assert(body@.take(j + 1) =~= body@.take(j as int).push(body@[j as int]));
        j = j + 1;
    }
    assert(body@.take(body@.len() as int) =~= body@);
    sha256_digest(input.as_slice())
}

/// The hashed bytes determine every input: the fields have fixed widths, so
/// two events can only share a chain input when their previous hash, id,
/// timestamp and body all agree.
pub proof fn lemma_chain_input_injective(
    p1: Seq<u8>,
    id1: usize,
    t1: i64,
    b1: Seq<u8>,
    p2: Seq<u8>,
    id2: usize,
    t2: i64,
    b2: Seq<u8>,
)
    requires
        p1.len() == 32,
        p2.len() == 32,
        chain_input(p1, id1, t1, b1) == chain_input(p2, id2, t2, b2),
    ensures
        p1 == p2,
        id1 == id2,
        t1 == t2,
        b1 == b2,
{
    lemma_le_bytes_len((id1 as u64) as nat, 8);
    lemma_le_bytes_len((id2 as u64) as nat, 8);
    lemma_le_bytes_len((t1 as u64) as nat, 8);
    lemma_le_bytes_len((t2 as u64) as nat, 8);
    let c1 = chain_input(p1, id1, t1, b1);
    let c2 = chain_input(p2, id2, t2, b2);
    assert(p1 =~= c1.subrange(0, 32));
    assert(p2 =~= c2.subrange(0, 32));
    assert(u64_le(id1 as u64) =~= c1.subrange(32, 40));
    assert(u64_le(id2 as u64) =~= c2.subrange(32, 40));
    assert(i64_le(t1) =~= c1.subrange(40, 48));
    assert(i64_le(t2) =~= c2.subrange(40, 48));
    assert(b1 =~= c1.subrange(48, c1.len() as int));
    assert(b2 =~= c2.subrange(48, c2.len() as int));
    lemma_u64_le_injective(id1 as u64, id2 as u64);
    lemma_u64_le_injective(t1 as u64, t2 as u64);
    assert(id1 as u64 == id2 as u64);
    assert((t1 as u64) == (t2 as u64) ==> t1 == t2) by (bit_vector);
}

/// Two events share their associated data only when id, timestamp and
/// previous hash all agree.
pub proof fn lemma_aad_injective(
    id1: usize,
    t1: i64,
    p1: Seq<u8>,
    id2: usize,
    t2: i64,
    p2: Seq<u8>,
)
    requires
        aad_bytes(id1, t1, p1) == aad_bytes(id2, t2, p2),
    ensures
        id1 == id2,
        t1 == t2,
        p1 == p2,
{
    lemma_le_bytes_len((id1 as u64) as nat, 8);
    lemma_le_bytes_len((id2 as u64) as nat, 8);
    lemma_le_bytes_len((t1 as u64) as nat, 8);
    lemma_le_bytes_len((t2 as u64) as nat, 8);
    let c1 = aad_bytes(id1, t1, p1);
    let c2 = aad_bytes(id2, t2, p2);
    assert(u64_le(id1 as u64) =~= c1.subrange(0, 8));
    assert(u64_le(id2 as u64) =~= c2.subrange(0, 8));
    assert(i64_le(t1) =~= c1.subrange(8, 16));
    assert(i64_le(t2) =~= c2.subrange(8, 16));
    assert(p1 =~= c1.subrange(16, c1.len() as int));
    assert(p2 =~= c2.subrange(16, c2.len() as int));
    lemma_u64_le_injective(id1 as u64, id2 as u64);
    lemma_u64_le_injective(t1 as u64, t2 as u64);
    assert((t1 as u64) == (t2 as u64) ==> t1 == t2) by (bit_vector);
}

/// Distinct 64-bit values have distinct little-endian encodings.
pub proof fn lemma_u64_le_injective(a: u64, b: u64)
    requires
        crate::bytes::le_bytes(a as nat, 8) == crate::bytes::le_bytes(b as nat, 8),
    ensures
        a == b,
{
    vstd::arithmetic::power::lemma_pow_positive(256, 8);
    assert(vstd::arithmetic::power::pow(256, 8) == 0x1_0000_0000_0000_0000) by {
        reveal_with_fuel(vstd::arithmetic::power::pow, 9);
    }
    crate::bytes::lemma_le_value_of_le_bytes(a as nat, 8);
    crate::bytes::lemma_le_value_of_le_bytes(b as nat, 8);
}

} // verus!
