//! Replaying stored, encrypted events into a projection.

use vstd::prelude::*;

use crate::crypto::{open_blob, open_failure_text, EventCipher, EventDecryptError};
use crate::entities::push_all;
use crate::text::{decimal, push_decimal};
use crate::error::AppError;
use crate::event::{aad_bytes, chain_hash, chain_input, event_aad, sha256, EventHash, StoreEvent};
use crate::store::{last_hash, last_id, StoreData};
use crate::stream::{uuid_text, StreamId};

verus! {

/// One event as it sits in a backend's storage: payload still encrypted.
pub struct EncryptedEvent {
    pub event_id: usize,
    /// Creation time, microseconds since the Unix epoch.
    pub created_at: i64,
    pub hash: EventHash,
    pub payload: Vec<u8>,
}

/// What a replay pass did with the stored events it was handed.
///
/// Callers need `chain_tip` (not the projection's last applied hash) to append
/// a new event, because the two differ once a replay was truncated.
#[derive(Clone, Debug)]
pub struct Replay {
    /// Chain hash of the highest-numbered stored event seen, applied or not.
    pub chain_tip: EventHash,
    /// The event id where replay stopped applying payloads, if any.
    pub truncated_at: Option<usize>,
}

/// Why appending to a stream whose replay stopped at `event_id` is refused.
pub open spec fn truncation_text(stream_id: StreamId, event_id: usize) -> Seq<char> {
    "stream "@ + uuid_text(stream_id.0) + " stopped replaying at event "@ + decimal(event_id as nat)
        + ": refusing to append to a stream this build cannot fully read"@
}

impl Replay {
    /// Refuse to append to a stream whose replay was truncated: a new event
    /// would land after the gap and never be applied on the next load.
    pub fn reject_append(&self, stream_id: StreamId) -> (r: Result<(), AppError>)
        ensures
            match self.truncated_at {
                None => r is Ok,
                Some(event_id) => r matches Err(AppError::EventDecodeError(t)) && t@ == truncation_text(
                    stream_id,
                    event_id,
                ),
            },
    {
        match self.truncated_at {
            None => Ok(()),
            Some(event_id) => {
                let mut t = String::new();
                push_all(&mut t, "stream ");
                let id = stream_id.to_string();
                push_all(&mut t, id.as_str());
                push_all(&mut t, " stopped replaying at event ");
                push_decimal(&mut t, event_id as u64);
                push_all(&mut t, ": refusing to append to a stream this build cannot fully read");
                let e = AppError::EventDecodeError(t);
                assert(e->EventDecodeError_0@ == t@);
                Err(e)
            },
        }
    }
}

/// Stored event ids strictly increase.
pub open spec fn stored_ids_increasing(evs: Seq<EncryptedEvent>) -> bool {
    forall|i: int, j: int| 0 <= i < j < evs.len() ==> #[trigger] evs[i].event_id < #[trigger] evs[j].event_id
}

/// How many leading stored events the projection already holds.
pub open spec fn skip_count(evs: Seq<EncryptedEvent>, last: usize) -> nat
    decreases evs.len(),
{
    if evs.len() == 0 {
        0
    } else if evs[0].event_id <= last {
        1 + skip_count(evs.drop_first(), last)
    } else {
        0
    }
}

/// The chain hash the `i`-th stored event follows: the projection's last
/// hash for the first event it does not hold yet, else the stored predecessor's.
pub open spec fn prev_at(evs: Seq<EncryptedEvent>, s: int, h0: Seq<u8>, i: int) -> Seq<u8> {
    if i == s {
        h0
    } else {
        evs[i - 1].hash@
    }
}

/// Whether the `i`-th stored event's hash is the chain hash over its
/// predecessor and its stored blob.
pub open spec fn link_ok(evs: Seq<EncryptedEvent>, s: int, h0: Seq<u8>, i: int) -> bool {
    evs[i].hash@ == sha256(
        chain_input(prev_at(evs, s, h0, i), evs[i].event_id, evs[i].created_at, evs[i].payload@),
    )
}

/// The plaintext of the `i`-th stored event, if it authenticates.
pub open spec fn plain_at(key: Seq<u8>, evs: Seq<EncryptedEvent>, s: int, h0: Seq<u8>, i: int) -> Option<Seq<u8>> {
    open_blob(
        key,
        evs[i].payload@,
        aad_bytes(evs[i].event_id, evs[i].created_at, prev_at(evs, s, h0, i)),
    )
}

/// The text a broken chain link at event `id` is reported with.
pub open spec fn chain_break_text(id: usize) -> Seq<char> {
    "hash chain broken at event "@ + decimal(id as nat)
}

/// The replay of the stored events from `s` on, having applied `k` of them,
/// fails first at the `i`-th with text `t`. Every link before it holds (when
/// `verify_chain` is set). Without a truncation the events from `s` up to it
/// were all applied, and it fails on its link or, its link holding, on a
/// payload that does not open; after a truncation at `s + k` payloads are no
/// longer opened, so it fails on its link.
pub open spec fn first_failure(
    key: Seq<u8>,
    evs: Seq<EncryptedEvent>,
    s: int,
    h0: Seq<u8>,
    verify_chain: bool,
    k: int,
    i: int,
    t: Seq<char>,
) -> bool {
    &&& s + k <= i < evs.len()
    &&& forall|j: int| s <= j < i ==> !verify_chain || #[trigger] link_ok(evs, s, h0, j)
    &&& if s + k == i {
        ||| verify_chain && !link_ok(evs, s, h0, i) && t == chain_break_text(evs[i].event_id)
        ||| (!verify_chain || link_ok(evs, s, h0, i)) && plain_at(key, evs, s, h0, i) is None && t
            == open_failure_text(evs[i].payload@)
    } else {
        verify_chain && !link_ok(evs, s, h0, i) && t == chain_break_text(evs[i].event_id)
    }
}

/// `decode` may turn `bytes` into `r`.
pub open spec fn decodes_to<E, F: Fn(Vec<u8>) -> Option<E>>(decode: F, bytes: Seq<u8>, r: Option<E>) -> bool {
    exists|v: Vec<u8>| v@ == bytes && #[trigger] call_ensures(decode, (v,), r)
}

proof fn lemma_skip_count(evs: Seq<EncryptedEvent>, last: usize)
    requires
        stored_ids_increasing(evs),
    ensures
        skip_count(evs, last) <= evs.len(),
        forall|i: int| 0 <= i < skip_count(evs, last) ==> #[trigger] evs[i].event_id <= last,
        forall|i: int| skip_count(evs, last) <= i < evs.len() ==> #[trigger] evs[i].event_id > last,
    decreases evs.len(),
{
    if evs.len() > 0 {
        let rest = evs.drop_first();
        assert(stored_ids_increasing(rest)) by {
            assert forall|i: int, j: int| 0 <= i < j < rest.len() implies #[trigger] rest[i].event_id
                < #[trigger] rest[j].event_id by {
                assert(evs[i + 1].event_id < evs[j + 1].event_id);
            }
        }
        lemma_skip_count(rest, last);
        if evs[0].event_id <= last {
            assert forall|i: int| 0 <= i < skip_count(evs, last) implies #[trigger] evs[i].event_id
                <= last by {
                if i > 0 {
                    assert(evs[i] == rest[i - 1]);
                }
            }
            assert forall|i: int| skip_count(evs, last) <= i < evs.len() implies #[trigger] evs[i].event_id
                > last by {
                assert(evs[i] == rest[i - 1]);
            }
        } else {
            assert forall|i: int| 0 <= i < evs.len() implies #[trigger] evs[i].event_id > last by {
                if i > 0 {
                    assert(evs[0].event_id < evs[i].event_id);
                }
            }
        }
    }
}

/// What a replay of the stored events `stored`, in ascending order, into a
/// projection whose log was `before` does: the log becomes `after` and
/// the result is `r`. The events the projection holds are skipped; the next
/// ones are applied in order while their links hold (checked when
/// `verify_chain` is set), their payloads open under `key` and `decode`
/// reads them; a payload `decode` cannot read stops the applying, the chain
/// being walked on to its tip; the first failure is reported.
pub open spec fn replayed<E, F: Fn(Vec<u8>) -> Option<E>>(
    before: Seq<StoreEvent<E>>,
    after: Seq<StoreEvent<E>>,
    key: Seq<u8>,
    stored: Seq<EncryptedEvent>,
    decode: F,
    verify_chain: bool,
    r: Result<Replay, AppError>,
) -> bool {
    ({
            let evs = stored;
            let old_log = before;
            let new_log = after;
            let h0 = last_hash(old_log);
            let s = skip_count(evs, last_id(old_log)) as int;
            let k = new_log.len() - old_log.len();
            let n = evs.len() as int;
            &&& new_log.len() >= old_log.len()
            &&& new_log.take(old_log.len() as int) == old_log
            &&& s + k <= n
            &&& forall|j: int|
                0 <= j < k ==> {
                    let e = #[trigger] new_log[old_log.len() + j];
                    &&& e.event_id == evs[s + j].event_id
                    &&& e.created_at == evs[s + j].created_at
                    &&& e.hash == evs[s + j].hash
                    &&& verify_chain ==> link_ok(evs, s, h0, s + j)
                    &&& plain_at(key, evs, s, h0, s + j) is Some
                    &&& decodes_to(decode, plain_at(key, evs, s, h0, s + j).unwrap(), Some(e.payload))
                }
            &&& (forall|i: int|
                s <= i < n ==> (!verify_chain || link_ok(evs, s, h0, i)) && #[trigger] plain_at(
                    key,
                    evs,
                    s,
                    h0,
                    i,
                ) is Some) ==> r is Ok
            &&& match r {
                Ok(replay) => {
                    &&& replay.chain_tip@ == (if n == 0 {
                        h0
                    } else {
                        evs[n - 1].hash@
                    })
                    &&& replay.truncated_at == (if s + k < n {
                        Some(evs[s + k].event_id)
                    } else {
                        None
                    })
                    &&& s + k < n ==> plain_at(key, evs, s, h0, s + k) is Some && decodes_to(
                        decode,
                        plain_at(key, evs, s, h0, s + k).unwrap(),
                        None,
                    )
                    &&& verify_chain ==> forall|i: int| s <= i < n ==> #[trigger] link_ok(evs, s, h0, i)
                },
                Err(e) => e matches AppError::EventDecodeError(t) && exists|i: int|
                    #[trigger] first_failure(key, evs, s, h0, verify_chain, k, i, t@) && (s + k < i ==> plain_at(
                        key,
                        evs,
                        s,
                        h0,
                        s + k,
                    ) is Some && decodes_to(decode, plain_at(key, evs, s, h0, s + k).unwrap(), None)),
            }
        })
}

/// [`apply_encrypted_events`] on stored events in ascending id order.
fn replay_in_order<D: StoreData, F: Fn(Vec<u8>) -> Option<D::Event>>(
    data: &mut D,
    cipher: &EventCipher,
    events: &Vec<EncryptedEvent>,
    decode: &F,
    verify_chain: bool,
) -> (r: Result<Replay, AppError>)
    requires
        stored_ids_increasing(events@),
        forall|v: Vec<u8>| call_requires(*decode, (v,)),
    ensures
        replayed(old(data).log(), final(data).log(), cipher@, events@, *decode, verify_chain, r),
{
    let ghost evs = events@;
    let ghost old_log = data.log();
    let ghost h0 = last_hash(old_log);
    let ghost last0 = last_id(old_log);
    let ghost s = skip_count(evs, last0) as int;
    proof {
        lemma_skip_count(evs, last0);
    }
    let mut prev_hash: EventHash = data.last_event_hash();
    let mut chain_tip: EventHash = prev_hash;
    let mut truncated_at: Option<usize> = None;
    let mut i: usize = 0;
    while i < events.len()
        invariant
            evs == events@,
            stored_ids_increasing(evs),
            forall|v: Vec<u8>| call_requires(*decode, (v,)),
            old_log == old(data).log(),
            h0 == last_hash(old_log),
            last0 == last_id(old_log),
            s == skip_count(evs, last0),
            0 <= s <= evs.len(),
            forall|x: int| 0 <= x < s ==> #[trigger] evs[x].event_id <= last0,
            forall|x: int| s <= x < evs.len() ==> #[trigger] evs[x].event_id > last0,
            i <= evs.len(),
            data.log().len() >= old_log.len(),
            data.log().take(old_log.len() as int) == old_log,
            i <= s ==> data.log() == old_log && prev_hash@ == h0,
            i > s ==> prev_hash@ == evs[i - 1].hash@,
            chain_tip@ == (if i == 0 {
                h0
            } else {
                evs[i - 1].hash@
            }),
            ({
                let k = data.log().len() - old_log.len();
                &&& i >= s ==> s + k <= i
                &&& truncated_at is None ==> (i >= s ==> s + k == i)
                &&& truncated_at is None && i > s ==> last_id(data.log()) == evs[i - 1].event_id
                &&& truncated_at == (if truncated_at is Some {
                    Some(evs[s + k].event_id)
                } else {
                    None
                })
                &&& truncated_at is Some ==> s + k < i && plain_at(cipher@, evs, s, h0, s + k) is Some
                    && decodes_to(*decode, plain_at(cipher@, evs, s, h0, s + k).unwrap(), None)
                &&& forall|j: int|
                    0 <= j < k ==> {
                        let e = #[trigger] data.log()[old_log.len() + j];
                        &&& e.event_id == evs[s + j].event_id
                        &&& e.created_at == evs[s + j].created_at
                        &&& e.hash == evs[s + j].hash
                        &&& plain_at(cipher@, evs, s, h0, s + j) is Some
                        &&& decodes_to(
                            *decode,
                            plain_at(cipher@, evs, s, h0, s + j).unwrap(),
                            Some(e.payload),
                        )
                    }
            }),
            verify_chain ==> forall|x: int| s <= x < i ==> #[trigger] link_ok(evs, s, h0, x),
            forall|x: int| s <= x < i && x <= s + (data.log().len() - old_log.len()) && (truncated_at is None || x < s + (data.log().len() - old_log.len())) ==> #[trigger] plain_at(cipher@, evs, s, h0, x) is Some,
        decreases evs.len() - i,
    {
        let ev = &events[i];
        if truncated_at.is_none() && data.last_event_id() >= ev.event_id {
            chain_tip = ev.hash;
            i = i + 1;
            continue;
        }
        assert(i >= s);
        assert(prev_hash@ == prev_at(evs, s, h0, i as int));
        if verify_chain {
            let expected = chain_hash(&prev_hash, ev.event_id, ev.created_at, ev.payload.as_slice());
            let mut same = true;
            let mut b: usize = 0;
            assert(expected@.take(0) =~= ev.hash@.take(0));
            while b < 32
                invariant
                    b <= 32,
                    expected@.len() == 32,
                    ev.hash@.len() == 32,
                    same == (expected@.take(b as int) == ev.hash@.take(b as int)),
                decreases 32 - b,
            {
                if expected[b] != ev.hash[b] {
                    assert(expected@.take(b + 1) != ev.hash@.take(b + 1)) by {
                        assert(expected@.take(b + 1)[b as int] != ev.hash@.take(b + 1)[b as int]);
                    }
                    same = false;
                } else if same {
                    assert(expected@.take(b + 1) =~= ev.hash@.take(b + 1));
                } else {
                    assert(expected@.take(b + 1) != ev.hash@.take(b + 1)) by {
                        if expected@.take(b + 1) == ev.hash@.take(b + 1) {
                            assert(expected@.take(b as int) =~= expected@.take(b + 1).take(b as int));
                            assert(ev.hash@.take(b as int) =~= ev.hash@.take(b + 1).take(b as int));
                        }
                    }
                }
                b = b + 1;
            }
            assert(expected@.take(32) =~= expected@);
            assert(ev.hash@.take(32) =~= ev.hash@);
            if !same {
                assert(!link_ok(evs, s, h0, i as int));
                assert(s <= i < evs.len() && !((!verify_chain || link_ok(evs, s, h0, i as int))
                    && plain_at(cipher@, evs, s, h0, i as int) is Some));
                let mut t = String::new();
                push_all(&mut t, "hash chain broken at event ");
                push_decimal(&mut t, ev.event_id as u64);
                assert(first_failure(cipher@, evs, s, h0, verify_chain, data.log().len() - old_log.len(), i as int, t@));
                let e = AppError::EventDecodeError(t);
                assert(e->EventDecodeError_0@ == t@);
                return Err(e);
            }
        }
        let aad = event_aad(ev.event_id, ev.created_at, &prev_hash);
        prev_hash = ev.hash;
        chain_tip = ev.hash;
        if truncated_at.is_some() {
            i = i + 1;
            continue;
        }
        match cipher.decrypt(ev.payload.as_slice(), aad.as_slice()) {
            Ok(plain) => {
                let ghost pv = plain@;
                match decode(plain) {
                    Some(payload) => {
                        let ghost before = data.log();
                        data.apply(StoreEvent {
                            event_id: ev.event_id,
                            payload,
                            created_at: ev.created_at,
                            hash: ev.hash,
                        });
                        assert(data.log().take(old_log.len() as int) =~= old_log) by {
                            assert(before.take(old_log.len() as int) == old_log);
                        }
                    },
                    None => {
                        truncated_at = Some(ev.event_id);
                    },
                }
            },
            Err(err) => {
                let e = err.into_app_error();
                assert(first_failure(
                    cipher@,
                    evs,
                    s,
                    h0,
                    verify_chain,
                    data.log().len() - old_log.len(),
                    i as int,
                    e->EventDecodeError_0@,
                ));
                return Err(e);
            },
        }
        i = i + 1;
    }
    Ok(Replay { chain_tip, truncated_at })
}

/// Whether the stored events' ids strictly ascend.
fn ids_ascending(frames: &Vec<EncryptedEvent>) -> (r: bool)
    ensures
        r == stored_ids_increasing(frames@),
{
    let mut k: usize = 1;
    while k < frames.len()
        invariant
            1 <= k,
            frames@.len() > 0 ==> k <= frames@.len(),
            forall|i: int, j: int| 0 <= i < j < k && j < frames@.len() ==> #[trigger] frames@[i].event_id < #[trigger] frames@[j].event_id,
        decreases frames@.len() - k,
    {
        if frames[k - 1].event_id >= frames[k].event_id {
            assert(!stored_ids_increasing(frames@)) by {
                assert(frames@[k - 1].event_id >= frames@[k as int].event_id);
            }
            return false;
        }
        proof {
            assert forall|i: int, j: int| 0 <= i < j < k + 1 && j < frames@.len() implies #[trigger] frames@[i].event_id
                < #[trigger] frames@[j].event_id by {
                if j == k && i < k - 1 {
                    assert(frames@[i].event_id < frames@[k - 1].event_id);
                }
            }
        }
        k = k + 1;
    }
    true
}

/// The highest event id among stored frames, or 0 when there are none.
pub fn highest_frame_id(frames: &Vec<EncryptedEvent>) -> (n: usize)
    ensures
        frames@.len() == 0 ==> n == 0,
        frames@.len() > 0 ==> exists|i: int| 0 <= i < frames@.len() && #[trigger] frames@[i].event_id == n,
        forall|i: int| 0 <= i < frames@.len() ==> #[trigger] frames@[i].event_id <= n,
{
    let mut n: usize = 0;
    let mut k: usize = 0;
    while k < frames.len()
        invariant
            k <= frames@.len(),
            k == 0 ==> n == 0,
            k > 0 ==> exists|i: int| 0 <= i < k && #[trigger] frames@[i].event_id == n,
            forall|i: int| 0 <= i < k ==> #[trigger] frames@[i].event_id <= n,
        decreases frames@.len() - k,
    {
        if k == 0 || frames[k].event_id > n {
            n = frames[k].event_id;
            assert(frames@[k as int].event_id == n);
        }
        k = k + 1;
    }
    n
}

/// Whether two chain hashes are the same.
fn same_hash(a: &EventHash, b: &EventHash) -> (r: bool)
    ensures
        r == (a@ == b@),
{
    let mut i: usize = 0;
    while i < 32
        invariant
            i <= 32,
            a@.len() == 32,
            b@.len() == 32,
            a@.take(i as int) == b@.take(i as int),
        decreases 32 - i,
    {
        if a[i] != b[i] {
            return false;
        }
        assert(a@.take(i + 1) =~= a@.take(i as int).push(a@[i as int]));
        assert(b@.take(i + 1) =~= b@.take(i as int).push(b@[i as int]));
        i = i + 1;
    }
    assert(a@ =~= a@.take(32));
    assert(b@ =~= b@.take(32));
    true
}

/// Decrypt stored events and apply the ones `data` does not hold yet.
///
/// `events` are the stored events, expected in ascending event order; an
/// event at or below the projection's last id (as it stands when the event is
/// reached) is skipped. `decode` turns a decrypted payload into an event, or
/// reports that this build cannot decode it: then replay stops applying there
/// and reports the id in [`Replay::truncated_at`], while the chain is still
/// walked to its tip. Unreadable bytes (and, when `verify_chain` is set, a
/// broken hash chain) are hard errors. What the replay gives is stated for
/// events in ascending order; for others the projection only ever grows.
pub fn apply_encrypted_events<D: StoreData, F: Fn(Vec<u8>) -> Option<D::Event>>(
    data: &mut D,
    cipher: &EventCipher,
    events: &Vec<EncryptedEvent>,
    decode: &F,
    verify_chain: bool,
) -> (r: Result<Replay, AppError>)
    requires
        forall|v: Vec<u8>| call_requires(*decode, (v,)),
    ensures
        final(data).log().len() >= old(data).log().len(),
        final(data).log().take(old(data).log().len() as int) == old(data).log(),
        r matches Err(e) ==> e is EventDecodeError,
        stored_ids_increasing(events@) ==> replayed(
            old(data).log(),
            final(data).log(),
            cipher@,
            events@,
            *decode,
            verify_chain,
            r,
        ),
{
    if ids_ascending(events) {
        replay_in_order(data, cipher, events, decode, verify_chain)
    } else {
        replay_any_order(data, cipher, events, decode, verify_chain)
    }
}

/// [`apply_encrypted_events`] on stored events in any order.
fn replay_any_order<D: StoreData, F: Fn(Vec<u8>) -> Option<D::Event>>(
    data: &mut D,
    cipher: &EventCipher,
    events: &Vec<EncryptedEvent>,
    decode: &F,
    verify_chain: bool,
) -> (r: Result<Replay, AppError>)
    requires
        forall|v: Vec<u8>| call_requires(*decode, (v,)),
    ensures
        final(data).log().len() >= old(data).log().len(),
        final(data).log().take(old(data).log().len() as int) == old(data).log(),
        r matches Err(e) ==> e is EventDecodeError,
{
    let ghost old_log = data.log();
    let mut prev_hash: EventHash = data.last_event_hash();
    let mut chain_tip: EventHash = prev_hash;
    let mut truncated_at: Option<usize> = None;
    let mut i: usize = 0;
    while i < events.len()
        invariant
            forall|v: Vec<u8>| call_requires(*decode, (v,)),
            old_log == old(data).log(),
            i <= events@.len(),
            data.log().len() >= old_log.len(),
            data.log().take(old_log.len() as int) == old_log,
        decreases events@.len() - i,
    {
        let ev = &events[i];
        if truncated_at.is_none() && data.last_event_id() >= ev.event_id {
            chain_tip = ev.hash;
            i = i + 1;
            continue;
        }
        if verify_chain {
            let expected = chain_hash(&prev_hash, ev.event_id, ev.created_at, ev.payload.as_slice());
            if !same_hash(&expected, &ev.hash) {
                let mut t = String::new();
                push_all(&mut t, "hash chain broken at event ");
                push_decimal(&mut t, ev.event_id as u64);
                return Err(AppError::EventDecodeError(t));
            }
        }
        let aad = event_aad(ev.event_id, ev.created_at, &prev_hash);
        prev_hash = ev.hash;
        chain_tip = ev.hash;
        if truncated_at.is_some() {
            i = i + 1;
            continue;
        }
        match cipher.decrypt(ev.payload.as_slice(), aad.as_slice()) {
            Ok(plain) => match decode(plain) {
                Some(payload) => {
                    let ghost before = data.log();
                    data.apply(StoreEvent { event_id: ev.event_id, payload, created_at: ev.created_at, hash: ev.hash });
                    assert(data.log().take(old_log.len() as int) =~= old_log) by {
                        assert(before.take(old_log.len() as int) == old_log);
                    }
                },
                None => {
                    truncated_at = Some(ev.event_id);
                },
            },
            Err(err) => {
                return Err(err.into_app_error());
            },
        }
        i = i + 1;
    }
    Ok(Replay { chain_tip, truncated_at })
}

/// Encrypt an event's encoded payload for storage after `prev_hash`,
/// returning the stored blob and the event's chain hash over it.
pub fn seal_event(
    cipher: &EventCipher,
    event_id: usize,
    created_at: i64,
    prev_hash: &EventHash,
    plaintext: &[u8],
) -> (r: Result<(Vec<u8>, EventHash), AppError>)
    ensures
        match r {
            Ok((blob, hash)) => {
                &&& open_blob(cipher@, blob@, aad_bytes(event_id, created_at, prev_hash@)) == Some(plaintext@)
                &&& hash@ == sha256(chain_input(prev_hash@, event_id, created_at, blob@))
            },
            Err(e) => e is ServerError && plaintext@.len() > crate::crypto::gcm_max_len(),
        },
{
    let aad = event_aad(event_id, created_at, prev_hash);
    proof {
        crate::bytes::lemma_le_bytes_len((event_id as u64) as nat, 8);
        crate::bytes::lemma_le_bytes_len((created_at as u64) as nat, 8);
    }
    let blob = cipher.encrypt(plaintext, aad.as_slice())?;
    let hash = chain_hash(prev_hash, event_id, created_at, blob.as_slice());
    Ok((blob, hash))
}

/// Stored events written one after another by [`seal_event`], each chained
/// onto its predecessor (the first onto `h0`) and encrypting `plaintexts[i]`.
pub open spec fn sealed_stream(key: Seq<u8>, evs: Seq<EncryptedEvent>, h0: Seq<u8>, plaintexts: Seq<Seq<u8>>) -> bool {
    &&& plaintexts.len() == evs.len()
    &&& forall|i: int|
        0 <= i < evs.len() ==> {
            let prev = if i == 0 {
                h0
            } else {
                evs[i - 1].hash@
            };
            &&& open_blob(key, (#[trigger] evs[i]).payload@, aad_bytes(evs[i].event_id, evs[i].created_at, prev))
                == Some(plaintexts[i])
            &&& evs[i].hash@ == sha256(chain_input(prev, evs[i].event_id, evs[i].created_at, evs[i].payload@))
        }
}

/// What a write stores, a replay reads back: replaying a sealed stream into
/// a projection that holds none of its events passes every chain check and
/// recovers every plaintext, so [`apply_encrypted_events`] cannot fail on it.
pub proof fn lemma_sealed_stream_replays(key: Seq<u8>, evs: Seq<EncryptedEvent>, h0: Seq<u8>, plaintexts: Seq<Seq<u8>>)
    requires
        sealed_stream(key, evs, h0, plaintexts),
    ensures
        forall|i: int|
            0 <= i < evs.len() ==> link_ok(evs, 0, h0, i) && #[trigger] plain_at(key, evs, 0, h0, i)
                == Some(plaintexts[i]),
{
    assert forall|i: int| 0 <= i < evs.len() implies link_ok(evs, 0, h0, i) && #[trigger] plain_at(
        key,
        evs,
        0,
        h0,
        i,
    ) == Some(plaintexts[i]) by {
        let _ = evs[i];
    }
}

/// Summary of one persisted stream, for listings.
#[derive(Debug)]
pub struct StreamMeta {
    pub stream_id: StreamId,
    pub election: String,
    /// Number of events, i.e. the last event id (events are appended `1..=n`).
    pub event_count: usize,
    /// When the first stored event was created, microseconds since the epoch.
    pub created_at: Option<i64>,
    /// When the last stored event was created, microseconds since the epoch.
    pub last_event_at: Option<i64>,
}

/// The highest event id among `evs`, or 0 when there are none.
pub open spec fn max_event_id(evs: Seq<EncryptedEvent>) -> nat
    decreases evs.len(),
{
    if evs.len() == 0 {
        0
    } else {
        let rest = max_event_id(evs.drop_last());
        if evs.last().event_id > rest {
            evs.last().event_id as nat
        } else {
            rest
        }
    }
}

/// The summary of a stream from its stored events, in file order: the event
/// count is the highest event id, and the times are those of the first and
/// the last stored event.
pub fn stream_meta(stream_id: StreamId, election: String, evs: &Vec<EncryptedEvent>) -> (m: StreamMeta)
    ensures
        m.stream_id == stream_id,
        m.election == election,
        m.event_count == max_event_id(evs@),
        m.created_at == (if evs@.len() == 0 { None } else { Some(evs@[0].created_at) }),
        m.last_event_at == (if evs@.len() == 0 { None } else { Some(evs@.last().created_at) }),
{
    let mut count: usize = 0;
    let mut i: usize = 0;
    while i < evs.len()
        invariant
            i <= evs@.len(),
            count == max_event_id(evs@.take(i as int)),
        decreases evs@.len() - i,
    {
        assert(evs@.take(i + 1).drop_last() =~= evs@.take(i as int));
        if evs[i].event_id > count {
            count = evs[i].event_id;
        }
        i = i + 1;
    }
    assert(evs@.take(evs@.len() as int) =~= evs@);
    let n = evs.len();
    StreamMeta {
        stream_id,
        election,
        event_count: count,
        created_at: if n == 0 { None } else { Some(evs[0].created_at) },
        last_event_at: if n == 0 { None } else { Some(evs[n - 1].created_at) },
    }
}

} // verus!
