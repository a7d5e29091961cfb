//! Projections of an event stream and the operations every projection
//! shares: which event it is at, applying an event once, and answering
//! whether a hash prefix names one of its events.

use vstd::prelude::*;

use crate::event::{chain_hash, chain_input, genesis, sha256, EventHash, StoreEvent, GENESIS_HASH};
use crate::event_hash_prefix::{zero_prefix, EventHashPrefix};
use crate::error::AppError;
use crate::memory::MemoryStore;
use crate::stream::{Scope, StreamId};

verus! {

/// The id of the last event of `log`, or 0 when it is empty.
pub open spec fn last_id<E>(log: Seq<StoreEvent<E>>) -> usize {
    if log.len() == 0 {
        0
    } else {
        log.last().event_id
    }
}

/// The chain hash of the last event of `log`, or the genesis hash.
pub open spec fn last_hash<E>(log: Seq<StoreEvent<E>>) -> Seq<u8> {
    if log.len() == 0 {
        genesis()
    } else {
        log.last().hash@
    }
}

/// Event ids strictly increase along the log.
pub open spec fn ids_increasing<E>(log: Seq<StoreEvent<E>>) -> bool {
    forall|i: int, j: int| 0 <= i < j < log.len() ==> #[trigger] log[i].event_id < #[trigger] log[j].event_id
}

/// A projection of one stream: the data derived from the events applied to it.
pub trait StoreData: Sized {
    type Event;

    /// The events applied to this projection, in order.
    spec fn log(&self) -> Seq<StoreEvent<Self::Event>>;

    /// Apply a fully wrapped store event to the projection.
    fn apply(&mut self, event: StoreEvent<Self::Event>)
        ensures
            final(self).log() == old(self).log().push(event),
    ;

    /// All events applied to this projection, in order.
    fn events(&self) -> (r: &Vec<StoreEvent<Self::Event>>)
        ensures
            r@ == self.log(),
    ;

    /// Who the projection's streams belong to.
    fn scope() -> Scope;

    /// The last applied event id, or 0 if none.
    fn last_event_id(&self) -> (r: usize)
        ensures
            r == last_id(self.log()),
    {
        let events = self.events();
        if events.len() == 0 {
            0
        } else {
            events[events.len() - 1].event_id
        }
    }

    /// The chain hash of the last applied event, or the genesis hash.
    fn last_event_hash(&self) -> (r: EventHash)
        ensures
            r@ == last_hash(self.log()),
    {
        let events = self.events();
        if events.len() == 0 {
            let h = GENESIS_HASH;
            assert(h@ =~= genesis());
            h
        } else {
            events[events.len() - 1].hash
        }
    }
}

/// Apply one event unless the projection is already at or past it (another
/// instance may have applied it first).
pub fn apply_event<D: StoreData>(data: &mut D, event: StoreEvent<D::Event>)
    ensures
        last_id(old(data).log()) >= event.event_id ==> final(data).log() == old(data).log(),
        last_id(old(data).log()) < event.event_id ==> final(data).log() == old(data).log().push(event),
{
    if data.last_event_id() >= event.event_id {
        return;
    }
    data.apply(event);
}

/// Applying events only through [`apply_event`] keeps the event ids of a
/// projection strictly increasing.
pub proof fn lemma_apply_event_keeps_ids_increasing<E>(log: Seq<StoreEvent<E>>, event: StoreEvent<E>)
    requires
        ids_increasing(log),
        last_id(log) < event.event_id,
    ensures
        ids_increasing(log.push(event)),
        last_id(log.push(event)) == event.event_id,
{
    let l2 = log.push(event);
    assert forall|i: int, j: int| 0 <= i < j < l2.len() implies #[trigger] l2[i].event_id
        < #[trigger] l2[j].event_id by {
        if j == log.len() {
            if i < log.len() - 1 {
                assert(log[i].event_id < log[log.len() - 1].event_id);
            }
        } else {
            assert(log[i].event_id < log[j].event_id);
        }
    }
}

/// The id of the last event applied to the projection, or 0 if none.
pub fn current_event_id<D: StoreData>(data: &D) -> (r: usize)
    ensures
        r == last_id(data.log()),
{
    data.last_event_id()
}

/// The chain hash of the last applied event, or the genesis hash if none.
pub fn current_event_hash<D: StoreData>(data: &D) -> (r: EventHash)
    ensures
        r@ == last_hash(data.log()),
{
    data.last_event_hash()
}

/// Whether `prefix` names any event in this chain: the check download and
/// export links are held to. The all-zero prefix is shared by every stream,
/// so it never names an event.
pub fn has_event_hash<D: StoreData>(data: &D, prefix: EventHashPrefix) -> (r: bool)
    ensures
        r == (prefix@ != zero_prefix() && exists|i: int|
            0 <= i < data.log().len() && prefix@ == #[trigger] data.log()[i].hash@.subrange(0, 8)),
{
    if prefix.is_genesis() {
        return false;
    }
    let events = data.events();
    let mut i: usize = 0;
    while i < events.len()
        invariant
            i <= events@.len(),
            events@ == data.log(),
            prefix@ != zero_prefix(),
            forall|j: int| 0 <= j < i ==> prefix@ != #[trigger] events@[j].hash@.subrange(0, 8),
        decreases events@.len() - i,
    {
        if prefix.matches(&events[i].hash) {
            assert(prefix@ == data.log()[i as int].hash@.subrange(0, 8));
            return true;
        }
        i = i + 1;
    }
    false
}

/// Whether `prefix` names the event `event_id` specifically, for links that
/// already identify one event.
pub fn event_hash_matches<D: StoreData>(data: &D, event_id: usize, prefix: EventHashPrefix) -> (r: bool)
    ensures
        r == (prefix@ != zero_prefix() && exists|i: int|
            0 <= i < data.log().len() && #[trigger] data.log()[i].event_id == event_id && prefix@
                == data.log()[i].hash@.subrange(0, 8)),
{
    if prefix.is_genesis() {
        return false;
    }
    let events = data.events();
    let mut i: usize = 0;
    while i < events.len()
        invariant
            i <= events@.len(),
            events@ == data.log(),
            prefix@ != zero_prefix(),
            forall|j: int|
                0 <= j < i ==> !(#[trigger] events@[j].event_id == event_id && prefix@
                    == events@[j].hash@.subrange(0, 8)),
        decreases events@.len() - i,
    {
        if events[i].event_id == event_id && prefix.matches(&events[i].hash) {
            assert(data.log()[i as int].event_id == event_id);
            return true;
        }
        i = i + 1;
    }
    false
}

/// Every event of `log` is linked to its predecessor: its hash is the chain
/// hash over the previous hash (genesis for the first), its id, its time and
/// its stored body.
pub open spec fn chain_linked<E>(log: Seq<StoreEvent<E>>, bodies: Seq<Seq<u8>>) -> bool {
    &&& bodies.len() == log.len()
    &&& forall|i: int|
        0 <= i < log.len() ==> (#[trigger] log[i]).hash@ == sha256(
            chain_input(
                if i == 0 {
                    genesis()
                } else {
                    log[i - 1].hash@
                },
                log[i].event_id,
                log[i].created_at,
                bodies[i],
            ),
        )
}

/// Appending an event whose hash is the chain hash over the last hash keeps
/// the whole log linked.
pub proof fn lemma_append_keeps_chain_linked<E>(
    log: Seq<StoreEvent<E>>,
    bodies: Seq<Seq<u8>>,
    event: StoreEvent<E>,
    body: Seq<u8>,
)
    requires
        chain_linked(log, bodies),
        event.hash@ == sha256(chain_input(last_hash(log), event.event_id, event.created_at, body)),
    ensures
        chain_linked(log.push(event), bodies.push(body)),
{
    let l2 = log.push(event);
    let b2 = bodies.push(body);
    assert forall|i: int| 0 <= i < l2.len() implies (#[trigger] l2[i]).hash@ == sha256(
        chain_input(
            if i == 0 {
                genesis()
            } else {
                l2[i - 1].hash@
            },
            l2[i].event_id,
            l2[i].created_at,
            b2[i],
        ),
    ) by {
        if i < log.len() {
            assert(log[i] == l2[i]);
        }
    }
}

/// The event that appending `payload` at `created_at` with stored body `body`
/// adds to a projection: the next id, chained onto the last hash.
pub fn next_event<D: StoreData>(data: &D, payload: D::Event, created_at: i64, body: &[u8]) -> (r: StoreEvent<D::Event>)
    requires
        last_id(data.log()) < usize::MAX,
    ensures
        r.event_id == last_id(data.log()) + 1,
        r.payload == payload,
        r.created_at == created_at,
        r.hash@ == sha256(chain_input(last_hash(data.log()), r.event_id, created_at, body@)),
{
    let event_id = data.last_event_id() + 1;
    let prev_hash = data.last_event_hash();
    let hash = chain_hash(&prev_hash, event_id, created_at, body);
    StoreEvent { event_id, payload, created_at, hash }
}

/// The in-memory backend's write: nothing is persisted, so the chain hash
/// is taken over the payload's plain encoding `body`; the event is recorded
/// in the shared index and applied to the projection.
pub fn append_in_memory<D: StoreData>(
    data: &mut D,
    index: &mut MemoryStore,
    stream_id: StreamId,
    election: &str,
    payload: D::Event,
    created_at: i64,
    body: &[u8],
)
    requires
        last_id(old(data).log()) < usize::MAX,
        old(index).wf(),
    ensures
        final(index).wf(),
        ({
            let e = final(data).log().last();
            &&& final(data).log() == old(data).log().push(e)
            &&& e.event_id == last_id(old(data).log()) + 1
            &&& e.payload == payload
            &&& e.created_at == created_at
            &&& e.hash@ == sha256(chain_input(last_hash(old(data).log()), e.event_id, created_at, body@))
            &&& match old(index).find_spec(stream_id, election@) {
                Some(i) => final(index).entries()[i].events@ == old(index).entries()[i].events@.push(
                    (e.event_id, e.hash),
                ),
                None => final(index).entries().last().events@ == seq![(e.event_id, e.hash)],
            }
        }),
{
    let event = next_event(data, payload, created_at, body);
    index.record_event(stream_id, election, event.event_id, event.hash);
    data.apply(event);
}

/// Refuse a write, with [`AppError::Conflict`], when the stream moved past
/// the last event the writer saw: another request appended since.
pub fn check_unchanged<D: StoreData>(data: &D, expected_last_event_id: usize) -> (r: Result<(), AppError>)
    ensures
        r is Ok <==> last_id(data.log()) <= expected_last_event_id,
        r is Err ==> r == Err::<(), AppError>(AppError::Conflict),
{
    if data.last_event_id() > expected_last_event_id {
        Err(AppError::Conflict)
    } else {
        Ok(())
    }
}

/// [`append_in_memory`], refused with [`AppError::Conflict`] (and nothing
/// written) when the stream moved past `expected_last_event_id`.
pub fn append_in_memory_if_unchanged<D: StoreData>(
    data: &mut D,
    index: &mut MemoryStore,
    stream_id: StreamId,
    election: &str,
    payload: D::Event,
    created_at: i64,
    body: &[u8],
    expected_last_event_id: usize,
) -> (r: Result<(), AppError>)
    requires
        last_id(old(data).log()) < usize::MAX,
        old(index).wf(),
    ensures
        final(index).wf(),
        r is Ok <==> last_id(old(data).log()) <= expected_last_event_id,
        r is Err ==> r == Err::<(), AppError>(AppError::Conflict) && final(data).log() == old(data).log()
            && *final(index) == *old(index),
        r is Ok ==> ({
            let e = final(data).log().last();
            &&& final(data).log() == old(data).log().push(e)
            &&& e.event_id == last_id(old(data).log()) + 1
            &&& e.payload == payload
            &&& e.created_at == created_at
            &&& e.hash@ == sha256(chain_input(last_hash(old(data).log()), e.event_id, created_at, body@))
            &&& match old(index).find_spec(stream_id, election@) {
                Some(i) => final(index).entries()[i].events@ == old(index).entries()[i].events@.push(
                    (e.event_id, e.hash),
                ),
                None => final(index).entries().last().events@ == seq![(e.event_id, e.hash)],
            }
        }),
{
    match check_unchanged(data, expected_last_event_id) {
        Err(e) => Err(e),
        Ok(()) => {
            append_in_memory(data, index, stream_id, election, payload, created_at, body);
            Ok(())
        },
    }
}

} // verus!
