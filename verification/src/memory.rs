//! The index kept by the in-memory backend: each stream's scope and its
//! events' chain hashes, so cross-stream lookups (by scope, by hash prefix)
//! resolve like they do on the persisting backends.

use vstd::prelude::*;
use vstd::string::StrSliceExecFns;

use crate::error::AppError;
use crate::event::EventHash;
use crate::stream::{Scope, StreamId};

verus! {

/// Per-stream metadata recorded by the in-memory backend.
pub struct StreamEntry {
    pub stream_id: StreamId,
    pub election: String,
    /// Scope recorded when the stream was first ensured.
    pub scope: Option<Scope>,
    /// `(event_id, chain hash)` for each event, in append order.
    pub events: Vec<(usize, EventHash)>,
}

/// Shared in-memory index of streams and their event hashes.
pub struct MemoryStore {
    entries: Vec<StreamEntry>,
}

/// Whether `e` is the entry of `(stream_id, election)`.
pub open spec fn is_key(e: StreamEntry, stream_id: StreamId, election: Seq<char>) -> bool {
    e.stream_id == stream_id && e.election@ == election
}

/// The non-empty streams of `scope`, in index order.
pub open spec fn streams_of_scope(entries: Seq<StreamEntry>, scope: Scope) -> Seq<(StreamId, Seq<char>)> {
    entries.filter_map(
        |e: StreamEntry|
            if e.scope == Some(scope) && e.events@.len() > 0 {
                Some((e.stream_id, e.election@))
            } else {
                None
            },
    )
}

/// The elections of `stream_id` that hold events, in index order.
pub open spec fn elections_of(entries: Seq<StreamEntry>, stream_id: StreamId) -> Seq<Seq<char>> {
    entries.filter_map(
        |e: StreamEntry|
            if e.stream_id == stream_id && e.events@.len() > 0 {
                Some(e.election@)
            } else {
                None
            },
    )
}

/// Whether `hash` begins with `prefix`.
pub open spec fn starts_with(hash: Seq<u8>, prefix: Seq<u8>) -> bool {
    prefix.len() <= hash.len() && hash.take(prefix.len() as int) == prefix
}

/// The events of one entry whose hash begins with `prefix`, as
/// `(stream, election, event_id)`; only political-group streams count.
pub open spec fn entry_matches(e: StreamEntry, prefix: Seq<u8>) -> Seq<(StreamId, Seq<char>, usize)> {
    if e.scope == Some(Scope::PoliticalGroup) {
        e.events@.filter_map(
            |p: (usize, EventHash)|
                if starts_with(p.1@, prefix) {
                    Some((e.stream_id, e.election@, p.0))
                } else {
                    None
                },
        )
    } else {
        Seq::empty()
    }
}

/// Every political-group event whose hash begins with `prefix`, in index order.
pub open spec fn prefix_matches(entries: Seq<StreamEntry>, prefix: Seq<u8>) -> Seq<(StreamId, Seq<char>, usize)>
    decreases entries.len(),
{
    if entries.len() == 0 {
        Seq::empty()
    } else {
        prefix_matches(entries.drop_last(), prefix) + entry_matches(entries.last(), prefix)
    }
}

fn str_eq(a: &str, b: &str) -> (r: bool)
    ensures
        r == (a@ == b@),
{
    let n = a.unicode_len();
    let m = b.unicode_len();
    if n != m {
        return false;
    }
    let mut i: usize = 0;
    while i < n
        invariant
            i <= n,
            n == a@.len(),
            m == b@.len(),
            n == m,
            a@.take(i as int) == b@.take(i as int),
        decreases n - i,
    {
        if a.get_char(i) != b.get_char(i) {
            assert(a@[i as int] != b@[i as int]);
            return false;
        }
        assert(a@.take(i + 1) =~= a@.take(i as int).push(a@[i as int]));
        assert(b@.take(i + 1) =~= b@.take(i as int).push(b@[i as int]));
        i = i + 1;
    }
    assert(a@ =~= a@.take(n as int));
    assert(b@ =~= b@.take(n as int));
    true
}

fn hash_starts_with(hash: &EventHash, prefix: &[u8]) -> (r: bool)
    ensures
        r == starts_with(hash@, prefix@),
{
    if prefix.len() > 32 {
        return false;
    }
    let mut i: usize = 0;
    while i < prefix.len()
        invariant
            i <= prefix@.len() <= 32,
            hash@.len() == 32,
            hash@.take(i as int) == prefix@.take(i as int),
        decreases prefix@.len() - i,
    {
        if hash[i] != prefix[i] {
            assert(hash@.take(prefix@.len() as int)[i as int] != prefix@[i as int]);
            return false;
        }
        assert(hash@.take(i + 1) =~= hash@.take(i as int).push(hash@[i as int]));
        assert(prefix@.take(i + 1) =~= prefix@.take(i as int).push(prefix@[i as int]));
        i = i + 1;
    }
    assert(prefix@.take(prefix@.len() as int) =~= prefix@);
    true
}

impl MemoryStore {
    /// The entries, in the order their streams were first seen.
    pub closed spec fn entries(&self) -> Seq<StreamEntry> {
        self.entries@
    }

    /// No stream is indexed twice.
    pub open spec fn wf(&self) -> bool {
        forall|i: int, j: int|
            0 <= i < j < self.entries().len() ==> !is_key(
                #[trigger] self.entries()[i],
                self.entries()[j].stream_id,
                #[trigger] self.entries()[j].election@,
            )
    }

    /// An empty index.
    pub fn new() -> (m: Self)
        ensures
            m.wf(),
            m.entries() == Seq::<StreamEntry>::empty(),
    {
        MemoryStore { entries: Vec::new() }
    }

    fn find(&self, stream_id: StreamId, election: &str) -> (r: Option<usize>)
        ensures
            match r {
                Some(i) => i < self.entries().len() && is_key(self.entries()[i as int], stream_id, election@),
                None => forall|i: int|
                    0 <= i < self.entries().len() ==> !is_key(#[trigger] self.entries()[i], stream_id, election@),
            },
    {
        let mut i: usize = 0;
        while i < self.entries.len()
            invariant
                i <= self.entries@.len(),
                forall|j: int| 0 <= j < i ==> !is_key(#[trigger] self.entries@[j], stream_id, election@),
            decreases self.entries@.len() - i,
        {
            let e = &self.entries[i];
            if e.stream_id == stream_id && str_eq(e.election.as_str(), election) {
                return Some(i);
            }
            i = i + 1;
        }
        None
    }

    /// Record `scope` for `(stream_id, election)` when the stream is first
    /// created. A no-op for a stream that already has a scope, so a stream's
    /// scope is never overwritten.
    pub fn ensure_stream(&mut self, stream_id: StreamId, election: &str, scope: Scope)
        requires
            old(self).wf(),
        ensures
            final(self).wf(),
            match old(self).find_spec(stream_id, election@) {
                Some(i) => final(self).entries() == old(self).entries().update(
                    i,
                    StreamEntry {
                        scope: if old(self).entries()[i].scope is Some {
                            old(self).entries()[i].scope
                        } else {
                            Some(scope)
                        },
                        ..old(self).entries()[i]
                    },
                ),
                None => final(self).entries().len() == old(self).entries().len() + 1
                    && final(self).entries().take(old(self).entries().len() as int) == old(self).entries()
                    && final(self).entries().last().stream_id == stream_id
                    && final(self).entries().last().election@ == election@
                    && final(self).entries().last().scope == Some(scope)
                    && final(self).entries().last().events@.len() == 0,
            },
    {
        match self.find(stream_id, election) {
            Some(i) => {
                proof {
                    self.lemma_find_spec_unique(stream_id, election@, i as int);
                }
                if self.entries[i].scope.is_none() {
                    let mut entries: Vec<StreamEntry> = Vec::new();
                    std::mem::swap(&mut entries, &mut self.entries);
                    let mut e = entries.remove(i);
                    e.scope = Some(scope);
                    entries.insert(i, e);
                    self.entries = entries;
                    assert(self.entries@ =~= old(self).entries@.update(
                        i as int,
                        StreamEntry { scope: Some(scope), ..old(self).entries@[i as int] },
                    ));
                } else {
                    assert(self.entries@ =~= old(self).entries@.update(i as int, old(self).entries@[i as int]));
                }
            },
            None => {
                self.entries.push(
                    StreamEntry {
                        stream_id,
                        election: election.to_string(),
                        scope: Some(scope),
                        events: Vec::new(),
                    },
                );
                assert(self.entries@.take(old(self).entries@.len() as int) =~= old(self).entries@);
            },
        }
        assert(self.wf()) by {
            assert forall|a: int, b: int|
                0 <= a < b < self.entries().len() implies !is_key(
                #[trigger] self.entries()[a],
                self.entries()[b].stream_id,
                #[trigger] self.entries()[b].election@,
            ) by {
                if b < old(self).entries().len() {
                    assert(old(self).entries()[a].stream_id == self.entries()[a].stream_id);
                    assert(old(self).entries()[b].stream_id == self.entries()[b].stream_id);
                    assert(old(self).entries()[a].election == self.entries()[a].election);
                    assert(old(self).entries()[b].election == self.entries()[b].election);
                }
            }
        }
    }

    /// The position of `(stream_id, election)` in the index, if present.
    pub open spec fn find_spec(&self, stream_id: StreamId, election: Seq<char>) -> Option<int> {
        if exists|i: int| 0 <= i < self.entries().len() && is_key(#[trigger] self.entries()[i], stream_id, election) {
            Some(choose|i: int| 0 <= i < self.entries().len() && is_key(#[trigger] self.entries()[i], stream_id, election))
        } else {
            None
        }
    }

    proof fn lemma_find_spec_unique(&self, stream_id: StreamId, election: Seq<char>, i: int)
        requires
            self.wf(),
            0 <= i < self.entries().len(),
            is_key(self.entries()[i], stream_id, election),
        ensures
            self.find_spec(stream_id, election) == Some(i),
    {
        let j = choose|j: int| 0 <= j < self.entries().len() && is_key(#[trigger] self.entries()[j], stream_id, election);
        if j < i {
            assert(!is_key(self.entries()[j], self.entries()[i].stream_id, self.entries()[i].election@));
        } else if i < j {
            assert(!is_key(self.entries()[i], self.entries()[j].stream_id, self.entries()[j].election@));
        }
    }

    /// Record a freshly applied event's `(event_id, chain hash)` under its
    /// stream, creating an entry without a scope for an unknown stream.
    pub fn record_event(&mut self, stream_id: StreamId, election: &str, event_id: usize, hash: EventHash)
        requires
            old(self).wf(),
        ensures
            final(self).wf(),
            match old(self).find_spec(stream_id, election@) {
                Some(i) => final(self).entries() == old(self).entries().update(
                    i,
                    StreamEntry {
                        events: final(self).entries()[i].events,
                        ..old(self).entries()[i]
                    },
                ) && final(self).entries()[i].events@ == old(self).entries()[i].events@.push((event_id, hash)),
                None => final(self).entries().len() == old(self).entries().len() + 1
                    && final(self).entries().take(old(self).entries().len() as int) == old(self).entries()
                    && final(self).entries().last().stream_id == stream_id
                    && final(self).entries().last().election@ == election@
                    && final(self).entries().last().scope is None
                    && final(self).entries().last().events@ == seq![(event_id, hash)],
            },
    {
        match self.find(stream_id, election) {
            Some(i) => {
                proof {
                    self.lemma_find_spec_unique(stream_id, election@, i as int);
                }
                let mut entries: Vec<StreamEntry> = Vec::new();
                    std::mem::swap(&mut entries, &mut self.entries);
                let mut e = entries.remove(i);
                e.events.push((event_id, hash));
                entries.insert(i, e);
                self.entries = entries;
                assert(self.entries@ =~= old(self).entries@.update(
                    i as int,
                    StreamEntry { events: self.entries@[i as int].events, ..old(self).entries@[i as int] },
                ));
            },
            None => {
                let mut events: Vec<(usize, EventHash)> = Vec::new();
                events.push((event_id, hash));
                self.entries.push(
                    StreamEntry { stream_id, election: election.to_string(), scope: None, events },
                );
                assert(self.entries@.take(old(self).entries@.len() as int) =~= old(self).entries@);
                assert(self.entries@.last().events@ =~= seq![(event_id, hash)]);
            },
        }
        assert(self.wf()) by {
            assert forall|a: int, b: int|
                0 <= a < b < self.entries().len() implies !is_key(
                #[trigger] self.entries()[a],
                self.entries()[b].stream_id,
                #[trigger] self.entries()[b].election@,
            ) by {
                if b < old(self).entries().len() {
                    assert(old(self).entries()[a].stream_id == self.entries()[a].stream_id);
                    assert(old(self).entries()[b].stream_id == self.entries()[b].stream_id);
                    assert(old(self).entries()[a].election == self.entries()[a].election);
                    assert(old(self).entries()[b].election == self.entries()[b].election);
                }
            }
        }
    }

    /// Every non-empty `(stream_id, election)` stream with the given scope.
    pub fn streams_by_scope(&self, scope: Scope) -> (r: Vec<(StreamId, String)>)
        ensures
            r@.map_values(|p: (StreamId, String)| (p.0, p.1@)) == streams_of_scope(self.entries(), scope),
    {
        let mut r: Vec<(StreamId, String)> = Vec::new();
        let mut i: usize = 0;
        while i < self.entries.len()
            invariant
                i <= self.entries@.len(),
                r@.map_values(|p: (StreamId, String)| (p.0, p.1@)) == streams_of_scope(
                    self.entries@.take(i as int),
                    scope,
                ),
            decreases self.entries@.len() - i,
        {
            proof {
                self.entries@.lemma_filter_map_take_succ(
                    |e: StreamEntry|
                        if e.scope == Some(scope) && e.events@.len() > 0 {
                            Some((e.stream_id, e.election@))
                        } else {
                            None
                        },
                    i as int,
                );
            }
            let e = &self.entries[i];
            if e.scope == Some(scope) && e.events.len() > 0 {
                let ghost before = r@;
                r.push((e.stream_id, e.election.clone()));
                assert(r@.map_values(|p: (StreamId, String)| (p.0, p.1@)) =~= before.map_values(
                    |p: (StreamId, String)| (p.0, p.1@),
                ) + seq![(e.stream_id, e.election@)]);
            }
            i = i + 1;
        }
        assert(self.entries@.take(self.entries@.len() as int) =~= self.entries@);
        r
    }

    /// The elections under `stream_id` that have recorded events.
    pub fn elections_for_stream(&self, stream_id: StreamId) -> (r: Vec<String>)
        ensures
            r@.map_values(|s: String| s@) == elections_of(self.entries(), stream_id),
    {
        let mut r: Vec<String> = Vec::new();
        let mut i: usize = 0;
        while i < self.entries.len()
            invariant
                i <= self.entries@.len(),
                r@.map_values(|s: String| s@) == elections_of(self.entries@.take(i as int), stream_id),
            decreases self.entries@.len() - i,
        {
            proof {
                self.entries@.lemma_filter_map_take_succ(
                    |e: StreamEntry|
                        if e.stream_id == stream_id && e.events@.len() > 0 {
                            Some(e.election@)
                        } else {
                            None
                        },
                    i as int,
                );
            }
            let e = &self.entries[i];
            if e.stream_id == stream_id && e.events.len() > 0 {
                let ghost before = r@;
                r.push(e.election.clone());
                assert(r@.map_values(|s: String| s@) =~= before.map_values(|s: String| s@) + seq![
                    e.election@,
                ]);
            }
            i = i + 1;
        }
        assert(self.entries@.take(self.entries@.len() as int) =~= self.entries@);
        r
    }

    /// The political-group event whose chain hash begins with `hash_prefix`,
    /// as `(stream_id, election, event_id)`. A prefix naming more than one
    /// event is ambiguous; committee streams are never searched.
    pub fn find_event_by_hash_prefix(&self, hash_prefix: &[u8]) -> (r: Result<
        Option<(StreamId, String, usize)>,
        AppError,
    >)
        ensures
            ({
                let m = prefix_matches(self.entries(), hash_prefix@);
                match r {
                    Ok(None) => m.len() == 0,
                    Ok(Some(found)) => m.len() == 1 && m[0] == (found.0, found.1@, found.2),
                    Err(e) => m.len() > 1 && e == AppError::AmbiguousHash,
                }
            }),
    {
        let mut found: Option<(StreamId, String, usize)> = None;
        let mut i: usize = 0;
        while i < self.entries.len()
            invariant
                i <= self.entries@.len(),
                ({
                    let m = prefix_matches(self.entries@.take(i as int), hash_prefix@);
                    &&& m.len() <= 1
                    &&& match found {
                        None => m.len() == 0,
                        Some(f) => m.len() == 1 && m[0] == (f.0, f.1@, f.2),
                    }
                }),
            decreases self.entries@.len() - i,
        {
            let e = &self.entries[i];
            assert(self.entries@.take(i + 1).drop_last() =~= self.entries@.take(i as int));
            let ghost before = prefix_matches(self.entries@.take(i as int), hash_prefix@);
            if e.scope == Some(Scope::PoliticalGroup) {
                let mut k: usize = 0;
                while k < e.events.len()
                    invariant
                        k <= e.events@.len(),
                        i < self.entries@.len(),
                        *e == self.entries@[i as int],
                        before == prefix_matches(self.entries@.take(i as int), hash_prefix@),
                        self.entries@.take(i + 1).drop_last() == self.entries@.take(i as int),
                        e.scope == Some(Scope::PoliticalGroup),
                        ({
                            let m = before + e.events@.take(k as int).filter_map(
                                |p: (usize, EventHash)|
                                    if starts_with(p.1@, hash_prefix@) {
                                        Some((e.stream_id, e.election@, p.0))
                                    } else {
                                        None
                                    },
                            );
                            &&& m.len() <= 1
                            &&& match found {
                                None => m.len() == 0,
                                Some(f) => m.len() == 1 && m[0] == (f.0, f.1@, f.2),
                            }
                        }),
                    decreases e.events@.len() - k,
                {
                    proof {
                        e.events@.lemma_filter_map_take_succ(
                            |p: (usize, EventHash)|
                                if starts_with(p.1@, hash_prefix@) {
                                    Some((e.stream_id, e.election@, p.0))
                                } else {
                                    None
                                },
                            k as int,
                        );
                    }
                    let (event_id, hash) = e.events[k];
                    if hash_starts_with(&hash, hash_prefix) {
                        if found.is_some() {
                            proof {
                                lemma_prefix_matches_grows(self.entries@, i as int, hash_prefix@);
                                let whole = before + entry_matches(*e, hash_prefix@);
                                let part = before + e.events@.take(k + 1).filter_map(
                                    |p: (usize, EventHash)|
                                        if starts_with(p.1@, hash_prefix@) {
                                            Some((e.stream_id, e.election@, p.0))
                                        } else {
                                            None
                                        },
                                );
                                lemma_filter_map_take_len_le(e.events@, k + 1, |p: (usize, EventHash)|
                                        if starts_with(p.1@, hash_prefix@) {
                                            Some((e.stream_id, e.election@, p.0))
                                        } else {
                                            None
                                        });
                                assert(self.entries@.take(i + 1).last() == *e);
                                assert(prefix_matches(self.entries@.take(i + 1), hash_prefix@) == whole);
                                assert(part.len() == 2);
                                assert(whole.len() >= part.len());
                            }
                            return Err(AppError::AmbiguousHash);
                        }
                        found = Some((e.stream_id, e.election.clone(), event_id));
                    }
                    k = k + 1;
                }
                assert(e.events@.take(e.events@.len() as int) =~= e.events@);
            }
            i = i + 1;
        }
        assert(self.entries@.take(self.entries@.len() as int) =~= self.entries@);
        Ok(found)
    }
}

proof fn lemma_filter_map_take_len_le<A, B>(s: Seq<A>, k: int, f: spec_fn(A) -> Option<B>)
    requires
        0 <= k <= s.len(),
    ensures
        s.take(k).filter_map(f).len() <= s.filter_map(f).len(),
    decreases s.len() - k,
{
    if k < s.len() {
        s.lemma_filter_map_take_succ(f, k);
        lemma_filter_map_take_len_le(s, k + 1, f);
    } else {
        assert(s.take(k) =~= s);
    }
}

proof fn lemma_prefix_matches_grows(entries: Seq<StreamEntry>, i: int, prefix: Seq<u8>)
    requires
        0 <= i < entries.len(),
    ensures
        prefix_matches(entries, prefix).len() >= prefix_matches(entries.take(i + 1), prefix).len(),
    decreases entries.len(),
{
    if i + 1 == entries.len() {
        assert(entries.take(i + 1) =~= entries);
    } else {
        lemma_prefix_matches_grows(entries.drop_last(), i, prefix);
        assert(entries.drop_last().take(i + 1) =~= entries.take(i + 1));
    }
}

} // verus!
