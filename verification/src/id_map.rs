//! A map from 128-bit ids (UUIDs) to entities, kept in insertion order.

use vstd::prelude::*;

verus! {

/// Entities by id. Each id occurs at most once; iteration follows the order
/// in which ids were first inserted.
pub struct IdMap<V> {
    entries: Vec<(u128, V)>,
}

/// In a sequence without duplicates, the position of an element is where it is.
pub proof fn lemma_index_of_unique<A>(s: Seq<A>, i: int)
    requires
        s.no_duplicates(),
        0 <= i < s.len(),
    ensures
        s.index_of(s[i]) == i,
{
    assert(s.contains(s[i]));
    let j = s.index_of(s[i]);
    assert(s[j] == s[i]);
}

/// One more element of a prefix: it holds what the shorter one held and that element.
pub proof fn lemma_take_succ_contains<A>(s: Seq<A>, j: int)
    requires
        0 <= j < s.len(),
    ensures
        forall|m: A| #[trigger] s.take(j + 1).contains(m) == (s.take(j).contains(m) || m == s[j]),
{
    let a = s.take(j + 1);
    let b = s.take(j);
    assert forall|m: A| #[trigger] a.contains(m) == (b.contains(m) || m == s[j]) by {
        if a.contains(m) && m != s[j] {
            let k = choose|k: int| 0 <= k < a.len() && #[trigger] a[k] == m;
            assert(b[k] == m);
        }
        if b.contains(m) {
            let k = choose|k: int| 0 <= k < b.len() && #[trigger] b[k] == m;
            assert(a[k] == m);
        }
        if m == s[j] {
            assert(a[j] == m);
        }
    }
}

impl<V> IdMap<V> {
    /// The ids, in iteration order.
    pub closed spec fn keys(&self) -> Seq<u128> {
        self.entries@.map_values(|e: (u128, V)| e.0)
    }

    /// The entities, in iteration order.
    pub closed spec fn values(&self) -> Seq<V> {
        self.entries@.map_values(|e: (u128, V)| e.1)
    }

    /// The map itself.
    pub closed spec fn map(&self) -> Map<u128, V> {
        Map::new(
            |k: u128| self.keys().contains(k),
            |k: u128| self.values()[self.keys().index_of(k)],
        )
    }

    /// Ids are unique.
    pub closed spec fn wf(&self) -> bool {
        self.keys().no_duplicates()
    }

    /// The facts callers need: keys and values line up with the map.
    pub proof fn lemma_wf(&self)
        requires
            self.wf(),
        ensures
            self.keys().len() == self.values().len(),
            self.keys().no_duplicates(),
            forall|k: u128| #[trigger] self.map().contains_key(k) <==> self.keys().contains(k),
            forall|i: int|
                0 <= i < self.keys().len() ==> #[trigger] self.map()[self.keys()[i]] == self.values()[i],
    {
        assert forall|i: int| 0 <= i < self.keys().len() implies #[trigger] self.map()[self.keys()[i]]
            == self.values()[i] by {
            assert(self.keys().contains(self.keys()[i]));
            lemma_index_of_unique(self.keys(), i);
        }
    }

    /// An empty map.
    pub fn new() -> (m: Self)
        ensures
            m.wf(),
            m.map() == Map::<u128, V>::empty(),
            m.keys() == Seq::<u128>::empty(),
            m.values() == Seq::<V>::empty(),
    {
        let m = IdMap { entries: Vec::new() };
        assert(m.keys() =~= Seq::<u128>::empty());
        assert(m.values() =~= Seq::<V>::empty());
        assert(m.map() =~= Map::<u128, V>::empty());
        m
    }

    /// Number of entities.
    pub fn len(&self) -> (n: usize)
        requires
            self.wf(),
        ensures
            n == self.keys().len(),
            n == self.map().dom().len(),
    {
        proof {
            self.lemma_dom_len();
        }
        self.entries.len()
    }

    proof fn lemma_dom_len(&self)
        requires
            self.wf(),
        ensures
            self.map().dom() == self.keys().to_set(),
            self.map().dom().len() == self.keys().len(),
            self.keys().len() == self.entries@.len(),
    {
        assert(self.map().dom() =~= self.keys().to_set());
        self.keys().unique_seq_to_set();
    }

    fn position(&self, k: u128) -> (r: Option<usize>)
        ensures
            self.keys().len() == self.entries@.len(),
            match r {
                Some(i) => i < self.entries@.len() && self.keys()[i as int] == k,
                None => !self.keys().contains(k),
            },
    {
        let mut i: usize = 0;
        while i < self.entries.len()
            invariant
                i <= self.entries@.len(),
                self.keys().len() == self.entries@.len(),
                forall|j: int| 0 <= j < i ==> self.keys()[j] != k,
            decreases self.entries@.len() - i,
        {
            if self.entries[i].0 == k {
                return Some(i);
            }
            i = i + 1;
        }
        None
    }

    /// Whether `k` is present.
    pub fn contains_key(&self, k: u128) -> (r: bool)
        requires
            self.wf(),
        ensures
            r == self.map().contains_key(k),
    {
        self.position(k).is_some()
    }

    /// The entity stored under `k`.
    pub fn get(&self, k: u128) -> (r: Option<&V>)
        requires
            self.wf(),
        ensures
            match r {
                Some(v) => self.map().contains_key(k) && *v == self.map()[k],
                None => !self.map().contains_key(k),
            },
    {
        match self.position(k) {
            Some(i) => {
                proof {
                    self.lemma_wf();
                }
                Some(&self.entries[i].1)
            },
            None => None,
        }
    }

    /// Number of entries (without requiring well-formedness).
    pub fn entries_len(&self) -> (n: usize)
        ensures
            n == self.keys().len(),
            n == self.values().len(),
    {
        self.entries.len()
    }

    /// The entity at position `i` of the iteration order.
    pub fn value_at(&self, i: usize) -> (r: &V)
        requires
            i < self.values().len(),
        ensures
            *r == self.values()[i as int],
    {
        &self.entries[i].1
    }

    /// The id at position `i` of the iteration order.
    pub fn key_at(&self, i: usize) -> (r: u128)
        requires
            i < self.keys().len(),
        ensures
            r == self.keys()[i as int],
    {
        self.entries[i].0
    }

    /// Store `v` under `k`, replacing what was there. A present id keeps its
    /// place in the iteration order; a new one goes last.
    pub fn insert(&mut self, k: u128, v: V)
        requires
            old(self).wf(),
        ensures
            final(self).wf(),
            final(self).map() == old(self).map().insert(k, v),
            old(self).keys().contains(k) ==> final(self).keys() == old(self).keys()
                && final(self).values() == old(self).values().update(old(self).keys().index_of(k), v),
            !old(self).keys().contains(k) ==> final(self).keys() == old(self).keys().push(k)
                && final(self).values() == old(self).values().push(v),
    {
        match self.position(k) {
            Some(i) => {
                proof {
                    lemma_index_of_unique(old(self).keys(), i as int);
                }
                let mut entries: Vec<(u128, V)> = Vec::new();
                std::mem::swap(&mut entries, &mut self.entries);
                entries.remove(i);
                entries.insert(i, (k, v));
                self.entries = entries;
                assert(self.keys() =~= old(self).keys());
                assert(self.values() =~= old(self).values().update(i as int, v));
            },
            None => {
                self.entries.push((k, v));
                assert(self.keys() =~= old(self).keys().push(k));
                assert(self.values() =~= old(self).values().push(v));
            },
        }
        proof {
            old(self).lemma_wf();
            self.lemma_wf();
            assert forall|x: u128| #[trigger] self.map().contains_key(x) <==> old(self).map().insert(
                k,
                v,
            ).contains_key(x) by {
                if self.keys().contains(x) && x != k {
                    let j = self.keys().index_of(x);
                    assert(self.keys()[j] == x);
                    assert(old(self).keys()[j] == x);
                }
                if old(self).keys().contains(x) {
                    let oj = old(self).keys().index_of(x);
                    assert(self.keys()[oj] == x);
                }
                if x == k {
                    if old(self).keys().contains(k) {
                        let oj = old(self).keys().index_of(k);
                        assert(self.keys()[oj] == k);
                    } else {
                        assert(self.keys()[self.keys().len() - 1] == k);
                    }
                }
            }
            assert forall|x: u128| #[trigger] self.map().contains_key(x) implies self.map()[x]
                == old(self).map().insert(k, v)[x] by {
                if x == k {
                    if old(self).keys().contains(k) {
                        let oj = old(self).keys().index_of(k);
                        assert(old(self).keys()[oj] == k);
                        assert(self.keys()[oj] == k);
                        lemma_index_of_unique(self.keys(), oj);
                    } else {
                        let last = self.keys().len() - 1;
                        assert(self.keys()[last] == k);
                        lemma_index_of_unique(self.keys(), last);
                    }
                } else {
                    let oj = old(self).keys().index_of(x);
                    assert(old(self).keys()[oj] == x);
                    assert(self.keys()[oj] == x);
                    lemma_index_of_unique(self.keys(), oj);
                    lemma_index_of_unique(old(self).keys(), oj);
                }
            }
            assert(self.map() =~= old(self).map().insert(k, v));
        }
    }

    /// Remove and return the entity stored under `k`. The others keep their
    /// relative order.
    pub fn remove(&mut self, k: u128) -> (r: Option<V>)
        requires
            old(self).wf(),
        ensures
            final(self).wf(),
            final(self).map() == old(self).map().remove(k),
            match r {
                Some(v) => old(self).map().contains_key(k) && v == old(self).map()[k],
                None => !old(self).map().contains_key(k) && final(self).keys() == old(self).keys()
                    && final(self).values() == old(self).values(),
            },
    {
        match self.position(k) {
            Some(i) => {
                proof {
                    old(self).lemma_wf();
                    lemma_index_of_unique(old(self).keys(), i as int);
                }
                let e = self.entries.remove(i);
                assert(self.keys() =~= old(self).keys().remove(i as int));
                assert(self.values() =~= old(self).values().remove(i as int));
                proof {
                    assert(self.keys().no_duplicates()) by {
                        assert forall|a: int, b: int|
                            0 <= a < self.keys().len() && 0 <= b < self.keys().len() && a != b implies self.keys()[a]
                            != self.keys()[b] by {
                            let oa = if a < i { a } else { a + 1 };
                            let ob = if b < i { b } else { b + 1 };
                            assert(self.keys()[a] == old(self).keys()[oa]);
                            assert(self.keys()[b] == old(self).keys()[ob]);
                        }
                    }
                    self.lemma_wf();
                    assert(self.map() =~= old(self).map().remove(k)) by {
                        assert forall|x: u128| #[trigger] self.map().contains_key(x) <==> old(self).map().remove(k).contains_key(x) by {
                            if self.keys().contains(x) {
                                let j = self.keys().index_of(x);
                                let oj = if j < i { j } else { j + 1 };
                                assert(old(self).keys()[oj] == x);
                                assert(x != k);
                            }
                            if old(self).keys().contains(x) && x != k {
                                let oj = old(self).keys().index_of(x);
                                assert(oj != i);
                                let j = if oj < i { oj } else { oj - 1 };
                                assert(self.keys()[j] == x);
                            }
                        }
                        assert forall|x: u128| #[trigger] self.map().contains_key(x) implies self.map()[x]
                            == old(self).map()[x] by {
                            let j = self.keys().index_of(x);
                            let oj = if j < i { j } else { j + 1 };
                            assert(self.keys()[j] == x);
                            assert(old(self).keys()[oj] == x);
                            lemma_index_of_unique(old(self).keys(), oj);
                            lemma_index_of_unique(self.keys(), j);
                        }
                    }
                }
                Some(e.1)
            },
            None => {
                proof {
                    old(self).lemma_wf();
                    assert(self.map() =~= old(self).map().remove(k));
                }
                None
            },
        }
    }

    /// The position of `k` in the iteration order.
    pub fn position_of(&self, k: u128) -> (r: Option<usize>)
        requires
            self.wf(),
        ensures
            match r {
                Some(i) => i < self.keys().len() && self.keys()[i as int] == k && self.map().contains_key(k),
                None => !self.map().contains_key(k),
            },
    {
        proof {
            self.lemma_wf();
        }
        self.position(k)
    }

    /// Mutable access to the entity at position `i`; its id stays.
    pub fn value_mut_at(&mut self, i: usize) -> (r: &mut V)
        requires
            old(self).wf(),
            i < old(self).keys().len(),
        ensures
            *r == old(self).values()[i as int],
            final(self).keys() == old(self).keys(),
            final(self).values() == old(self).values().update(i as int, *final(r)),
    {
        &mut self.entries[i].1
    }

    /// After changing the entity at position `i` in place, the map holds the
    /// new entity under that position's id and is otherwise unchanged.
    pub proof fn lemma_update_at(old_map: &Self, new_map: &Self, i: int)
        requires
            old_map.wf(),
            0 <= i < old_map.keys().len(),
            new_map.keys() == old_map.keys(),
            new_map.values() == old_map.values().update(i, new_map.values()[i]),
        ensures
            new_map.wf(),
            new_map.map() == old_map.map().insert(old_map.keys()[i], new_map.values()[i]),
    {
        old_map.lemma_wf();
        new_map.lemma_wf();
        let k = old_map.keys()[i];
        lemma_index_of_unique(old_map.keys(), i);
        assert forall|x: u128| #[trigger] new_map.map().contains_key(x) implies new_map.map()[x]
            == old_map.map().insert(k, new_map.values()[i])[x] by {
            let j = new_map.keys().index_of(x);
            assert(new_map.keys()[j] == x);
            lemma_index_of_unique(new_map.keys(), j);
            lemma_index_of_unique(old_map.keys(), j);
        }
        assert(new_map.map() =~= old_map.map().insert(k, new_map.values()[i]));
    }
}

} // verus!
