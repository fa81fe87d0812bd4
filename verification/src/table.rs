//! A small map keyed by ids, kept as a vector of entries with distinct
//! keys (deterministic iteration in insertion order).
use vstd::prelude::*;

verus! {

/// The map denoted by an entry sequence (later entries win).
pub open spec fn entries_map<V>(s: Seq<(u64, V)>) -> Map<u64, V>
    decreases s.len(),
{
    if s.len() == 0 {
        Map::empty()
    } else {
        entries_map(s.drop_last()).insert(s.last().0, s.last().1)
    }
}

pub open spec fn keys_distinct<V>(s: Seq<(u64, V)>) -> bool {
    forall|i: int, j: int| 0 <= i < j < s.len() ==> #[trigger] s[i].0 != #[trigger] s[j].0
}

pub proof fn lemma_entries_map<V>(s: Seq<(u64, V)>)
    requires
        keys_distinct(s),
    ensures
        forall|i: int| 0 <= i < s.len() ==> #[trigger] entries_map(s).contains_key(s[i].0)
            && entries_map(s)[s[i].0] == s[i].1,
        forall|k: u64| #[trigger] entries_map(s).contains_key(k) ==> exists|i: int| 0 <= i < s.len() && s[i].0 == k,
        entries_map(s).dom().finite(),
        entries_map(s).dom().len() == s.len(),
    decreases s.len(),
{
    if s.len() > 0 {
        let t = s.drop_last();
        assert(keys_distinct(t));
        lemma_entries_map(t);
        assert forall|i: int| 0 <= i < s.len() implies #[trigger] entries_map(s).contains_key(s[i].0)
            && entries_map(s)[s[i].0] == s[i].1 by {
            if i < s.len() - 1 {
                assert(t[i] == s[i]);
                assert(s[i].0 != s.last().0);
            }
        }
        assert forall|k: u64| #[trigger] entries_map(s).contains_key(k) implies exists|i: int| 0 <= i < s.len() && s[i].0 == k by {
            if k != s.last().0 {
                let i = choose|i: int| 0 <= i < t.len() && t[i].0 == k;
                assert(s[i].0 == k);
            } else {
                assert(s[s.len() - 1].0 == k);
            }
        }
        assert(!entries_map(t).contains_key(s.last().0)) by {
            if entries_map(t).contains_key(s.last().0) {
                let i = choose|i: int| 0 <= i < t.len() && t[i].0 == s.last().0;
                assert(s[i].0 == s[s.len() - 1].0);
            }
        }
    }
}

/// Map from ids to values.
pub struct Table<V> {
    entries: Vec<(u64, V)>,
}

impl<V> Table<V> {
    pub closed spec fn wf(&self) -> bool {
        keys_distinct(self.entries@)
    }

    pub closed spec fn view(&self) -> Map<u64, V> {
        entries_map(self.entries@)
    }

    /// The values in iteration order.
    pub closed spec fn values(&self) -> Seq<V> {
        self.entries@.map_values(|e: (u64, V)| e.1)
    }

    pub proof fn lemma_view(&self)
        requires
            self.wf(),
        ensures
            self@.dom().finite(),
            self@.dom().len() == self.values().len(),
            forall|k: u64| #[trigger] self@.contains_key(k) ==> exists|i: int| 0 <= i < self.values().len()
                && self.values()[i] == self@[k],
    {
        lemma_entries_map(self.entries@);
        assert forall|k: u64| #[trigger] self@.contains_key(k) implies exists|i: int| 0 <= i < self.values().len()
            && self.values()[i] == self@[k] by {
            let i = choose|i: int| 0 <= i < self.entries@.len() && self.entries@[i].0 == k;
            assert(self.values()[i] == self.entries@[i].1);
        }
    }

    pub fn new() -> (t: Self)
        ensures
            t.wf(),
            t@ == Map::<u64, V>::empty(),
            t.values().len() == 0,
    {
        Table { entries: Vec::new() }
    }

    pub fn len(&self) -> (n: usize)
        requires
            self.wf(),
        ensures
            n == self@.dom().len(),
            n == self.values().len(),
    {
        proof { lemma_entries_map(self.entries@); }
        self.entries.len()
    }

    /// The `i`-th value in iteration order.
    pub fn value_at(&self, i: usize) -> (r: &V)
        requires
            self.wf(),
            i < self.values().len(),
        ensures
            *r == self.values()[i as int],
    {
        &self.entries[i].1
    }

    fn index_of(&self, k: u64) -> (r: Option<usize>)
        requires
            self.wf(),
        ensures
            r matches Some(i) ==> i < self.entries@.len() && self.entries@[i as int].0 == k,
            r is None ==> !self@.contains_key(k),
    {
        proof { lemma_entries_map(self.entries@); }
        let mut i: usize = 0;
        while i < self.entries.len()
            invariant
                i <= self.entries@.len(),
                forall|j: int| 0 <= j < i ==> self.entries@[j].0 != k,
            decreases self.entries.len() - i,
        {
            if self.entries[i].0 == k {
                return Some(i);
            }
            i += 1;
        }
        None
    }

    pub fn contains_key(&self, k: u64) -> (r: bool)
        requires
            self.wf(),
        ensures
            r == self@.contains_key(k),
    {
        proof { lemma_entries_map(self.entries@); }
        self.index_of(k).is_some()
    }

    pub fn get(&self, k: u64) -> (r: Option<&V>)
        requires
            self.wf(),
        ensures
            r matches Some(v) ==> self@.contains_key(k) && self@[k] == *v,
            r is None ==> !self@.contains_key(k),
    {
        proof { lemma_entries_map(self.entries@); }
        match self.index_of(k) {
            Some(i) => {
                assert(self@.contains_key(self.entries@[i as int].0));
                Some(&self.entries[i].1)
            }
            None => None,
        }
    }

    /// Removes the entry for `k`, returning its value.
    pub fn remove(&mut self, k: u64) -> (r: Option<V>)
        requires
            old(self).wf(),
        ensures
            final(self).wf(),
            final(self)@ == old(self)@.remove(k),
            r matches Some(v) ==> old(self)@.contains_key(k) && old(self)@[k] == v,
            r is None ==> !old(self)@.contains_key(k),
            r matches Some(v) ==> exists|i: int|
                0 <= i < old(self).values().len() && old(self).values()[i] == v
                    && #[trigger] old(self).values().remove(i) == final(self).values(),
            r is None ==> final(self).values() == old(self).values(),
    {
        proof { lemma_entries_map(self.entries@); }
        match self.index_of(k) {
            Some(i) => {
                let ghost before = self.entries@;
                proof { lemma_entries_map(before); }
                let (_, v) = self.entries.remove(i);
                proof {
                    let after = self.entries@;
                    assert(after =~= before.remove(i as int));
                    assert(keys_distinct(after)) by {
                        assert forall|a: int, b: int| 0 <= a < b < after.len() implies #[trigger] after[a].0 != #[trigger] after[b].0 by {
                            let a0 = if a < i { a } else { a + 1 };
                            let b0 = if b < i { b } else { b + 1 };
                            assert(after[a] == before[a0]);
                            assert(after[b] == before[b0]);
                        }
                    }
                    lemma_entries_map(after);
                    assert(self.values() =~= old(self).values().remove(i as int));
                    assert(old(self).values()[i as int] == v);
                    assert(entries_map(after) =~= entries_map(before).remove(k)) by {
                        assert forall|x: u64| #[trigger] entries_map(after).contains_key(x) implies
                            entries_map(before).remove(k).contains_key(x) && entries_map(after)[x] == entries_map(before).remove(k)[x] by {
                            let j = choose|j: int| 0 <= j < after.len() && after[j].0 == x;
                            let j0 = if j < i { j } else { j + 1 };
                            assert(after[j] == before[j0]);
                            assert(j0 != i);
                            assert(entries_map(after).contains_key(after[j].0));
                            assert(entries_map(before).contains_key(before[j0].0));
                        }
                        assert forall|x: u64| #[trigger] entries_map(before).remove(k).contains_key(x) implies
                            entries_map(after).contains_key(x) by {
                            let j0 = choose|j: int| 0 <= j < before.len() && before[j].0 == x;
                            assert(j0 != i);
                            let j = if j0 < i { j0 } else { j0 - 1 };
                            assert(after[j] == before[j0]);
                        }
                    }
                }
                Some(v)
            }
            None => {
                assert(self@ =~= old(self)@.remove(k));
                None
            }
        }
    }

    /// Sets the value for `k`.
    pub fn insert(&mut self, k: u64, v: V)
        requires
            old(self).wf(),
        ensures
            final(self).wf(),
            final(self)@ == old(self)@.insert(k, v),
    {
        let _ = self.remove(k);
        let ghost before = self.entries@;
        proof { lemma_entries_map(before); }
        self.entries.push((k, v));
        proof {
            let after = self.entries@;
            assert(after.drop_last() =~= before);
            assert(keys_distinct(after)) by {
                assert forall|a: int, b: int| 0 <= a < b < after.len() implies #[trigger] after[a].0 != #[trigger] after[b].0 by {
                    if b == after.len() - 1 {
                        assert(after[a] == before[a]);
                        if before[a].0 == k {
                            assert(entries_map(before).contains_key(k));
                        }
                    } else {
                        assert(after[a] == before[a]);
                        assert(after[b] == before[b]);
                    }
                }
            }
            assert(entries_map(after) =~= old(self)@.insert(k, v));
        }
    }
}

} // verus!
