//! A unique-key association vector: the core's model of a persisted key/value
//! store. Backed by a `Vec` of `(key, value)` pairs with pairwise-distinct
//! keys, viewed in specifications as a `Map<u64, V>`.

use vstd::prelude::*;

verus! {

/// The map described by an association sequence: later entries win, though
/// under [`unique_keys`] every key occurs at most once.
pub open spec fn entry_map<V>(s: Seq<(u64, V)>) -> Map<u64, V>
    decreases s.len(),
{
    if s.len() == 0 {
        Map::empty()
    } else {
        entry_map(s.drop_last()).insert(s.last().0, s.last().1)
    }
}

/// Keys are pairwise distinct.
pub open spec fn unique_keys<V>(s: Seq<(u64, V)>) -> bool {
    forall|i: int, j: int| 0 <= i < j < s.len() ==> s[i].0 != s[j].0
}

/// A key is in the map iff some entry carries it.
pub proof fn lemma_entry_map_contains<V>(s: Seq<(u64, V)>, k: u64)
    ensures
        entry_map(s).dom().contains(k) <==> exists|i: int| 0 <= i < s.len() && s[i].0 == k,
    decreases s.len(),
{
    if s.len() > 0 {
        lemma_entry_map_contains(s.drop_last(), k);
        if s.last().0 == k {
            assert(s[s.len() - 1].0 == k);
        } else {
            assert(forall|i: int| 0 <= i < s.len() - 1 ==> s.drop_last()[i] == s[i]);
            if exists|i: int| 0 <= i < s.len() && s[i].0 == k {
                let i = choose|i: int| 0 <= i < s.len() && s[i].0 == k;
                assert(s.drop_last()[i] == s[i]);
            }
        }
    }
}

/// Under unique keys, the entry at index `i` is what the map holds for its key.
pub proof fn lemma_entry_map_at<V>(s: Seq<(u64, V)>, i: int)
    requires
        unique_keys(s),
        0 <= i < s.len(),
    ensures
        entry_map(s).dom().contains(s[i].0),
        entry_map(s)[s[i].0] == s[i].1,
    decreases s.len(),
{
    if i < s.len() - 1 {
        assert(forall|j: int| 0 <= j < s.len() - 1 ==> s.drop_last()[j] == s[j]);
        lemma_entry_map_at(s.drop_last(), i);
        assert(s[i].0 != s.last().0);
    }
}

/// Replacing the entry at `i` by another entry with the same key updates the
/// map at that key and keeps the keys unique.
pub proof fn lemma_entry_map_update<V>(s: Seq<(u64, V)>, i: int, v: V)
    requires
        unique_keys(s),
        0 <= i < s.len(),
    ensures
        unique_keys(s.update(i, (s[i].0, v))),
        entry_map(s.update(i, (s[i].0, v))) == entry_map(s).insert(s[i].0, v),
    decreases s.len(),
{
    let k = s[i].0;
    let s2 = s.update(i, (k, v));
    if i == s.len() - 1 {
        assert(s2.drop_last() =~= s.drop_last());
        assert(entry_map(s2) == entry_map(s.drop_last()).insert(k, v));
        assert(entry_map(s.drop_last()).insert(k, s.last().1).insert(k, v)
            =~= entry_map(s.drop_last()).insert(k, v));
    } else {
        assert(s2.drop_last() =~= s.drop_last().update(i, (k, v)));
        assert(forall|j: int| 0 <= j < s.len() - 1 ==> s.drop_last()[j] == s[j]);
        lemma_entry_map_update(s.drop_last(), i, v);
        assert(s2.last() == s.last());
        assert(k != s.last().0);
        assert(entry_map(s.drop_last()).insert(k, v).insert(s.last().0, s.last().1)
            =~= entry_map(s.drop_last()).insert(s.last().0, s.last().1).insert(k, v));
    }
}

/// Appending an entry whose key is fresh inserts it into the map and keeps the
/// keys unique.
pub proof fn lemma_entry_map_push<V>(s: Seq<(u64, V)>, k: u64, v: V)
    requires
        unique_keys(s),
        forall|i: int| 0 <= i < s.len() ==> s[i].0 != k,
    ensures
        unique_keys(s.push((k, v))),
        entry_map(s.push((k, v))) == entry_map(s).insert(k, v),
{
    assert(s.push((k, v)).drop_last() =~= s);
}

/// Removing the entry at `i` removes its key from the map and keeps the keys
/// unique.
pub proof fn lemma_entry_map_remove<V>(s: Seq<(u64, V)>, i: int)
    requires
        unique_keys(s),
        0 <= i < s.len(),
    ensures
        unique_keys(s.remove(i)),
        entry_map(s.remove(i)) == entry_map(s).remove(s[i].0),
    decreases s.len(),
{
    let k = s[i].0;
    let s2 = s.remove(i);
    assert(forall|j: int| 0 <= j < s.len() - 1 ==> s.drop_last()[j] == s[j]);
    if i == s.len() - 1 {
        assert(s2 =~= s.drop_last());
        lemma_entry_map_contains(s.drop_last(), k);
        assert(entry_map(s.drop_last()) =~= entry_map(s.drop_last()).insert(k, s.last().1).remove(k));
    } else {
        assert(s2.drop_last() =~= s.drop_last().remove(i));
        lemma_entry_map_remove(s.drop_last(), i);
        assert(s2.last() == s.last());
        assert(k != s.last().0);
        assert(entry_map(s.drop_last()).remove(k).insert(s.last().0, s.last().1)
            =~= entry_map(s.drop_last()).insert(s.last().0, s.last().1).remove(k));
    }
}

/// A key/value store backed by a vector of entries with pairwise-distinct
/// keys.
pub struct KeyedVec<V> {
    pub entries: Vec<(u64, V)>,
}

impl<V> View for KeyedVec<V> {
    type V = Map<u64, V>;

    open spec fn view(&self) -> Map<u64, V> {
        entry_map(self.entries@)
    }
}

impl<V: Copy> KeyedVec<V> {
    /// Well-formed: no key occurs twice.
    pub open spec fn wf(self) -> bool {
        unique_keys(self.entries@)
    }

    pub fn new() -> (kv: Self)
        ensures
            kv.wf(),
            kv@ == Map::<u64, V>::empty(),
            kv.entries@.len() == 0,
    {
        KeyedVec { entries: Vec::new() }
    }

    /// Index of the entry holding `k`, if any.
    fn find(&self, k: u64) -> (r: Option<usize>)
        ensures
            match r {
                Some(i) => i < self.entries@.len() && self.entries@[i as int].0 == k,
                None => forall|i: int| 0 <= i < self.entries@.len() ==> self.entries@[i].0 != k,
            },
    {
        let mut i: usize = 0;
        while i < self.entries.len()
            invariant
                i <= self.entries@.len(),
                forall|j: int| 0 <= j < i ==> self.entries@[j].0 != k,
            decreases self.entries@.len() - i,
        {
            if self.entries[i].0 == k {
                return Some(i);
            }
            i = i + 1;
        }
        None
    }

    /// The value stored under `k`, if any.
    pub fn get(&self, k: u64) -> (r: Option<V>)
        requires
            self.wf(),
        ensures
            match r {
                Some(v) => self@.dom().contains(k) && self@[k] == v,
                None => !self@.dom().contains(k),
            },
    {
        match self.find(k) {
            Some(i) => {
                proof {
                    lemma_entry_map_at(self.entries@, i as int);
                }
                Some(self.entries[i].1)
            }
            None => {
                proof {
                    lemma_entry_map_contains(self.entries@, k);
                }
                None
            }
        }
    }

    /// Store `v` under `k`, replacing any prior value.
    pub fn set(&mut self, k: u64, v: V)
        requires
            old(self).wf(),
        ensures
            final(self).wf(),
            final(self)@ == old(self)@.insert(k, v),
    {
        match self.find(k) {
            Some(i) => {
                proof {
                    lemma_entry_map_update(self.entries@, i as int, v);
                }
                self.entries.set(i, (k, v));
            }
            None => {
                proof {
                    lemma_entry_map_push(self.entries@, k, v);
                }
                self.entries.push((k, v));
            }
        }
    }

    /// Remove whatever is stored under `k`; absent keys are left as they are.
    pub fn remove(&mut self, k: u64)
        requires
            old(self).wf(),
        ensures
            final(self).wf(),
            final(self)@ == old(self)@.remove(k),
    {
        match self.find(k) {
            Some(i) => {
                proof {
                    lemma_entry_map_remove(self.entries@, i as int);
                }
                self.entries.remove(i);
            }
            None => {
                proof {
                    lemma_entry_map_contains(self.entries@, k);
                    assert(self@ =~= self@.remove(k));
                }
            }
        }
    }
}

} // verus!
