//! Per-voter token deposits, as the custody collaborator hands them in, with
//! a running total. The total is kept equal to the sum of all deposits and
//! within `u64`, so weight sums computed from the registry never overflow.

use vstd::prelude::*;

use crate::keyed::{entry_map, lemma_entry_map_at, lemma_entry_map_contains, lemma_entry_map_push,
    lemma_entry_map_update, unique_keys};
use crate::types::GovError;

verus! {

/// Sum of the deposit weights of an entry sequence.
pub open spec fn sum_weights(s: Seq<(u64, u64)>) -> int
    decreases s.len(),
{
    if s.len() == 0 {
        0
    } else {
        sum_weights(s.drop_last()) + s.last().1
    }
}

/// The deposit a map records for `v`, zero when absent.
pub open spec fn deposit_in(m: Map<u64, u64>, v: u64) -> u64 {
    if m.dom().contains(v) {
        m[v]
    } else {
        0
    }
}

/// Every single weight is at most the sum of all of them.
pub proof fn lemma_weight_le_sum(s: Seq<(u64, u64)>, i: int)
    requires
        0 <= i < s.len(),
    ensures
        s[i].1 <= sum_weights(s),
    decreases s.len(),
{
    lemma_sum_weights_nonneg(s.drop_last());
    if i < s.len() - 1 {
        assert(forall|j: int| 0 <= j < s.len() - 1 ==> s.drop_last()[j] == s[j]);
        lemma_weight_le_sum(s.drop_last(), i);
    }
}

/// Weight sums are non-negative.
pub proof fn lemma_sum_weights_nonneg(s: Seq<(u64, u64)>)
    ensures
        sum_weights(s) >= 0,
    decreases s.len(),
{
    if s.len() > 0 {
        lemma_sum_weights_nonneg(s.drop_last());
    }
}

/// Replacing the weight at `i` moves the sum by the difference.
pub proof fn lemma_sum_weights_update(s: Seq<(u64, u64)>, i: int, w: u64)
    requires
        0 <= i < s.len(),
    ensures
        sum_weights(s.update(i, (s[i].0, w))) == sum_weights(s) - s[i].1 + w,
    decreases s.len(),
{
    let s2 = s.update(i, (s[i].0, w));
    if i == s.len() - 1 {
        assert(s2.drop_last() =~= s.drop_last());
    } else {
        assert(s2.drop_last() =~= s.drop_last().update(i, (s[i].0, w)));
        assert(forall|j: int| 0 <= j < s.len() - 1 ==> s.drop_last()[j] == s[j]);
        lemma_sum_weights_update(s.drop_last(), i, w);
        assert(s2.last() == s.last());
    }
}

/// Appending an entry adds its weight to the sum.
pub proof fn lemma_sum_weights_push(s: Seq<(u64, u64)>, v: u64, w: u64)
    ensures
        sum_weights(s.push((v, w))) == sum_weights(s) + w,
{
    assert(s.push((v, w)).drop_last() =~= s);
}

/// Token deposits per voter. The core reads this; only the external custody
/// collaborator (through [`VoterRegistry::set_deposit`]) changes it.
pub struct VoterRegistry {
    pub entries: Vec<(u64, u64)>,
    pub total: u64,
}

impl View for VoterRegistry {
    type V = Map<u64, u64>;

    open spec fn view(&self) -> Map<u64, u64> {
        entry_map(self.entries@)
    }
}

impl VoterRegistry {
    /// Well-formed: keys unique, and `total` is the sum of all deposits.
    pub open spec fn wf(self) -> bool {
        unique_keys(self.entries@) && self.total as int == sum_weights(self.entries@)
    }

    pub fn new() -> (reg: Self)
        ensures
            reg.wf(),
            reg@ == Map::<u64, u64>::empty(),
            reg.entries@.len() == 0,
            reg.total == 0,
    {
        VoterRegistry { entries: Vec::new(), total: 0 }
    }

    /// Index of the entry for `v`, if any.
    fn find(&self, v: u64) -> (r: Option<usize>)
        ensures
            match r {
                Some(i) => i < self.entries@.len() && self.entries@[i as int].0 == v,
                None => forall|i: int| 0 <= i < self.entries@.len() ==> self.entries@[i].0 != v,
            },
    {
        let mut i: usize = 0;
        while i < self.entries.len()
            invariant
                i <= self.entries@.len(),
                forall|j: int| 0 <= j < i ==> self.entries@[j].0 != v,
            decreases self.entries@.len() - i,
        {
            if self.entries[i].0 == v {
                return Some(i);
            }
            i = i + 1;
        }
        None
    }

    /// The deposit recorded for `v`, zero when none is.
    pub fn deposit_of(&self, v: u64) -> (w: u64)
        requires
            self.wf(),
        ensures
            w == deposit_in(self@, v),
    {
        match self.find(v) {
            Some(i) => {
                proof {
                    lemma_entry_map_at(self.entries@, i as int);
                }
                self.entries[i].1
            }
            None => {
                proof {
                    lemma_entry_map_contains(self.entries@, v);
                }
                0
            }
        }
    }

    /// Record `v`'s deposited weight as `w`, replacing any prior value.
    ///
    /// Fails with `InvariantViolation` iff the new total of all deposits
    /// would not fit in `u64`; nothing changes then.
    pub fn set_deposit(&mut self, v: u64, w: u64) -> (r: Result<(), GovError>)
        requires
            old(self).wf(),
        ensures
            final(self).wf(),
            r is Ok <==> sum_weights(old(self).entries@) - deposit_in(old(self)@, v) + w
                <= u64::MAX,
            r is Ok ==> final(self)@ == old(self)@.insert(v, w) && final(self).total as int
                == sum_weights(old(self).entries@) - deposit_in(old(self)@, v) + w,
            r is Err ==> r == Err::<(), GovError>(GovError::InvariantViolation) && *final(self)
                == *old(self),
            (r is Ok && !old(self)@.dom().contains(v)) ==> final(self).entries@
                == old(self).entries@.push((v, w)),
            (r is Ok && old(self)@.dom().contains(v)) ==> (exists|i: int|
                0 <= i < old(self).entries@.len() && old(self).entries@[i].0 == v
                    && final(self).entries@ == old(self).entries@.update(i, (v, w))),
    {
        match self.find(v) {
            Some(i) => {
                proof {
                    lemma_entry_map_at(self.entries@, i as int);
                    lemma_weight_le_sum(self.entries@, i as int);
                }
                let old_w = self.entries[i].1;
                let new_total = self.total as u128 - old_w as u128 + w as u128;
                if new_total > u64::MAX as u128 {
                    return Err(GovError::InvariantViolation);
                }
                proof {
                    lemma_entry_map_update(self.entries@, i as int, w);
                    lemma_sum_weights_update(self.entries@, i as int, w);
                }
                self.entries.set(i, (v, w));
                self.total = new_total as u64;
                Ok(())
            }
            None => {
                proof {
                    lemma_entry_map_contains(self.entries@, v);
                }
                let new_total = self.total as u128 + w as u128;
                if new_total > u64::MAX as u128 {
                    return Err(GovError::InvariantViolation);
                }
                proof {
                    lemma_entry_map_push(self.entries@, v, w);
                    lemma_sum_weights_push(self.entries@, v, w);
                }
                self.entries.push((v, w));
                self.total = new_total as u64;
                Ok(())
            }
        }
    }
}

} // verus!
