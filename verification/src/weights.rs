//! Weight resolution: a voter's effective voting power is the sum of
//! `deposited_weight` over every voter whose delegation chain resolves to the
//! same root. Resolution is computed fresh from the current registry and
//! graph at every call — nothing is cached, and cast-time snapshots are taken
//! by the caller.

use vstd::prelude::*;

use crate::delegation::{root_of, DelegationGraph, HOP_CAP};
use crate::keyed::{entry_map, lemma_entry_map_at, lemma_entry_map_contains,
    lemma_entry_map_remove, unique_keys};
use crate::registry::{sum_weights, VoterRegistry};
use crate::types::GovError;

verus! {

/// The chain from `u` reaches root `r` within the hop cap.
pub open spec fn resolves_to(m: Map<u64, u64>, u: u64, r: u64) -> bool {
    root_of(m, u, HOP_CAP as nat) == Some(r)
}

/// Sum of the deposits of the entries whose voter resolves to root `r`.
pub open spec fn sum_resolved(s: Seq<(u64, u64)>, m: Map<u64, u64>, r: u64) -> int
    decreases s.len(),
{
    if s.len() == 0 {
        0
    } else {
        sum_resolved(s.drop_last(), m, r) + if resolves_to(m, s.last().0, r) {
            s.last().1 as int
        } else {
            0
        }
    }
}

/// Effective voting power of `v`: the pooled deposits of every voter whose
/// chain resolves to `v`'s root; zero when `v`'s own chain fails to resolve.
pub open spec fn effective_weight(deps: Seq<(u64, u64)>, m: Map<u64, u64>, v: u64) -> int {
    match root_of(m, v, HOP_CAP as nat) {
        Some(r) => sum_resolved(deps, m, r),
        None => 0,
    }
}

proof fn lemma_sum_weights_take_step(s: Seq<(u64, u64)>, i: int)
    requires
        0 <= i < s.len(),
    ensures
        sum_weights(s.take(i + 1)) == sum_weights(s.take(i)) + s[i].1,
{
    assert(s.take(i + 1).drop_last() =~= s.take(i));
    assert(s.take(i + 1).last() == s[i]);
}

proof fn lemma_sum_resolved_take_step(s: Seq<(u64, u64)>, m: Map<u64, u64>, r: u64, i: int)
    requires
        0 <= i < s.len(),
    ensures
        sum_resolved(s.take(i + 1), m, r) == sum_resolved(s.take(i), m, r) + if resolves_to(
            m,
            s[i].0,
            r,
        ) {
            s[i].1 as int
        } else {
            0
        },
{
    assert(s.take(i + 1).drop_last() =~= s.take(i));
    assert(s.take(i + 1).last() == s[i]);
}

proof fn lemma_sum_weights_take_le(s: Seq<(u64, u64)>, i: int)
    requires
        0 <= i <= s.len(),
    ensures
        sum_weights(s.take(i)) <= sum_weights(s),
    decreases s.len() - i,
{
    if i == s.len() {
        assert(s.take(i) =~= s);
    } else {
        lemma_sum_weights_take_step(s, i);
        lemma_sum_weights_take_le(s, i + 1);
    }
}

/// Removing the entry at `j` takes exactly its contribution out of the sum.
proof fn lemma_sum_resolved_remove(s: Seq<(u64, u64)>, m: Map<u64, u64>, r: u64, j: int)
    requires
        0 <= j < s.len(),
    ensures
        sum_resolved(s.remove(j), m, r) == sum_resolved(s, m, r) - if resolves_to(m, s[j].0, r) {
            s[j].1 as int
        } else {
            0
        },
    decreases s.len(),
{
    if j == s.len() - 1 {
        assert(s.remove(j) =~= s.drop_last());
    } else {
        assert(s.remove(j).drop_last() =~= s.drop_last().remove(j));
        assert(forall|i: int| 0 <= i < s.len() - 1 ==> s.drop_last()[i] == s[i]);
        lemma_sum_resolved_remove(s.drop_last(), m, r, j);
        assert(s.remove(j).last() == s.last());
    }
}

/// Law: the effective-weight sum reads the registry as a map — any two
/// unique-key entry sequences recording the same deposits give the same sum,
/// so the pooled weight is a sum over the *set* of depositors, whatever
/// order the store happens to keep them in.
pub proof fn lemma_sum_resolved_is_set_sum(
    s1: Seq<(u64, u64)>,
    s2: Seq<(u64, u64)>,
    m: Map<u64, u64>,
    r: u64,
)
    requires
        unique_keys(s1),
        unique_keys(s2),
        entry_map(s1) == entry_map(s2),
    ensures
        sum_resolved(s1, m, r) == sum_resolved(s2, m, r),
    decreases s1.len(),
{
    if s1.len() == 0 {
        if s2.len() > 0 {
            lemma_entry_map_at(s2, 0);
            assert(entry_map(s1).dom().contains(s2[0].0));
            lemma_entry_map_contains(s1, s2[0].0);
            assert(false);
        }
    } else {
        let k = s1.last().0;
        let w = s1.last().1;
        lemma_entry_map_at(s1, s1.len() - 1);
        lemma_entry_map_contains(s2, k);
        let j = choose|j: int| 0 <= j < s2.len() && s2[j].0 == k;
        lemma_entry_map_at(s2, j);
        assert(s2[j].1 == w);
        let s1p = s1.drop_last();
        let s2p = s2.remove(j);
        lemma_entry_map_remove(s2, j);
        assert(forall|i: int| 0 <= i < s1.len() - 1 ==> s1p[i] == s1[i]);
        lemma_entry_map_contains(s1p, k);
        assert(!entry_map(s1p).dom().contains(k));
        assert(entry_map(s1p) =~= entry_map(s1p).insert(k, w).remove(k));
        assert(entry_map(s1p) == entry_map(s2p));
        lemma_sum_resolved_is_set_sum(s1p, s2p, m, r);
        lemma_sum_resolved_remove(s2, m, r, j);
    }
}

/// Resolve `v`'s effective voting power against the current graph and
/// registry. Fails with `ChainTooLong` iff `v`'s own chain does not reach a
/// root within the hop cap; a contributor whose chain fails to resolve simply
/// contributes nothing.
#[verifier::loop_isolation(false)]
pub fn resolve(graph: &DelegationGraph, reg: &VoterRegistry, v: u64) -> (r: Result<u64, GovError>)
    requires
        graph.wf(),
        reg.wf(),
    ensures
        r is Ok <==> root_of(graph@, v, HOP_CAP as nat) is Some,
        r matches Ok(w) ==> w as int == effective_weight(reg.entries@, graph@, v),
        r is Err ==> r == Err::<u64, GovError>(GovError::ChainTooLong),
{
    let ghost m = graph@;
    let chain = match graph.get_chain(v) {
        Ok(c) => c,
        Err(e) => {
            return Err(e);
        }
    };
    let root = chain[chain.len() - 1];
    let mut acc: u64 = 0;
    let mut i: usize = 0;
    while i < reg.entries.len()
        invariant
            i <= reg.entries@.len(),
            acc as int == sum_resolved(reg.entries@.take(i as int), m, root),
            acc as int <= sum_weights(reg.entries@.take(i as int)),
        decreases reg.entries@.len() - i,
    {
        let (u, w) = reg.entries[i];
        let contributes = match graph.get_chain(u) {
            Ok(c2) => c2[c2.len() - 1] == root,
            Err(_) => false,
        };
        proof {
            lemma_sum_resolved_take_step(reg.entries@, m, root, i as int);
            lemma_sum_weights_take_step(reg.entries@, i as int);
            lemma_sum_weights_take_le(reg.entries@, i as int + 1);
            assert(contributes == resolves_to(m, u, root));
        }
        if contributes {
            acc = acc + w;
        }
        i = i + 1;
    }
    proof {
        assert(reg.entries@.take(i as int) =~= reg.entries@);
    }
    Ok(acc)
}

} // verus!
