//! The delegation graph: at most one outgoing `delegator -> delegate` edge per
//! voter, kept acyclic at write time. A chain is followed by repeatedly taking
//! the outgoing edge until a voter with none (a root) is reached; read-side
//! resolution caps the number of hops at [`HOP_CAP`].
//!
//! The two bounds are deliberately enforced at different points. A cycle can
//! never be repaired by reading, so writes reject it outright and the graph
//! invariant is plain acyclicity. Chain *length* is bounded at every read
//! instead: an edge that stretches some chain past the cap is accepted, and
//! that chain then fails resolution with `ChainTooLong` until an edge above
//! it is cleared. Keeping the length check on the read side keeps both check
//! points live — every resolution re-validates the depth rather than
//! trusting the writes — and lets readers surface `ChainTooLong` themselves,
//! as their contracts state.

use vstd::prelude::*;

use crate::keyed::KeyedVec;
use crate::types::GovError;

verus! {

/// Hop cap for read-side chain resolution: chains longer than this fail to
/// resolve, bounding the per-vote cost of weight resolution.
pub const HOP_CAP: usize = 16;

/// The root the chain starting at `v` reaches within `fuel` hops: `v` itself
/// if it has no outgoing edge, `None` if the chain is still inside the graph
/// when the fuel runs out.
pub open spec fn root_of(m: Map<u64, u64>, v: u64, fuel: nat) -> Option<u64>
    decreases fuel,
{
    if !m.dom().contains(v) {
        Some(v)
    } else if fuel == 0 {
        None
    } else {
        root_of(m, m[v], (fuel - 1) as nat)
    }
}

/// The chain starting at `s` passes through `t` within `fuel` hops.
pub open spec fn on_chain(m: Map<u64, u64>, s: u64, t: u64, fuel: nat) -> bool
    decreases fuel,
{
    s == t || (m.dom().contains(s) && fuel > 0 && on_chain(m, m[s], t, (fuel - 1) as nat))
}

/// The chain starting at `s` passes through `t` in any number of hops.
pub open spec fn visits(m: Map<u64, u64>, s: u64, t: u64) -> bool {
    exists|f: nat| on_chain(m, s, t, f)
}

/// The chain starting at `v` reaches a root in some number of hops.
pub open spec fn terminates(m: Map<u64, u64>, v: u64) -> bool {
    exists|f: nat| root_of(m, v, f) is Some
}

/// Every chain terminates: the graph holds no cycle.
pub open spec fn acyclic(m: Map<u64, u64>) -> bool {
    forall|v: u64| terminates(m, v)
}

/// The voters on the chain from `v`, in order, `v` first and the reached voter
/// last; truncated when the fuel runs out.
pub open spec fn chain_seq(m: Map<u64, u64>, v: u64, fuel: nat) -> Seq<u64>
    decreases fuel,
{
    if !m.dom().contains(v) || fuel == 0 {
        seq![v]
    } else {
        seq![v] + chain_seq(m, m[v], (fuel - 1) as nat)
    }
}

/// For `s != t`, the chain from `s` passes through `t` iff `s` has an edge and
/// the chain from its delegate does.
pub proof fn lemma_visits_step(m: Map<u64, u64>, s: u64, t: u64)
    requires
        s != t,
    ensures
        visits(m, s, t) <==> (m.dom().contains(s) && visits(m, m[s], t)),
{
    if visits(m, s, t) {
        let f = choose|f: nat| on_chain(m, s, t, f);
        assert(on_chain(m, m[s], t, (f - 1) as nat));
    }
    if m.dom().contains(s) && visits(m, m[s], t) {
        let f = choose|f: nat| on_chain(m, m[s], t, f);
        assert(on_chain(m, s, t, f + 1));
    }
}

/// Adding the edge `a -> b` does not change the chain from a voter whose chain
/// never passes through `a`.
pub proof fn lemma_root_of_insert_agrees(m: Map<u64, u64>, a: u64, b: u64, s: u64, f: nat)
    requires
        !visits(m, s, a),
    ensures
        root_of(m.insert(a, b), s, f) == root_of(m, s, f),
    decreases f,
{
    assert(on_chain(m, s, s, 0));
    if m.dom().contains(s) && f > 0 {
        lemma_visits_step(m, s, a);
        lemma_root_of_insert_agrees(m, a, b, m[s], (f - 1) as nat);
    }
}

/// Adding the edge `a -> b` keeps every chain terminating, provided the chain
/// from `b` terminates without passing through `a`.
pub proof fn lemma_terminates_insert(m: Map<u64, u64>, a: u64, b: u64, v: u64, f: nat)
    requires
        root_of(m, v, f) is Some,
        terminates(m, b),
        !visits(m, b, a),
    ensures
        terminates(m.insert(a, b), v),
    decreases f,
{
    let m2 = m.insert(a, b);
    if v == a {
        let fb = choose|g: nat| root_of(m, b, g) is Some;
        lemma_root_of_insert_agrees(m, a, b, b, fb);
        assert(root_of(m2, a, fb + 1) == root_of(m2, b, fb));
    } else if !m.dom().contains(v) {
        assert(root_of(m2, v, 0) == Some(v));
    } else {
        lemma_terminates_insert(m, a, b, m[v], (f - 1) as nat);
        let g = choose|g: nat| root_of(m2, m[v], g) is Some;
        assert(root_of(m2, v, g + 1) == root_of(m2, m2[v], g));
    }
}

/// Removing an edge keeps every chain terminating.
pub proof fn lemma_terminates_remove(m: Map<u64, u64>, a: u64, v: u64, f: nat)
    requires
        root_of(m, v, f) is Some,
    ensures
        root_of(m.remove(a), v, f) is Some,
    decreases f,
{
    let m2 = m.remove(a);
    if m2.dom().contains(v) {
        lemma_terminates_remove(m, a, m[v], (f - 1) as nat);
    }
}

/// Delegate relationships: at most one outgoing edge per voter, no cycles.
pub struct DelegationGraph {
    pub edges: KeyedVec<u64>,
}

impl View for DelegationGraph {
    type V = Map<u64, u64>;

    open spec fn view(&self) -> Map<u64, u64> {
        self.edges@
    }
}

impl DelegationGraph {
    /// Well-formed: the edge store has unique keys and every chain terminates.
    pub open spec fn wf(self) -> bool {
        self.edges.wf() && acyclic(self@)
    }

    pub fn new() -> (g: Self)
        ensures
            g.wf(),
            g@ == Map::<u64, u64>::empty(),
    {
        let g = DelegationGraph { edges: KeyedVec::new() };
        proof {
            assert forall|v: u64| terminates(g@, v) by {
                assert(root_of(g@, v, 0) is Some);
            }
        }
        g
    }

    /// The voter `v` currently delegates to, if any.
    pub fn delegate_of(&self, v: u64) -> (r: Option<u64>)
        requires
            self.wf(),
        ensures
            r == if self@.dom().contains(v) {
                Some(self@[v])
            } else {
                None::<u64>
            },
    {
        match self.edges.get(v) {
            Some(d) => Some(d),
            None => None,
        }
    }

    /// Set, replace or clear the outgoing edge of `delegator`.
    ///
    /// Delegating to `None` or to oneself clears the edge. Any other target is
    /// accepted only if following the target's existing chain never reaches
    /// `delegator`; otherwise the edge would close a cycle, nothing changes,
    /// and `CycleWouldForm` is returned. Setting an existing edge again is a
    /// no-op that succeeds.
    #[verifier::loop_isolation(false)]
    pub fn set_delegate(&mut self, delegator: u64, delegate: Option<u64>) -> (r: Result<
        (),
        GovError,
    >)
        requires
            old(self).wf(),
        ensures
            final(self).wf(),
            ({
                let m0 = old(self)@;
                match delegate {
                    None => r is Ok && final(self)@ == m0.remove(delegator),
                    Some(d) => if d == delegator {
                        r is Ok && final(self)@ == m0.remove(delegator)
                    } else if visits(m0, d, delegator) {
                        r == Err::<(), GovError>(GovError::CycleWouldForm) && final(self)@ == m0
                    } else {
                        r is Ok && final(self)@ == m0.insert(delegator, d)
                    },
                }
            }),
    {
        let ghost m = self@;
        let clear = match delegate {
            None => true,
            Some(d) => d == delegator,
        };
        if clear {
            self.edges.remove(delegator);
            proof {
                assert forall|v: u64| terminates(self@, v) by {
                    assert(terminates(m, v));
                    let f = choose|f: nat| root_of(m, v, f) is Some;
                    lemma_terminates_remove(m, delegator, v, f);
                }
            }
            return Ok(());
        }
        let d = match delegate {
            Some(d) => d,
            None => {
                proof {
                    assert(false);
                }
                return Err(GovError::CycleWouldForm);
            }
        };
        // Walk the existing chain from the proposed delegate; if it reaches
        // the delegator, the new edge would close a cycle.
        let mut cur = d;
        proof {
            assert(terminates(m, cur));
        }
        let ghost mut fuel: nat = choose|f: nat| root_of(m, cur, f) is Some;
        loop
            invariant
                self.wf(),
                m == self@,
                d != delegator,
                cur != delegator,
                root_of(m, cur, fuel) is Some,
                visits(m, d, delegator) <==> visits(m, cur, delegator),
            decreases fuel,
        {
            match self.edges.get(cur) {
                None => {
                    // `cur` is a root and the chain never passed the
                    // delegator: the edge is safe to commit.
                    proof {
                        if visits(m, cur, delegator) {
                            let f = choose|f: nat| on_chain(m, cur, delegator, f);
                            assert(false);
                        }
                    }
                    self.edges.set(delegator, d);
                    proof {
                        assert forall|v: u64| terminates(self@, v) by {
                            assert(terminates(m, v));
                            let f = choose|f: nat| root_of(m, v, f) is Some;
                            lemma_terminates_insert(m, delegator, d, v, f);
                        }
                    }
                    return Ok(());
                }
                Some(next) => {
                    if next == delegator {
                        proof {
                            assert(m.dom().contains(cur) && m[cur] == delegator);
                            assert(on_chain(m, delegator, delegator, 0));
                            assert(on_chain(m, cur, delegator, 1));
                        }
                        return Err(GovError::CycleWouldForm);
                    }
                    proof {
                        lemma_visits_step(m, cur, delegator);
                        fuel = (fuel - 1) as nat;
                    }
                    cur = next;
                }
            }
        }
    }

    /// The chain from `v` to its root, `v` first, root last. Fails with
    /// `ChainTooLong` iff the chain does not reach a root within [`HOP_CAP`]
    /// hops.
    #[verifier::loop_isolation(false)]
    pub fn get_chain(&self, v: u64) -> (r: Result<Vec<u64>, GovError>)
        requires
            self.wf(),
        ensures
            r is Ok <==> root_of(self@, v, HOP_CAP as nat) is Some,
            r matches Ok(c) ==> c@ == chain_seq(self@, v, HOP_CAP as nat) && c@.len() >= 1 && c@[0]
                == v && root_of(self@, v, HOP_CAP as nat) == Some(c@.last()),
            r is Err ==> r == Err::<Vec<u64>, GovError>(GovError::ChainTooLong),
    {
        let ghost m = self@;
        let mut chain: Vec<u64> = Vec::new();
        let mut cur = v;
        let mut steps: usize = 0;
        loop
            invariant
                self.wf(),
                m == self@,
                steps <= HOP_CAP,
                chain@.len() == steps,
                steps == 0 ==> cur == v,
                steps > 0 ==> chain@[0] == v,
                chain_seq(m, v, HOP_CAP as nat) == chain@ + chain_seq(
                    m,
                    cur,
                    (HOP_CAP - steps) as nat,
                ),
                root_of(m, v, HOP_CAP as nat) == root_of(m, cur, (HOP_CAP - steps) as nat),
            decreases HOP_CAP - steps,
        {
            match self.edges.get(cur) {
                None => {
                    let ghost prev = chain@;
                    chain.push(cur);
                    proof {
                        assert(chain_seq(m, cur, (HOP_CAP - steps) as nat) == seq![cur]);
                        assert(chain@ =~= prev + seq![cur]);
                        assert(chain@ =~= chain_seq(m, v, HOP_CAP as nat));
                        assert(root_of(m, cur, (HOP_CAP - steps) as nat) == Some(cur));
                    }
                    return Ok(chain);
                }
                Some(next) => {
                    if steps == HOP_CAP {
                        proof {
                            assert(root_of(m, cur, 0) is None);
                        }
                        return Err(GovError::ChainTooLong);
                    }
                    let ghost prev = chain@;
                    chain.push(cur);
                    proof {
                        assert(chain_seq(m, cur, (HOP_CAP - steps) as nat) == seq![cur]
                            + chain_seq(m, next, (HOP_CAP - (steps + 1)) as nat));
                        assert(chain@ + chain_seq(m, next, (HOP_CAP - (steps + 1)) as nat)
                            =~= prev + chain_seq(m, cur, (HOP_CAP - steps) as nat));
                    }
                    cur = next;
                    steps = steps + 1;
                }
            }
        }
    }
}

} // verus!
