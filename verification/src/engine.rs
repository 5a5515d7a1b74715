//! The governance engine: an explicit, passed-in state handle over the four
//! components, exposing the public operations `cast_vote`,
//! `check_voting_power` and `delegate_vote` (plus withdrawal and pure reads).
//! Every operation either commits the whole change or leaves all state
//! exactly as it was.

use vstd::prelude::*;

use crate::delegation::{root_of, visits, DelegationGraph, HOP_CAP};
use crate::records::{choice_sum, choice_weight, prior_cw, record_map, weight_sum,
    lemma_record_map_key, lemma_tally_partition, VoteDelta, VoteRecord, VoteRecordStore};
use crate::registry::VoterRegistry;
use crate::tally::{applied_tally, delta_admissible, tally_comp, tally_of, Tally, TallyAggregator};
use crate::types::{GovError, ProposalInfo, VoteChoice};
use crate::weights::{effective_weight, resolve};

verus! {

/// The engine's persisted state and public operations.
pub struct GovernanceHandler {
    pub delegations: DelegationGraph,
    pub registry: VoterRegistry,
    pub votes: VoteRecordStore,
    pub tallies: TallyAggregator,
}

impl GovernanceHandler {
    /// Well-formed: every component is, and for every proposal each running
    /// total equals the per-choice sum of cast-time snapshots over its live
    /// vote records — the tally is never anything but the records re-summed.
    pub open spec fn wf(self) -> bool {
        &&& self.delegations.wf()
        &&& self.registry.wf()
        &&& self.votes.wf()
        &&& self.tallies.wf()
        &&& forall|p: u64, c: VoteChoice|
            #[trigger] choice_sum(self.votes.records@, p, c) == tally_comp(
                tally_of(self.tallies@, p),
                c,
            )
    }

    /// The delta a cast at weight `w` for `choice` would report against the
    /// current record for `(p, voter)`.
    pub open spec fn vote_delta_for(self, voter: u64, p: u64, choice: VoteChoice, w: u64) -> VoteDelta {
        VoteDelta {
            proposal_id: p,
            voter,
            prev: if self.votes@.dom().contains((p, voter)) {
                Some(
                    (self.votes@[(p, voter)].choice, self.votes@[(p, voter)].weight_at_cast),
                )
            } else {
                None
            },
            next_choice: choice,
            next_weight: w,
        }
    }

    pub fn new() -> (g: Self)
        ensures
            g.wf(),
            g.delegations@ == Map::<u64, u64>::empty(),
            g.registry@ == Map::<u64, u64>::empty(),
            g.votes@ == Map::<(u64, u64), VoteRecord>::empty(),
            g.tallies@ == Map::<u64, Tally>::empty(),
            g.registry.entries@.len() == 0,
            g.registry.total == 0,
            g.votes.records@.len() == 0,
    {
        GovernanceHandler {
            delegations: DelegationGraph::new(),
            registry: VoterRegistry::new(),
            votes: VoteRecordStore::new(),
            tallies: TallyAggregator::new(),
        }
    }

    /// Record `voter`'s deposited weight, as the external custody
    /// collaborator reports it. Fails with `InvariantViolation` — and changes
    /// nothing — iff the new total of all deposits would not fit in `u64`.
    pub fn set_deposit(&mut self, voter: u64, weight: u64) -> (r: Result<(), GovError>)
        requires
            old(self).wf(),
        ensures
            final(self).wf(),
            r is Ok <==> crate::registry::sum_weights(old(self).registry.entries@)
                - crate::registry::deposit_in(old(self).registry@, voter) + weight <= u64::MAX,
            r is Ok ==> final(self).registry@ == old(self).registry@.insert(voter, weight),
            r is Err ==> r == Err::<(), GovError>(GovError::InvariantViolation) && *final(self)
                == *old(self),
            (r is Ok && !old(self).registry@.dom().contains(voter))
                ==> final(self).registry.entries@ == old(self).registry.entries@.push(
                (voter, weight),
            ),
            (r is Ok && old(self).registry@.dom().contains(voter)) ==> (exists|i: int|
                0 <= i < old(self).registry.entries@.len() && old(self).registry.entries@[i].0
                    == voter && final(self).registry.entries@
                    == old(self).registry.entries@.update(i, (voter, weight))),
            final(self).delegations@ == old(self).delegations@,
            final(self).votes.records@ == old(self).votes.records@,
            final(self).tallies@ == old(self).tallies@,
    {
        self.registry.set_deposit(voter, weight)
    }

    /// The deposit currently recorded for `voter`, zero when none is.
    pub fn deposit_of(&self, voter: u64) -> (w: u64)
        requires
            self.wf(),
        ensures
            w == crate::registry::deposit_in(self.registry@, voter),
    {
        self.registry.deposit_of(voter)
    }

    /// The voter `voter` currently delegates to, if any.
    pub fn delegate_of(&self, voter: u64) -> (r: Option<u64>)
        requires
            self.wf(),
        ensures
            r == if self.delegations@.dom().contains(voter) {
                Some(self.delegations@[voter])
            } else {
                None::<u64>
            },
    {
        self.delegations.delegate_of(voter)
    }

    /// Set, replace or clear `voter`'s delegate. Rejects, with
    /// `CycleWouldForm` and no change, an edge that would close a delegation
    /// cycle. Already-cast vote records are never touched: cast-time
    /// snapshots are immutable.
    pub fn delegate_vote(&mut self, voter: u64, delegate: Option<u64>) -> (r: Result<
        (),
        GovError,
    >)
        requires
            old(self).wf(),
        ensures
            final(self).wf(),
            ({
                let m0 = old(self).delegations@;
                match delegate {
                    None => r is Ok && final(self).delegations@ == m0.remove(voter),
                    Some(d) => if d == voter {
                        r is Ok && final(self).delegations@ == m0.remove(voter)
                    } else if visits(m0, d, voter) {
                        r == Err::<(), GovError>(GovError::CycleWouldForm)
                            && final(self).delegations@ == m0
                    } else {
                        r is Ok && final(self).delegations@ == m0.insert(voter, d)
                    },
                }
            }),
            final(self).votes.records@ == old(self).votes.records@,
            final(self).tallies@ == old(self).tallies@,
            final(self).registry.entries@ == old(self).registry.entries@,
            final(self).registry.total == old(self).registry.total,
    {
        self.delegations.set_delegate(voter, delegate)
    }

    /// The voter's effective voting power against the current snapshot: the
    /// pooled deposits of every voter whose delegation chain resolves to the
    /// same root. A pure read with no side effects. Fails with
    /// `ChainTooLong` iff the voter's own chain does not reach a root within
    /// the hop cap.
    pub fn check_voting_power(&self, voter: u64) -> (r: Result<u64, GovError>)
        requires
            self.wf(),
        ensures
            r is Ok <==> root_of(self.delegations@, voter, HOP_CAP as nat) is Some,
            r matches Ok(w) ==> w as int == effective_weight(
                self.registry.entries@,
                self.delegations@,
                voter,
            ),
            r is Err ==> r == Err::<u64, GovError>(GovError::ChainTooLong),
    {
        resolve(&self.delegations, &self.registry, voter)
    }

    /// The raw running totals of proposal `p` — what an outcome comparison
    /// against external quorum/threshold parameters reads.
    pub fn outcome(&self, p: u64) -> (t: Tally)
        requires
            self.wf(),
        ensures
            t == tally_of(self.tallies@, p),
    {
        self.tallies.outcome(p)
    }

    /// The live vote record for `(p, voter)`, if one exists.
    pub fn get_vote_record(&self, p: u64, voter: u64) -> (r: Option<VoteRecord>)
        requires
            self.wf(),
        ensures
            match r {
                Some(rec) => self.votes@.dom().contains((p, voter)) && self.votes@[(p, voter)]
                    == rec,
                None => !self.votes@.dom().contains((p, voter)),
            },
    {
        self.votes.get_record(p, voter)
    }

    /// Cast `voter`'s vote on `proposal`: resolve the effective weight,
    /// record the vote, and move the tally — as one unit, or not at all.
    ///
    /// Checks come in this order: a proposal not accepting votes at `now`
    /// rejects with `VotingClosed`; a caster whose delegation chain does not
    /// reach a root within the hop cap rejects with `ChainTooLong`; a voter
    /// that currently delegates away is rejected with `DelegatedAway` (see
    /// [`crate::types::GovError`]); a delta that would drive the proposal's
    /// totals above the sum of all known deposits rejects with
    /// `InvariantViolation`. On every error the whole state is exactly as it
    /// was.
    pub fn cast_vote(
        &mut self,
        voter: u64,
        proposal: &ProposalInfo,
        choice: VoteChoice,
        now: u64,
    ) -> (r: Result<(), GovError>)
        requires
            old(self).wf(),
        ensures
            final(self).wf(),
            r is Err ==> *final(self) == *old(self),
            !proposal.accepts_votes(now) ==> r == Err::<(), GovError>(GovError::VotingClosed),
            (proposal.accepts_votes(now) && root_of(old(self).delegations@, voter, HOP_CAP as nat)
                is None) ==> r == Err::<(), GovError>(GovError::ChainTooLong),
            (proposal.accepts_votes(now) && root_of(old(self).delegations@, voter, HOP_CAP as nat)
                is Some && old(self).delegations@.dom().contains(voter)) ==> r == Err::<
                (),
                GovError,
            >(GovError::DelegatedAway),
            ({
                let pid = proposal.proposal_id;
                let w = effective_weight(
                    old(self).registry.entries@,
                    old(self).delegations@,
                    voter,
                ) as u64;
                let d = old(self).vote_delta_for(voter, pid, choice, w);
                let ok_wanted = proposal.accepts_votes(now)
                    && !old(self).delegations@.dom().contains(voter) && delta_admissible(
                    tally_of(old(self).tallies@, pid),
                    d,
                    old(self).registry.total,
                );
                &&& (r is Ok <==> ok_wanted)
                &&& (proposal.accepts_votes(now) && !old(self).delegations@.dom().contains(voter)
                    && !delta_admissible(
                    tally_of(old(self).tallies@, pid),
                    d,
                    old(self).registry.total,
                ) ==> r == Err::<(), GovError>(GovError::InvariantViolation))
                &&& (r is Ok ==> final(self).votes@ == old(self).votes@.insert(
                    (pid, voter),
                    (VoteRecord {
                        proposal_id: pid,
                        voter,
                        choice,
                        weight_at_cast: w,
                        cast_at: now,
                    }),
                ))
                &&& (r is Ok ==> final(self).tallies@ == old(self).tallies@.insert(
                    pid,
                    applied_tally(tally_of(old(self).tallies@, pid), d),
                ))
            }),
            final(self).delegations@ == old(self).delegations@,
            final(self).registry.entries@ == old(self).registry.entries@,
            final(self).registry.total == old(self).registry.total,
    {
        let pid = proposal.proposal_id;
        if !proposal.is_open(now) {
            return Err(GovError::VotingClosed);
        }
        let w = match resolve(&self.delegations, &self.registry, voter) {
            Ok(w) => w,
            Err(e) => {
                return Err(e);
            }
        };
        // Policy: a voter that has delegated away may not cast directly.
        match self.delegations.delegate_of(voter) {
            Some(_) => {
                return Err(GovError::DelegatedAway);
            }
            None => {}
        }
        let prior = self.votes.get_record(pid, voter);
        let d = VoteDelta {
            proposal_id: pid,
            voter,
            prev: match prior {
                Some(rec) => Some((rec.choice, rec.weight_at_cast)),
                None => None,
            },
            next_choice: choice,
            next_weight: w,
        };
        proof {
            assert(d == old(self).vote_delta_for(voter, pid, choice, w));
        }
        if !self.tallies.admits(pid, &d, self.registry.total) {
            return Err(GovError::InvariantViolation);
        }
        let ghost s0 = self.votes.records@;
        let ghost t0 = self.tallies@;
        let rec_new = VoteRecord {
            proposal_id: pid,
            voter,
            choice,
            weight_at_cast: w,
            cast_at: now,
        };
        let delta = match self.votes.cast(proposal, voter, choice, w, now) {
            Ok(delta) => delta,
            Err(_) => {
                // Unreachable: the window was checked above.
                proof {
                    assert(false);
                }
                return Err(GovError::VotingClosed);
            }
        };
        proof {
            assert(delta == d);
        }
        match self.tallies.apply(pid, &delta, self.registry.total) {
            Ok(_) => {}
            Err(_) => {
                // Unreachable: admissibility was checked above, before any
                // state moved — that keeps record and tally in one step.
                proof {
                    assert(false);
                }
                return Err(GovError::InvariantViolation);
            }
        }
        proof {
            Self::lemma_wf_restored(
                s0,
                t0,
                self.votes.records@,
                self.tallies@,
                pid,
                voter,
                d,
                rec_new,
                self.registry.total,
            );
        }
        Ok(())
    }

    /// After a cast: the per-choice sums of the new records match the
    /// components of the new tallies, given that both moved by the same
    /// delta.
    proof fn lemma_wf_restored(
        s0: Seq<VoteRecord>,
        t0: Map<u64, Tally>,
        s1: Seq<VoteRecord>,
        t1: Map<u64, Tally>,
        pid: u64,
        voter: u64,
        d: VoteDelta,
        rec_new: VoteRecord,
        total: u64,
    )
        requires
            forall|p: u64, c: VoteChoice| #[trigger] choice_sum(s0, p, c) == tally_comp(
                tally_of(t0, p),
                c,
            ),
            forall|q: u64, c: VoteChoice| #[trigger] choice_sum(s1, q, c) == choice_sum(s0, q, c)
                - prior_cw(s0, pid, voter, q, c) + choice_weight(rec_new, q, c),
            rec_new.proposal_id == pid,
            rec_new.voter == voter,
            rec_new.choice == d.next_choice,
            rec_new.weight_at_cast == d.next_weight,
            d.prev == (if record_map(s0).dom().contains((pid, voter)) {
                Some(
                    (record_map(s0)[(pid, voter)].choice, record_map(s0)[(pid, voter)].weight_at_cast),
                )
            } else {
                None::<(VoteChoice, u64)>
            }),
            delta_admissible(tally_of(t0, pid), d, total),
            t1 == t0.insert(pid, applied_tally(tally_of(t0, pid), d)),
        ensures
            forall|p: u64, c: VoteChoice| #[trigger] choice_sum(s1, p, c) == tally_comp(
                tally_of(t1, p),
                c,
            ),
    {
        assert forall|q: u64, c: VoteChoice| #[trigger] choice_sum(s1, q, c) == tally_comp(
            tally_of(t1, q),
            c,
        ) by {
            if record_map(s0).dom().contains((pid, voter)) {
                lemma_record_map_key(s0, pid, voter);
            }
            if q != pid {
                assert(tally_of(t1, q) == tally_of(t0, q));
                assert(prior_cw(s0, pid, voter, q, c) == 0);
                assert(choice_weight(rec_new, q, c) == 0);
            } else {
                assert(tally_of(t1, pid) == applied_tally(tally_of(t0, pid), d));
            }
        }
    }

    /// Withdraw `voter`'s vote on `proposal`: exactly a cast of `Abstain` at
    /// weight zero, allowed whether or not the voter currently delegates.
    /// The record stays live; only its weight leaves the tally.
    pub fn withdraw_vote(&mut self, voter: u64, proposal: &ProposalInfo, now: u64) -> (r: Result<
        (),
        GovError,
    >)
        requires
            old(self).wf(),
        ensures
            final(self).wf(),
            r is Err ==> *final(self) == *old(self),
            !proposal.accepts_votes(now) ==> r == Err::<(), GovError>(GovError::VotingClosed),
            ({
                let pid = proposal.proposal_id;
                let d = old(self).vote_delta_for(voter, pid, VoteChoice::Abstain, 0);
                let ok_wanted = proposal.accepts_votes(now) && delta_admissible(
                    tally_of(old(self).tallies@, pid),
                    d,
                    old(self).registry.total,
                );
                &&& (r is Ok <==> ok_wanted)
                &&& (proposal.accepts_votes(now) && !delta_admissible(
                    tally_of(old(self).tallies@, pid),
                    d,
                    old(self).registry.total,
                ) ==> r == Err::<(), GovError>(GovError::InvariantViolation))
                &&& (r is Ok ==> final(self).votes@ == old(self).votes@.insert(
                    (pid, voter),
                    (VoteRecord {
                        proposal_id: pid,
                        voter,
                        choice: VoteChoice::Abstain,
                        weight_at_cast: 0,
                        cast_at: now,
                    }),
                ))
                &&& (r is Ok ==> final(self).tallies@ == old(self).tallies@.insert(
                    pid,
                    applied_tally(tally_of(old(self).tallies@, pid), d),
                ))
            }),
            final(self).delegations@ == old(self).delegations@,
            final(self).registry.entries@ == old(self).registry.entries@,
            final(self).registry.total == old(self).registry.total,
    {
        let pid = proposal.proposal_id;
        if !proposal.is_open(now) {
            return Err(GovError::VotingClosed);
        }
        let prior = self.votes.get_record(pid, voter);
        let d = VoteDelta {
            proposal_id: pid,
            voter,
            prev: match prior {
                Some(rec) => Some((rec.choice, rec.weight_at_cast)),
                None => None,
            },
            next_choice: VoteChoice::Abstain,
            next_weight: 0,
        };
        if !self.tallies.admits(pid, &d, self.registry.total) {
            return Err(GovError::InvariantViolation);
        }
        let ghost s0 = self.votes.records@;
        let ghost t0 = self.tallies@;
        let rec_new = VoteRecord {
            proposal_id: pid,
            voter,
            choice: VoteChoice::Abstain,
            weight_at_cast: 0,
            cast_at: now,
        };
        match self.votes.withdraw(proposal, voter, now) {
            Ok(_) => {}
            Err(_) => {
                // Unreachable: the window was checked above.
                proof {
                    assert(false);
                }
                return Err(GovError::VotingClosed);
            }
        }
        match self.tallies.apply(pid, &d, self.registry.total) {
            Ok(_) => {}
            Err(_) => {
                // Unreachable: admissibility was checked above, before any
                // state moved.
                proof {
                    assert(false);
                }
                return Err(GovError::InvariantViolation);
            }
        }
        proof {
            Self::lemma_wf_restored(
                s0,
                t0,
                self.votes.records@,
                self.tallies@,
                pid,
                voter,
                d,
                rec_new,
                self.registry.total,
            );
        }
        Ok(())
    }

    /// Law: for every proposal, at every point a well-formed engine exists
    /// in, `yes_weight + no_weight + abstain_weight` equals the sum of
    /// `weight_at_cast` over all live vote records of that proposal.
    pub proof fn lemma_tally_matches_records(g: GovernanceHandler, p: u64)
        requires
            g.wf(),
        ensures
            tally_of(g.tallies@, p).yes_weight + tally_of(g.tallies@, p).no_weight + tally_of(
                g.tallies@,
                p,
            ).abstain_weight == weight_sum(g.votes.records@, p),
    {
        lemma_tally_partition(g.votes.records@, p);
    }

    /// Law: casting twice from the same voter on the same proposal leaves
    /// exactly one live record for the pair — the latest — however the
    /// record map looked before.
    pub proof fn lemma_recast_keeps_one_record(
        m0: Map<(u64, u64), VoteRecord>,
        k: (u64, u64),
        r1: VoteRecord,
        r2: VoteRecord,
    )
        ensures
            m0.insert(k, r1).insert(k, r2) == m0.insert(k, r2),
            m0.insert(k, r2).dom().contains(k),
            m0.insert(k, r2)[k] == r2,
    {
        assert(m0.insert(k, r1).insert(k, r2) =~= m0.insert(k, r2));
    }
}

} // verus!
