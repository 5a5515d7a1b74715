//! One live vote record per `(proposal, voter)` pair. A first cast creates
//! the record; a later cast from the same voter overwrites choice and weight
//! atomically together; a withdrawal overwrites with `Abstain` at weight zero
//! and never deletes the record, so audit history stays visible.

use vstd::prelude::*;

use crate::types::{GovError, ProposalInfo, VoteChoice};

verus! {

/// A cast vote: the choice and the effective weight snapshotted at cast time.
/// The snapshot is permanent — later delegation or deposit changes never
/// reweight it; only a strictly newer cast from the same voter replaces it.
#[derive(Clone, Copy, PartialEq, Eq, Structural, Debug)]
pub struct VoteRecord {
    pub proposal_id: u64,
    pub voter: u64,
    pub choice: VoteChoice,
    pub weight_at_cast: u64,
    pub cast_at: u64,
}

/// The weight change a cast or withdrawal reports to the tally: what the
/// superseded record carried, and what the new record carries.
#[derive(Clone, Copy, Debug)]
pub struct VoteDelta {
    pub proposal_id: u64,
    pub voter: u64,
    pub prev: Option<(VoteChoice, u64)>,
    pub next_choice: VoteChoice,
    pub next_weight: u64,
}

/// The key of a record.
pub open spec fn record_key(rec: VoteRecord) -> (u64, u64) {
    (rec.proposal_id, rec.voter)
}

/// The map from `(proposal, voter)` to the live record.
pub open spec fn record_map(s: Seq<VoteRecord>) -> Map<(u64, u64), VoteRecord>
    decreases s.len(),
{
    if s.len() == 0 {
        Map::empty()
    } else {
        record_map(s.drop_last()).insert(record_key(s.last()), s.last())
    }
}

/// Record keys are pairwise distinct.
pub open spec fn record_keys_unique(s: Seq<VoteRecord>) -> bool {
    forall|i: int, j: int| 0 <= i < j < s.len() ==> record_key(s[i]) != record_key(s[j])
}

/// What `rec` contributes to proposal `q`'s total for choice `c`.
pub open spec fn choice_weight(rec: VoteRecord, q: u64, c: VoteChoice) -> int {
    if rec.proposal_id == q && rec.choice == c {
        rec.weight_at_cast as int
    } else {
        0
    }
}

/// Sum over all records of their contribution to proposal `q`, choice `c`.
pub open spec fn choice_sum(s: Seq<VoteRecord>, q: u64, c: VoteChoice) -> int
    decreases s.len(),
{
    if s.len() == 0 {
        0
    } else {
        choice_sum(s.drop_last(), q, c) + choice_weight(s.last(), q, c)
    }
}

/// What `rec` contributes to proposal `q`'s overall snapshot weight.
pub open spec fn prop_weight(rec: VoteRecord, q: u64) -> int {
    if rec.proposal_id == q {
        rec.weight_at_cast as int
    } else {
        0
    }
}

/// Sum of `weight_at_cast` over all live records of proposal `q`.
pub open spec fn weight_sum(s: Seq<VoteRecord>, q: u64) -> int
    decreases s.len(),
{
    if s.len() == 0 {
        0
    } else {
        weight_sum(s.drop_last(), q) + prop_weight(s.last(), q)
    }
}

/// What the record stored under `(p, v)` contributes to `(q, c)`; zero when
/// no record is stored there.
pub open spec fn prior_cw(s: Seq<VoteRecord>, p: u64, v: u64, q: u64, c: VoteChoice) -> int {
    if record_map(s).dom().contains((p, v)) {
        choice_weight(record_map(s)[(p, v)], q, c)
    } else {
        0
    }
}

/// A key is in the record map iff some record carries it.
pub proof fn lemma_record_map_contains(s: Seq<VoteRecord>, p: u64, v: u64)
    ensures
        record_map(s).dom().contains((p, v)) <==> exists|i: int|
            0 <= i < s.len() && record_key(s[i]) == (p, v),
    decreases s.len(),
{
    if s.len() > 0 {
        lemma_record_map_contains(s.drop_last(), p, v);
        if record_key(s.last()) == (p, v) {
            assert(record_key(s[s.len() - 1]) == (p, v));
        } else {
            assert(forall|i: int| 0 <= i < s.len() - 1 ==> s.drop_last()[i] == s[i]);
            if exists|i: int| 0 <= i < s.len() && record_key(s[i]) == (p, v) {
                let i = choose|i: int| 0 <= i < s.len() && record_key(s[i]) == (p, v);
                assert(s.drop_last()[i] == s[i]);
            }
        }
    }
}

/// Under unique keys, the record at index `i` is what the map holds for its
/// key.
pub proof fn lemma_record_map_at(s: Seq<VoteRecord>, i: int)
    requires
        record_keys_unique(s),
        0 <= i < s.len(),
    ensures
        record_map(s).dom().contains(record_key(s[i])),
        record_map(s)[record_key(s[i])] == s[i],
    decreases s.len(),
{
    if i < s.len() - 1 {
        assert(forall|j: int| 0 <= j < s.len() - 1 ==> s.drop_last()[j] == s[j]);
        lemma_record_map_at(s.drop_last(), i);
        assert(record_key(s[i]) != record_key(s.last()));
    }
}

/// A stored record carries the key it is stored under.
pub proof fn lemma_record_map_key(s: Seq<VoteRecord>, p: u64, v: u64)
    requires
        record_map(s).dom().contains((p, v)),
    ensures
        record_map(s)[(p, v)].proposal_id == p,
        record_map(s)[(p, v)].voter == v,
    decreases s.len(),
{
    if s.len() > 0 && record_key(s.last()) != (p, v) {
        lemma_record_map_key(s.drop_last(), p, v);
    }
}

/// Replacing the record at `i` by one with the same key updates the map at
/// that key and moves each per-choice sum by the contribution difference.
pub proof fn lemma_record_update(s: Seq<VoteRecord>, i: int, rec: VoteRecord, q: u64, c: VoteChoice)
    requires
        record_keys_unique(s),
        0 <= i < s.len(),
        record_key(rec) == record_key(s[i]),
    ensures
        record_keys_unique(s.update(i, rec)),
        record_map(s.update(i, rec)) == record_map(s).insert(record_key(rec), rec),
        choice_sum(s.update(i, rec), q, c) == choice_sum(s, q, c) - choice_weight(s[i], q, c)
            + choice_weight(rec, q, c),
    decreases s.len(),
{
    let s2 = s.update(i, rec);
    if i == s.len() - 1 {
        assert(s2.drop_last() =~= s.drop_last());
        assert(record_map(s.drop_last()).insert(record_key(s.last()), s.last()).insert(
            record_key(rec),
            rec,
        ) =~= record_map(s.drop_last()).insert(record_key(rec), rec));
    } else {
        assert(s2.drop_last() =~= s.drop_last().update(i, rec));
        assert(forall|j: int| 0 <= j < s.len() - 1 ==> s.drop_last()[j] == s[j]);
        lemma_record_update(s.drop_last(), i, rec, q, c);
        assert(s2.last() == s.last());
        assert(record_key(rec) != record_key(s.last()));
        assert(record_map(s.drop_last()).insert(record_key(rec), rec).insert(
            record_key(s.last()),
            s.last(),
        ) =~= record_map(s.drop_last()).insert(record_key(s.last()), s.last()).insert(
            record_key(rec),
            rec,
        ));
    }
}

/// Appending a record with a fresh key inserts it into the map and adds its
/// contribution to each per-choice sum.
pub proof fn lemma_record_push(s: Seq<VoteRecord>, rec: VoteRecord, q: u64, c: VoteChoice)
    requires
        record_keys_unique(s),
        forall|i: int| 0 <= i < s.len() ==> record_key(s[i]) != record_key(rec),
    ensures
        record_keys_unique(s.push(rec)),
        record_map(s.push(rec)) == record_map(s).insert(record_key(rec), rec),
        choice_sum(s.push(rec), q, c) == choice_sum(s, q, c) + choice_weight(rec, q, c),
{
    assert(s.push(rec).drop_last() =~= s);
}

/// The three per-choice sums of a proposal partition its snapshot weight:
/// every live record contributes to exactly one of them.
pub proof fn lemma_tally_partition(s: Seq<VoteRecord>, q: u64)
    ensures
        choice_sum(s, q, VoteChoice::Approve) + choice_sum(s, q, VoteChoice::Reject) + choice_sum(
            s,
            q,
            VoteChoice::Abstain,
        ) == weight_sum(s, q),
    decreases s.len(),
{
    if s.len() > 0 {
        lemma_tally_partition(s.drop_last(), q);
    }
}

/// The store of live vote records: exactly one per `(proposal, voter)` key.
pub struct VoteRecordStore {
    pub records: Vec<VoteRecord>,
}

impl View for VoteRecordStore {
    type V = Map<(u64, u64), VoteRecord>;

    open spec fn view(&self) -> Map<(u64, u64), VoteRecord> {
        record_map(self.records@)
    }
}

impl VoteRecordStore {
    /// Well-formed: one record per key.
    pub open spec fn wf(self) -> bool {
        record_keys_unique(self.records@)
    }

    pub fn new() -> (st: Self)
        ensures
            st.wf(),
            st@ == Map::<(u64, u64), VoteRecord>::empty(),
            st.records@.len() == 0,
    {
        VoteRecordStore { records: Vec::new() }
    }

    /// Index of the record for `(p, v)`, if any.
    fn find(&self, p: u64, v: u64) -> (r: Option<usize>)
        ensures
            match r {
                Some(i) => i < self.records@.len() && record_key(self.records@[i as int]) == (p, v),
                None => forall|i: int|
                    0 <= i < self.records@.len() ==> record_key(self.records@[i]) != (p, v),
            },
    {
        let mut i: usize = 0;
        while i < self.records.len()
            invariant
                i <= self.records@.len(),
                forall|j: int| 0 <= j < i ==> record_key(self.records@[j]) != (p, v),
            decreases self.records@.len() - i,
        {
            if self.records[i].proposal_id == p && self.records[i].voter == v {
                return Some(i);
            }
            i = i + 1;
        }
        None
    }

    /// The live record for `(p, v)`, if one exists.
    pub fn get_record(&self, p: u64, v: u64) -> (r: Option<VoteRecord>)
        requires
            self.wf(),
        ensures
            match r {
                Some(rec) => self@.dom().contains((p, v)) && self@[(p, v)] == rec,
                None => !self@.dom().contains((p, v)),
            },
    {
        match self.find(p, v) {
            Some(i) => {
                proof {
                    lemma_record_map_at(self.records@, i as int);
                }
                Some(self.records[i])
            }
            None => {
                proof {
                    lemma_record_map_contains(self.records@, p, v);
                }
                None
            }
        }
    }

    /// Apply a cast: requires the proposal to accept votes at `now`, else
    /// fails with `VotingClosed` and changes nothing. On success the record
    /// for `(proposal, voter)` is created or overwritten — choice and weight
    /// move together, the old snapshot fully superseded — and the reported
    /// delta carries the superseded contribution and the new one.
    pub fn cast(
        &mut self,
        proposal: &ProposalInfo,
        voter: u64,
        choice: VoteChoice,
        weight: u64,
        now: u64,
    ) -> (r: Result<VoteDelta, GovError>)
        requires
            old(self).wf(),
        ensures
            final(self).wf(),
            r is Ok <==> proposal.accepts_votes(now),
            r is Err ==> r == Err::<VoteDelta, GovError>(GovError::VotingClosed) && final(self).records@ == old(self).records@,
            proposal.accepts_votes(now) ==> final(self)@ == old(self)@.insert(
                (proposal.proposal_id, voter),
                (VoteRecord {
                    proposal_id: proposal.proposal_id,
                    voter,
                    choice,
                    weight_at_cast: weight,
                    cast_at: now,
                }),
            ),
            proposal.accepts_votes(now) ==> forall|q: u64, c: VoteChoice|
                choice_sum(final(self).records@, q, c) == choice_sum(old(self).records@, q, c)
                    - prior_cw(old(self).records@, proposal.proposal_id, voter, q, c)
                    + choice_weight(
                    (VoteRecord {
                        proposal_id: proposal.proposal_id,
                        voter,
                        choice,
                        weight_at_cast: weight,
                        cast_at: now,
                    }),
                    q,
                    c,
                ),
            r matches Ok(delta) ==> delta.proposal_id == proposal.proposal_id && delta.voter
                == voter && delta.next_choice == choice && delta.next_weight == weight
                && delta.prev == (if old(self)@.dom().contains((proposal.proposal_id, voter)) {
                Some(
                    (
                        old(self)@[(proposal.proposal_id, voter)].choice,
                        old(self)@[(proposal.proposal_id, voter)].weight_at_cast,
                    ),
                )
            } else {
                None::<(VoteChoice, u64)>
            }),
    {
        if !proposal.is_open(now) {
            return Err(GovError::VotingClosed);
        }
        let p = proposal.proposal_id;
        let rec = VoteRecord { proposal_id: p, voter, choice, weight_at_cast: weight, cast_at: now };
        let ghost s0 = self.records@;
        match self.find(p, voter) {
            Some(i) => {
                let old_rec = self.records[i];
                proof {
                    lemma_record_map_at(s0, i as int);
                    assert forall|q: u64, c: VoteChoice|
                        choice_sum(s0.update(i as int, rec), q, c) == choice_sum(s0, q, c)
                            - prior_cw(s0, p, voter, q, c) + choice_weight(rec, q, c) by {
                        lemma_record_update(s0, i as int, rec, q, c);
                    }
                    lemma_record_update(s0, i as int, rec, p, choice);
                }
                self.records.set(i, rec);
                Ok(
                    VoteDelta {
                        proposal_id: p,
                        voter,
                        prev: Some((old_rec.choice, old_rec.weight_at_cast)),
                        next_choice: choice,
                        next_weight: weight,
                    },
                )
            }
            None => {
                proof {
                    lemma_record_map_contains(s0, p, voter);
                    assert forall|q: u64, c: VoteChoice|
                        choice_sum(s0.push(rec), q, c) == choice_sum(s0, q, c) - prior_cw(
                            s0,
                            p,
                            voter,
                            q,
                            c,
                        ) + choice_weight(rec, q, c) by {
                        lemma_record_push(s0, rec, q, c);
                    }
                    lemma_record_push(s0, rec, p, choice);
                }
                self.records.push(rec);
                Ok(
                    VoteDelta {
                        proposal_id: p,
                        voter,
                        prev: None,
                        next_choice: choice,
                        next_weight: weight,
                    },
                )
            }
        }
    }

    /// Withdraw a vote: exactly a cast of `Abstain` at weight zero. The
    /// record stays live, so an audit still sees that the voter engaged.
    pub fn withdraw(&mut self, proposal: &ProposalInfo, voter: u64, now: u64) -> (r: Result<
        VoteDelta,
        GovError,
    >)
        requires
            old(self).wf(),
        ensures
            final(self).wf(),
            r is Ok <==> proposal.accepts_votes(now),
            r is Err ==> r == Err::<VoteDelta, GovError>(GovError::VotingClosed) && final(self).records@ == old(self).records@,
            proposal.accepts_votes(now) ==> final(self)@ == old(self)@.insert(
                (proposal.proposal_id, voter),
                (VoteRecord {
                    proposal_id: proposal.proposal_id,
                    voter,
                    choice: VoteChoice::Abstain,
                    weight_at_cast: 0,
                    cast_at: now,
                }),
            ),
            proposal.accepts_votes(now) ==> forall|q: u64, c: VoteChoice|
                choice_sum(final(self).records@, q, c) == choice_sum(old(self).records@, q, c)
                    - prior_cw(old(self).records@, proposal.proposal_id, voter, q, c)
                    + choice_weight(
                    (VoteRecord {
                        proposal_id: proposal.proposal_id,
                        voter,
                        choice: VoteChoice::Abstain,
                        weight_at_cast: 0,
                        cast_at: now,
                    }),
                    q,
                    c,
                ),
    {
        self.cast(proposal, voter, VoteChoice::Abstain, 0, now)
    }
}

} // verus!
