//! Running yes/no/abstain totals per proposal, mutated only through deltas
//! reported by the vote record store. The aggregator refuses a delta that
//! would drive a total negative or push a proposal's totals above the sum of
//! all known deposits — either signals a bookkeeping bug and must never be
//! silently absorbed.

use vstd::prelude::*;

use crate::keyed::KeyedVec;
use crate::records::VoteDelta;
use crate::types::{GovError, VoteChoice};

verus! {

/// Per-proposal running totals of cast-time weight snapshots.
#[derive(Clone, Copy, PartialEq, Eq, Structural, Debug)]
pub struct Tally {
    pub yes_weight: u64,
    pub no_weight: u64,
    pub abstain_weight: u64,
}

/// The tally a map records for proposal `p`; all-zero when absent.
pub open spec fn tally_of(m: Map<u64, Tally>, p: u64) -> Tally {
    if m.dom().contains(p) {
        m[p]
    } else {
        Tally { yes_weight: 0, no_weight: 0, abstain_weight: 0 }
    }
}

/// The component of a tally that counts choice `c`.
pub open spec fn tally_comp(t: Tally, c: VoteChoice) -> int {
    match c {
        VoteChoice::Approve => t.yes_weight as int,
        VoteChoice::Reject => t.no_weight as int,
        VoteChoice::Abstain => t.abstain_weight as int,
    }
}

/// What a delta moves the component for choice `c` by: the superseded
/// contribution leaves, the new one enters.
pub open spec fn delta_comp(d: VoteDelta, c: VoteChoice) -> int {
    (match d.prev {
        Some((pc, pw)) => if pc == c {
            -(pw as int)
        } else {
            0
        },
        None => 0,
    }) + if d.next_choice == c {
        d.next_weight as int
    } else {
        0
    }
}

/// The component for `c` after applying `d` to `t`.
pub open spec fn applied_comp(t: Tally, d: VoteDelta, c: VoteChoice) -> int {
    tally_comp(t, c) + delta_comp(d, c)
}

/// A delta is admissible against tally `t`: no component goes negative and
/// the new totals sum stays within the sum of all known deposits.
pub open spec fn delta_admissible(t: Tally, d: VoteDelta, total_deposited: u64) -> bool {
    &&& applied_comp(t, d, VoteChoice::Approve) >= 0
    &&& applied_comp(t, d, VoteChoice::Reject) >= 0
    &&& applied_comp(t, d, VoteChoice::Abstain) >= 0
    &&& applied_comp(t, d, VoteChoice::Approve) + applied_comp(t, d, VoteChoice::Reject)
        + applied_comp(t, d, VoteChoice::Abstain) <= total_deposited
}

/// The tally that results from applying `d` to `t`.
pub open spec fn applied_tally(t: Tally, d: VoteDelta) -> Tally {
    Tally {
        yes_weight: applied_comp(t, d, VoteChoice::Approve) as u64,
        no_weight: applied_comp(t, d, VoteChoice::Reject) as u64,
        abstain_weight: applied_comp(t, d, VoteChoice::Abstain) as u64,
    }
}

/// Per-proposal tallies, owned by the aggregator and changed only through
/// [`TallyAggregator::apply`].
pub struct TallyAggregator {
    pub tallies: KeyedVec<Tally>,
}

impl View for TallyAggregator {
    type V = Map<u64, Tally>;

    open spec fn view(&self) -> Map<u64, Tally> {
        self.tallies@
    }
}

impl TallyAggregator {
    pub open spec fn wf(self) -> bool {
        self.tallies.wf()
    }

    pub fn new() -> (a: Self)
        ensures
            a.wf(),
            a@ == Map::<u64, Tally>::empty(),
    {
        TallyAggregator { tallies: KeyedVec::new() }
    }

    /// The raw totals of proposal `p`: the pure read the outcome comparison
    /// (owned by the proposal-lifecycle collaborator) is built on.
    pub fn outcome(&self, p: u64) -> (t: Tally)
        requires
            self.wf(),
        ensures
            t == tally_of(self@, p),
    {
        match self.tallies.get(p) {
            Some(t) => t,
            None => Tally { yes_weight: 0, no_weight: 0, abstain_weight: 0 },
        }
    }

    /// Whether applying `d` to proposal `p`'s tally would keep the totals
    /// consistent. A pure read, letting a caller refuse a cast before any
    /// state has moved.
    pub fn admits(&self, p: u64, d: &VoteDelta, total_deposited: u64) -> (b: bool)
        requires
            self.wf(),
        ensures
            b == delta_admissible(tally_of(self@, p), *d, total_deposited),
    {
        let t = self.outcome(p);
        let yes = t.yes_weight as i128 + Self::comp_delta(d, 0);
        let no = t.no_weight as i128 + Self::comp_delta(d, 1);
        let abstain = t.abstain_weight as i128 + Self::comp_delta(d, 2);
        yes >= 0 && no >= 0 && abstain >= 0 && yes + no + abstain <= total_deposited as i128
    }

    /// The signed movement `d` causes on the component selected by `which`
    /// (0 yes, 1 no, 2 abstain).
    fn comp_delta(d: &VoteDelta, which: u8) -> (x: i128)
        requires
            which < 3,
        ensures
            which == 0 ==> x == delta_comp(*d, VoteChoice::Approve),
            which == 1 ==> x == delta_comp(*d, VoteChoice::Reject),
            which == 2 ==> x == delta_comp(*d, VoteChoice::Abstain),
    {
        let c = if which == 0 {
            VoteChoice::Approve
        } else if which == 1 {
            VoteChoice::Reject
        } else {
            VoteChoice::Abstain
        };
        let minus: i128 = match d.prev {
            Some((pc, pw)) => if pc == c {
                pw as i128
            } else {
                0
            },
            None => 0,
        };
        let plus: i128 = if d.next_choice == c {
            d.next_weight as i128
        } else {
            0
        };
        plus - minus
    }

    /// Apply a delta to proposal `p`'s totals. Fails with
    /// `InvariantViolation` — and changes nothing — iff the delta is not
    /// admissible; the coupling with the record mutation that produced the
    /// delta is the caller's transaction to keep.
    pub fn apply(&mut self, p: u64, d: &VoteDelta, total_deposited: u64) -> (r: Result<
        (),
        GovError,
    >)
        requires
            old(self).wf(),
        ensures
            final(self).wf(),
            r is Ok <==> delta_admissible(tally_of(old(self)@, p), *d, total_deposited),
            r is Ok ==> final(self)@ == old(self)@.insert(
                p,
                applied_tally(tally_of(old(self)@, p), *d),
            ),
            r is Err ==> r == Err::<(), GovError>(GovError::InvariantViolation) && *final(self)
                == *old(self),
    {
        if !self.admits(p, d, total_deposited) {
            return Err(GovError::InvariantViolation);
        }
        let t = self.outcome(p);
        let yes = (t.yes_weight as i128 + Self::comp_delta(d, 0)) as u64;
        let no = (t.no_weight as i128 + Self::comp_delta(d, 1)) as u64;
        let abstain = (t.abstain_weight as i128 + Self::comp_delta(d, 2)) as u64;
        self.tallies.set(p, Tally { yes_weight: yes, no_weight: no, abstain_weight: abstain });
        Ok(())
    }
}

} // verus!
