//! Plain data exchanged between the core and its external collaborators:
//! ballot choices, proposal state as the lifecycle collaborator hands it in,
//! and the error kinds every operation can surface.

use vstd::prelude::*;

verus! {

/// A voter's ballot choice on a proposal.
#[derive(Clone, Copy, PartialEq, Eq, Structural, Debug)]
pub enum VoteChoice {
    Approve,
    Reject,
    Abstain,
}

/// Whether a proposal currently accepts votes.
#[derive(Clone, Copy, PartialEq, Eq, Structural, Debug)]
pub enum ProposalStatus {
    Voting,
    Closed,
}

/// The slice of proposal state the core reads: identity, status and the
/// half-open voting window `[start, end)` in block height or timestamp units.
/// The proposal-lifecycle collaborator owns this data; the core only reads it.
#[derive(Clone, Copy, PartialEq, Eq, Structural, Debug)]
pub struct ProposalInfo {
    pub proposal_id: u64,
    pub status: ProposalStatus,
    pub start: u64,
    pub end: u64,
}

impl ProposalInfo {
    /// The proposal accepts votes at `now` iff its status is `Voting` and
    /// `now` lies within `[start, end)`.
    pub open spec fn accepts_votes(self, now: u64) -> bool {
        self.status == ProposalStatus::Voting && self.start <= now < self.end
    }

    /// Runtime check matching [`Self::accepts_votes`].
    pub fn is_open(&self, now: u64) -> (open: bool)
        ensures
            open == self.accepts_votes(now),
    {
        match self.status {
            ProposalStatus::Voting => self.start <= now && now < self.end,
            ProposalStatus::Closed => false,
        }
    }
}

/// Error kinds of the core.
///
/// Policy note on `DelegatedAway`: a voter that currently delegates their vote
/// to someone else may not cast a direct vote. Allowing such a cast at any
/// positive weight would count the same deposit twice (once through the
/// delegate's pooled weight and once directly), so the cast is rejected
/// outright; the voter first clears the delegation, then casts.
#[derive(Clone, Copy, PartialEq, Eq, Structural, Debug)]
pub enum GovError {
    /// The proposal does not accept votes at the call's time point.
    VotingClosed,
    /// Following delegation edges revisited a voter. Unreachable while the
    /// graph's write-time acyclicity invariant holds; kept as the read-side
    /// backstop kind.
    CycleDetected,
    /// The requested delegation edge would close a cycle; nothing changed.
    CycleWouldForm,
    /// A delegation chain exceeds the resolution hop cap.
    ChainTooLong,
    /// The voter has delegated their vote away and may not cast directly.
    DelegatedAway,
    /// Weight bookkeeping would become inconsistent (tally totals out of
    /// bounds); the mutation is refused so state stays as it was.
    InvariantViolation,
}

} // verus!
