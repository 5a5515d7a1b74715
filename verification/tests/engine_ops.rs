use governance_core::{GovError, GovernanceHandler, ProposalInfo, ProposalStatus, VoteChoice};

fn open_proposal(id: u64) -> ProposalInfo {
    ProposalInfo { proposal_id: id, status: ProposalStatus::Voting, start: 10, end: 100 }
}

fn closed_proposal(id: u64) -> ProposalInfo {
    ProposalInfo { proposal_id: id, status: ProposalStatus::Closed, start: 10, end: 100 }
}

#[test]
fn voting_power_sums_chain_deposits() {
    let mut g = GovernanceHandler::new();
    assert!(g.set_deposit(1, 100).is_ok());
    assert!(g.set_deposit(2, 50).is_ok());
    assert!(g.set_deposit(3, 7).is_ok());
    assert!(g.delegate_vote(1, Some(2)).is_ok());
    // 1 -> 2, so both pool to root 2; 3 stands alone.
    assert_eq!(g.check_voting_power(1), Ok(150));
    assert_eq!(g.check_voting_power(2), Ok(150));
    assert_eq!(g.check_voting_power(3), Ok(7));
    // A voter with no deposit and no delegation is its own root with weight 0.
    assert_eq!(g.check_voting_power(99), Ok(0));
}

#[test]
fn voting_power_follows_transitive_chains() {
    let mut g = GovernanceHandler::new();
    for v in 1..=4u64 {
        assert!(g.set_deposit(v, 10 * v).is_ok());
    }
    assert!(g.delegate_vote(1, Some(2)).is_ok());
    assert!(g.delegate_vote(2, Some(3)).is_ok());
    // 1 -> 2 -> 3: all three pool at root 3; 4 stands alone.
    assert_eq!(g.check_voting_power(3), Ok(60));
    assert_eq!(g.check_voting_power(1), Ok(60));
    assert_eq!(g.check_voting_power(4), Ok(40));
}

#[test]
fn tally_equals_sum_of_snapshots() {
    let mut g = GovernanceHandler::new();
    assert!(g.set_deposit(1, 100).is_ok());
    assert!(g.set_deposit(2, 50).is_ok());
    assert!(g.set_deposit(3, 25).is_ok());
    let p = open_proposal(7);
    assert!(g.cast_vote(1, &p, VoteChoice::Approve, 20).is_ok());
    assert!(g.cast_vote(2, &p, VoteChoice::Reject, 21).is_ok());
    assert!(g.cast_vote(3, &p, VoteChoice::Abstain, 22).is_ok());
    let t = g.outcome(7);
    assert_eq!((t.yes_weight, t.no_weight, t.abstain_weight), (100, 50, 25));
    let sum: u64 = [g.get_vote_record(7, 1), g.get_vote_record(7, 2), g.get_vote_record(7, 3)]
        .iter()
        .map(|r| r.unwrap().weight_at_cast)
        .sum();
    assert_eq!(t.yes_weight + t.no_weight + t.abstain_weight, sum);
}

#[test]
fn recast_leaves_one_record_and_no_double_count() {
    let mut g = GovernanceHandler::new();
    assert!(g.set_deposit(1, 100).is_ok());
    let p = open_proposal(7);
    assert!(g.cast_vote(1, &p, VoteChoice::Approve, 20).is_ok());
    assert!(g.cast_vote(1, &p, VoteChoice::Reject, 30).is_ok());
    let t = g.outcome(7);
    // Only the latest cast counts: no double counting.
    assert_eq!((t.yes_weight, t.no_weight, t.abstain_weight), (0, 100, 0));
    let rec = g.get_vote_record(7, 1).unwrap();
    assert_eq!(rec.choice, VoteChoice::Reject);
    assert_eq!(rec.weight_at_cast, 100);
    assert_eq!(rec.cast_at, 30);
}

#[test]
fn recast_snapshots_fresh_weight() {
    let mut g = GovernanceHandler::new();
    assert!(g.set_deposit(1, 100).is_ok());
    let p = open_proposal(7);
    assert!(g.cast_vote(1, &p, VoteChoice::Approve, 20).is_ok());
    assert_eq!(g.outcome(7).yes_weight, 100);
    // Deposit grows; the voter simply casts again to re-snapshot.
    assert!(g.set_deposit(1, 160).is_ok());
    assert_eq!(g.outcome(7).yes_weight, 100);
    assert!(g.cast_vote(1, &p, VoteChoice::Approve, 25).is_ok());
    assert_eq!(g.outcome(7).yes_weight, 160);
}

#[test]
fn cycle_would_form_is_rejected_and_graph_unchanged() {
    let mut g = GovernanceHandler::new();
    assert!(g.delegate_vote(1, Some(2)).is_ok());
    assert_eq!(g.delegate_vote(2, Some(1)), Err(GovError::CycleWouldForm));
    assert_eq!(g.delegate_of(2), None);
    assert_eq!(g.delegate_of(1), Some(2));
    // Longer cycle: 2 -> 3, then 3 -> 1 would close 1 -> 2 -> 3 -> 1.
    assert!(g.delegate_vote(2, Some(3)).is_ok());
    assert_eq!(g.delegate_vote(3, Some(1)), Err(GovError::CycleWouldForm));
    assert_eq!(g.delegate_of(3), None);
}

#[test]
fn self_or_none_delegation_clears_edge() {
    let mut g = GovernanceHandler::new();
    assert!(g.delegate_vote(1, Some(2)).is_ok());
    assert!(g.delegate_vote(1, Some(1)).is_ok());
    assert_eq!(g.delegate_of(1), None);
    assert!(g.delegate_vote(1, Some(2)).is_ok());
    assert!(g.delegate_vote(1, None).is_ok());
    assert_eq!(g.delegate_of(1), None);
    // Once the opposite edge is cleared, the other direction is allowed.
    assert!(g.delegate_vote(2, Some(3)).is_ok());
    assert!(g.delegate_vote(2, None).is_ok());
    assert!(g.delegate_vote(3, Some(2)).is_ok());
}

#[test]
fn setting_same_delegate_twice_is_ok() {
    let mut g = GovernanceHandler::new();
    assert!(g.delegate_vote(1, Some(2)).is_ok());
    assert!(g.delegate_vote(1, Some(2)).is_ok());
    assert_eq!(g.delegate_of(1), Some(2));
}

#[test]
fn closed_proposal_rejects_cast_without_tally_change() {
    let mut g = GovernanceHandler::new();
    assert!(g.set_deposit(1, 100).is_ok());
    let p = closed_proposal(7);
    assert_eq!(g.cast_vote(1, &p, VoteChoice::Approve, 20), Err(GovError::VotingClosed));
    let t = g.outcome(7);
    assert_eq!((t.yes_weight, t.no_weight, t.abstain_weight), (0, 0, 0));
    assert!(g.get_vote_record(7, 1).is_none());
}

#[test]
fn out_of_window_cast_is_voting_closed() {
    let mut g = GovernanceHandler::new();
    assert!(g.set_deposit(1, 100).is_ok());
    let p = open_proposal(7);
    // Before the window opens, and at its exclusive end.
    assert_eq!(g.cast_vote(1, &p, VoteChoice::Approve, 9), Err(GovError::VotingClosed));
    assert_eq!(g.cast_vote(1, &p, VoteChoice::Approve, 100), Err(GovError::VotingClosed));
    assert!(g.cast_vote(1, &p, VoteChoice::Approve, 99).is_ok());
}

#[test]
fn delegated_voter_cannot_cast_directly() {
    // Voter 1 deposits 100 and delegates to 2 (deposit 50): 2 casts Approve
    // at the pooled weight 150. A direct cast from 1 is then rejected and the
    // tally does not move.
    let mut g = GovernanceHandler::new();
    assert!(g.set_deposit(1, 100).is_ok());
    assert!(g.set_deposit(2, 50).is_ok());
    assert!(g.delegate_vote(1, Some(2)).is_ok());
    let p = open_proposal(7);
    assert!(g.cast_vote(2, &p, VoteChoice::Approve, 20).is_ok());
    assert_eq!(g.outcome(7).yes_weight, 150);
    assert_eq!(g.cast_vote(1, &p, VoteChoice::Reject, 21), Err(GovError::DelegatedAway));
    let t = g.outcome(7);
    assert_eq!((t.yes_weight, t.no_weight, t.abstain_weight), (150, 0, 0));
    // After clearing the delegation, voter 1 still cannot cast: voter 2's
    // snapshot holds the pooled 150, so adding 100 more would push the
    // totals above the 150 of known deposits.
    assert!(g.delegate_vote(1, None).is_ok());
    assert_eq!(g.cast_vote(1, &p, VoteChoice::Reject, 22), Err(GovError::InvariantViolation));
    // Once voter 2 re-casts at their fresh weight (50), voter 1's direct
    // cast at 100 fits.
    assert!(g.cast_vote(2, &p, VoteChoice::Approve, 23).is_ok());
    assert!(g.cast_vote(1, &p, VoteChoice::Reject, 24).is_ok());
    let t2 = g.outcome(7);
    assert_eq!((t2.yes_weight, t2.no_weight, t2.abstain_weight), (50, 100, 0));
}

#[test]
fn closed_proposal_outranks_delegation_policy() {
    // The window check comes first: even a voter that has delegated away is
    // told VotingClosed on a closed proposal, and nothing changes.
    let mut g = GovernanceHandler::new();
    assert!(g.set_deposit(1, 100).is_ok());
    assert!(g.delegate_vote(1, Some(2)).is_ok());
    let p = closed_proposal(7);
    assert_eq!(g.cast_vote(1, &p, VoteChoice::Approve, 20), Err(GovError::VotingClosed));
    assert!(g.get_vote_record(7, 1).is_none());
}

#[test]
fn over_cap_chain_cast_is_chain_too_long() {
    // A caster whose own chain cannot resolve within the hop cap is told
    // ChainTooLong — resolution runs before the delegation policy — and the
    // tally does not move.
    let mut g = GovernanceHandler::new();
    for v in 0..17u64 {
        assert!(g.delegate_vote(v, Some(v + 1)).is_ok());
    }
    assert!(g.set_deposit(0, 100).is_ok());
    let p = open_proposal(7);
    assert_eq!(g.cast_vote(0, &p, VoteChoice::Approve, 20), Err(GovError::ChainTooLong));
    let t = g.outcome(7);
    assert_eq!((t.yes_weight, t.no_weight, t.abstain_weight), (0, 0, 0));
    assert!(g.get_vote_record(7, 0).is_none());
    // A voter one hop further down resolves, and is then caught by the
    // delegation policy instead.
    assert_eq!(g.cast_vote(1, &p, VoteChoice::Approve, 20), Err(GovError::DelegatedAway));
}

#[test]
fn chain_beyond_hop_cap_fails_resolution() {
    let mut g = GovernanceHandler::new();
    // 0 -> 1 -> ... -> 17: seventeen hops from voter 0, one over the cap.
    for v in 0..17u64 {
        assert!(g.delegate_vote(v, Some(v + 1)).is_ok());
    }
    assert_eq!(g.check_voting_power(0), Err(GovError::ChainTooLong));
    // One hop fewer resolves.
    assert_eq!(g.check_voting_power(1), Ok(0));
}

#[test]
fn deposit_total_overflow_is_rejected() {
    let mut g = GovernanceHandler::new();
    assert!(g.set_deposit(1, u64::MAX).is_ok());
    assert_eq!(g.set_deposit(2, 1), Err(GovError::InvariantViolation));
    assert_eq!(g.deposit_of(2), 0);
    assert_eq!(g.deposit_of(1), u64::MAX);
    // Lowering the first deposit makes room.
    assert!(g.set_deposit(1, 10).is_ok());
    assert!(g.set_deposit(2, 1).is_ok());
}

#[test]
fn tally_above_known_deposits_is_invariant_violation() {
    let mut g = GovernanceHandler::new();
    assert!(g.set_deposit(1, 100).is_ok());
    let p = open_proposal(7);
    assert!(g.cast_vote(1, &p, VoteChoice::Approve, 20).is_ok());
    // The custody collaborator withdraws most of voter 1's tokens; the old
    // snapshot stays in the tally.
    assert!(g.set_deposit(1, 0).is_ok());
    assert!(g.set_deposit(2, 5).is_ok());
    // Another cast would push the totals above the sum of known deposits.
    assert_eq!(g.cast_vote(2, &p, VoteChoice::Reject, 21), Err(GovError::InvariantViolation));
    let t = g.outcome(7);
    assert_eq!((t.yes_weight, t.no_weight, t.abstain_weight), (100, 0, 0));
    assert!(g.get_vote_record(7, 2).is_none());
}

#[test]
fn withdraw_zeroes_weight_but_keeps_record() {
    let mut g = GovernanceHandler::new();
    assert!(g.set_deposit(1, 100).is_ok());
    let p = open_proposal(7);
    assert!(g.cast_vote(1, &p, VoteChoice::Approve, 20).is_ok());
    assert!(g.withdraw_vote(1, &p, 25).is_ok());
    let t = g.outcome(7);
    assert_eq!((t.yes_weight, t.no_weight, t.abstain_weight), (0, 0, 0));
    let rec = g.get_vote_record(7, 1).unwrap();
    assert_eq!(rec.choice, VoteChoice::Abstain);
    assert_eq!(rec.weight_at_cast, 0);
    assert_eq!(rec.cast_at, 25);
}

#[test]
fn withdraw_on_closed_proposal_is_rejected() {
    let mut g = GovernanceHandler::new();
    let p = closed_proposal(7);
    assert_eq!(g.withdraw_vote(1, &p, 20), Err(GovError::VotingClosed));
}

#[test]
fn cast_snapshots_are_immutable_under_later_changes() {
    let mut g = GovernanceHandler::new();
    assert!(g.set_deposit(1, 100).is_ok());
    let p = open_proposal(7);
    assert!(g.cast_vote(1, &p, VoteChoice::Approve, 20).is_ok());
    // Later delegation and deposit changes never reweight the snapshot.
    assert!(g.delegate_vote(1, Some(2)).is_ok());
    assert!(g.set_deposit(1, 3).is_ok());
    let rec = g.get_vote_record(7, 1).unwrap();
    assert_eq!(rec.weight_at_cast, 100);
    assert_eq!(g.outcome(7).yes_weight, 100);
}

#[test]
fn proposals_are_tallied_independently() {
    let mut g = GovernanceHandler::new();
    assert!(g.set_deposit(1, 60).is_ok());
    let p7 = open_proposal(7);
    let p8 = open_proposal(8);
    assert!(g.cast_vote(1, &p7, VoteChoice::Approve, 20).is_ok());
    assert!(g.cast_vote(1, &p8, VoteChoice::Reject, 21).is_ok());
    assert_eq!(g.outcome(7).yes_weight, 60);
    assert_eq!(g.outcome(8).no_weight, 60);
    assert_eq!(g.outcome(7).no_weight, 0);
}
