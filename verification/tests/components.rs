use governance_core::delegation::DelegationGraph;
use governance_core::records::{VoteDelta, VoteRecordStore};
use governance_core::registry::VoterRegistry;
use governance_core::tally::TallyAggregator;
use governance_core::{GovError, ProposalInfo, ProposalStatus, VoteChoice};

fn voting(id: u64) -> ProposalInfo {
    ProposalInfo { proposal_id: id, status: ProposalStatus::Voting, start: 0, end: 1000 }
}

#[test]
fn get_chain_lists_delegators_in_order() {
    let mut g = DelegationGraph::new();
    assert!(g.set_delegate(1, Some(2)).is_ok());
    assert!(g.set_delegate(2, Some(3)).is_ok());
    assert_eq!(g.get_chain(1), Ok(vec![1, 2, 3]));
    assert_eq!(g.get_chain(3), Ok(vec![3]));
}

#[test]
fn get_chain_fails_past_hop_cap() {
    let mut g = DelegationGraph::new();
    for v in 0..20u64 {
        assert!(g.set_delegate(v, Some(v + 1)).is_ok());
    }
    assert_eq!(g.get_chain(0), Err(GovError::ChainTooLong));
    // Sixteen hops is still within the cap.
    assert_eq!(g.get_chain(4).map(|c| c.len()), Ok(17));
}

#[test]
fn registry_tracks_deposits_and_total() {
    let mut reg = VoterRegistry::new();
    assert!(reg.set_deposit(1, 40).is_ok());
    assert!(reg.set_deposit(2, 2).is_ok());
    assert!(reg.set_deposit(1, 10).is_ok());
    assert_eq!(reg.deposit_of(1), 10);
    assert_eq!(reg.deposit_of(2), 2);
    assert_eq!(reg.deposit_of(3), 0);
    assert_eq!(reg.total, 12);
}

#[test]
fn store_cast_reports_superseded_contribution() {
    let mut st = VoteRecordStore::new();
    let p = voting(3);
    let d1 = st.cast(&p, 9, VoteChoice::Approve, 70, 5).unwrap();
    assert_eq!(d1.prev, None);
    assert_eq!(d1.next_weight, 70);
    let d2 = st.cast(&p, 9, VoteChoice::Reject, 80, 6).unwrap();
    assert_eq!(d2.prev, Some((VoteChoice::Approve, 70)));
    assert_eq!(d2.next_choice, VoteChoice::Reject);
    let rec = st.get_record(3, 9).unwrap();
    assert_eq!(rec.weight_at_cast, 80);
    assert_eq!(rec.cast_at, 6);
}

#[test]
fn store_withdraw_is_an_abstain_cast_at_zero() {
    let mut st = VoteRecordStore::new();
    let p = voting(3);
    st.cast(&p, 9, VoteChoice::Approve, 70, 5).unwrap();
    let d = st.withdraw(&p, 9, 8).unwrap();
    assert_eq!(d.prev, Some((VoteChoice::Approve, 70)));
    assert_eq!(d.next_choice, VoteChoice::Abstain);
    assert_eq!(d.next_weight, 0);
    let rec = st.get_record(3, 9).unwrap();
    assert_eq!(rec.choice, VoteChoice::Abstain);
    assert_eq!(rec.weight_at_cast, 0);
}

#[test]
fn aggregator_applies_deltas_within_bounds() {
    let mut agg = TallyAggregator::new();
    let first = VoteDelta {
        proposal_id: 3,
        voter: 9,
        prev: None,
        next_choice: VoteChoice::Approve,
        next_weight: 70,
    };
    assert!(agg.apply(3, &first, 100).is_ok());
    assert_eq!(agg.outcome(3).yes_weight, 70);
    let change = VoteDelta {
        proposal_id: 3,
        voter: 9,
        prev: Some((VoteChoice::Approve, 70)),
        next_choice: VoteChoice::Reject,
        next_weight: 70,
    };
    assert!(agg.apply(3, &change, 100).is_ok());
    let t = agg.outcome(3);
    assert_eq!((t.yes_weight, t.no_weight, t.abstain_weight), (0, 70, 0));
}

#[test]
fn aggregator_refuses_totals_beyond_deposits() {
    let mut agg = TallyAggregator::new();
    let big = VoteDelta {
        proposal_id: 3,
        voter: 9,
        prev: None,
        next_choice: VoteChoice::Approve,
        next_weight: 70,
    };
    assert_eq!(agg.apply(3, &big, 69), Err(GovError::InvariantViolation));
    assert_eq!(agg.outcome(3).yes_weight, 0);
}

#[test]
fn aggregator_refuses_negative_components() {
    let mut agg = TallyAggregator::new();
    let underflow = VoteDelta {
        proposal_id: 3,
        voter: 9,
        prev: Some((VoteChoice::Approve, 10)),
        next_choice: VoteChoice::Approve,
        next_weight: 0,
    };
    // Nothing was ever added for this voter: applying the removal would
    // drive the yes total negative.
    assert_eq!(agg.apply(3, &underflow, 100), Err(GovError::InvariantViolation));
}
