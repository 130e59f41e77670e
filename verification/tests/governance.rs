use aether::governance::{GovernanceState, Proposal, ProposalStatus, ProposalType};
use aether::keymap::KeyMap;
use aether::types::{Address, H256};

fn addr(n: u8) -> Address {
    Address::from_bytes([n; 20])
}

fn param(name: &str, value: u128) -> ProposalType {
    ProposalType::ParameterChange { parameter: name.to_string(), value }
}

#[test]
fn test_propose() {
    let mut state = GovernanceState::new();
    state.update_voting_power(addr(1), 2_000_000_000_000);
    let proposal_id = H256::zero();
    state
        .propose(proposal_id, addr(1), param("fee_rate", 100), "Change fee rate to 1%".to_string(), 1000)
        .unwrap();
    let proposal = state.get_proposal(&proposal_id).unwrap();
    assert_eq!(proposal.status, ProposalStatus::Active);
}

#[test]
fn test_vote() {
    let mut state = GovernanceState::new();
    state.update_voting_power(addr(1), 2_000_000_000_000);
    state.update_voting_power(addr(2), 1_000_000_000_000);
    let proposal_id = H256::zero();
    state.propose(proposal_id, addr(1), param("test", 1), "Test".to_string(), 1000).unwrap();
    state.vote(proposal_id, addr(2), true, 1500).unwrap();
    let proposal = state.get_proposal(&proposal_id).unwrap();
    assert_eq!(proposal.votes_for, 1_000_000_000_000);
}

#[test]
fn test_finalize_and_execute() {
    let mut state = GovernanceState::new();
    state.update_voting_power(addr(1), 5_000_000_000_000);
    state.update_voting_power(addr(2), 5_000_000_000_000);
    let proposal_id = H256::zero();
    state.propose(proposal_id, addr(1), param("test", 1), "Test".to_string(), 1000).unwrap();
    state.vote(proposal_id, addr(1), true, 1500).unwrap();
    state.vote(proposal_id, addr(2), true, 1500).unwrap();
    state.finalize(proposal_id, 102_000).unwrap();
    let proposal = state.get_proposal(&proposal_id).unwrap();
    assert_eq!(proposal.status, ProposalStatus::Passed);
    let proposal_type = state.execute(proposal_id, 200_000).unwrap();
    assert!(matches!(proposal_type, ProposalType::ParameterChange { .. }));
}

#[test]
fn test_delegation() {
    let mut state = GovernanceState::new();
    state.update_voting_power(addr(1), 3_000_000_000_000);
    state.update_voting_power(addr(2), 1_000_000_000_000);
    state.delegate(addr(1), addr(2)).unwrap();
    assert_eq!(state.effective_voting_power(&addr(1)), 0);
    assert_eq!(state.effective_voting_power(&addr(2)), 4_000_000_000_000);
}

#[test]
fn test_undelegate() {
    let mut state = GovernanceState::new();
    state.update_voting_power(addr(1), 3_000_000_000_000);
    state.update_voting_power(addr(2), 1_000_000_000_000);
    state.delegate(addr(1), addr(2)).unwrap();
    state.undelegate(addr(1)).unwrap();
    assert_eq!(state.effective_voting_power(&addr(1)), 3_000_000_000_000);
    assert_eq!(state.effective_voting_power(&addr(2)), 1_000_000_000_000);
}

#[test]
fn test_no_delegation_chains() {
    let mut state = GovernanceState::new();
    state.update_voting_power(addr(1), 1_000_000_000_000);
    state.update_voting_power(addr(2), 1_000_000_000_000);
    state.update_voting_power(addr(3), 1_000_000_000_000);
    state.delegate(addr(1), addr(2)).unwrap();
    let result = state.delegate(addr(2), addr(3));
    assert!(result.is_ok());
}

#[test]
fn test_conviction_voting() {
    let mut state = GovernanceState::new();
    state.update_voting_power(addr(1), 5_000_000_000_000);
    state.update_voting_power(addr(2), 5_000_000_000_000);
    let pid = H256::zero();
    state.propose(pid, addr(1), param("test", 1), "Test conviction".to_string(), 1000).unwrap();
    let lock_slots = state.voting_period_slots * 2;
    state.vote_with_conviction(pid, addr(1), true, lock_slots, 1500).unwrap();
    let proposal = state.get_proposal(&pid).unwrap();
    assert_eq!(proposal.votes_for, 15_000_000_000_000);
}

#[test]
fn test_conviction_caps_at_6x() {
    let state = GovernanceState::new();
    let lock_slots = state.voting_period_slots * 100;
    assert_eq!(state.conviction_multiplier(lock_slots), 6);
}

#[test]
fn test_delegation_affects_voting() {
    let mut state = GovernanceState::new();
    state.update_voting_power(addr(1), 3_000_000_000_000);
    state.update_voting_power(addr(2), 1_000_000_000_000);
    state.delegate(addr(1), addr(2)).unwrap();
    let pid = H256::zero();
    state.propose(pid, addr(2), param("test", 1), "Test".to_string(), 1000).unwrap();
    state.vote(pid, addr(2), true, 1500).unwrap();
    let proposal = state.get_proposal(&pid).unwrap();
    assert_eq!(proposal.votes_for, 4_000_000_000_000);
}

#[test]
fn test_treasury() {
    let mut state = GovernanceState::new();
    state.deposit_treasury(1_000_000);
    assert_eq!(state.treasury_balance, 1_000_000);
    state.execute_treasury_allocation(&addr(1), 500_000).unwrap();
    assert_eq!(state.treasury_balance, 500_000);
    let result = state.execute_treasury_allocation(&addr(2), 999_999);
    assert!(result.is_err());
}

#[test]
fn test_zero_voting_power_cannot_finalize() {
    let mut state = GovernanceState::new();
    let proposal_id = H256::zero();
    let proposal = Proposal {
        proposal_id,
        proposer: addr(1),
        proposal_type: param("test", 1),
        description: "adversarial test".to_string(),
        votes_for: 0,
        votes_against: 0,
        status: ProposalStatus::Active,
        start_slot: 1000,
        end_slot: 1000 + state.voting_period_slots,
        execution_slot: None,
        voters: KeyMap::new(),
    };
    state.proposals.insert(proposal_id, proposal);
    let after_voting = 1000 + state.voting_period_slots + 1;
    let result = state.finalize(proposal_id, after_voting);
    assert!(result.is_err(), "finalize should fail when quorum is zero");
    assert!(result.unwrap_err().contains("quorum is zero"), "error should mention zero quorum");
}

#[test]
fn test_voting_power_update_saturates() {
    let mut state = GovernanceState::new();
    state.update_voting_power(addr(1), 100);
    assert_eq!(state.total_voting_power, 100);
    state.update_voting_power(addr(1), 0);
    assert_eq!(state.total_voting_power, 0);
    state.voting_power.insert(addr(2), 1_000_000);
    state.total_voting_power = 10;
    state.update_voting_power(addr(2), 500);
    assert!(state.total_voting_power >= 500, "total_voting_power should not underflow; got {}", state.total_voting_power);
}

#[test]
fn double_vote_rejected() {
    let mut state = GovernanceState::new();
    state.update_voting_power(addr(1), 2_000_000_000_000);
    let pid = H256::zero();
    state.propose(pid, addr(1), param("x", 1), "x".to_string(), 1000).unwrap();
    state.vote(pid, addr(1), false, 1100).unwrap();
    assert!(state.vote(pid, addr(1), false, 1200).is_err());
    assert_eq!(state.get_proposal(&pid).unwrap().votes_against, 2_000_000_000_000);
}

#[test]
fn proposer_below_minimum_stake_rejected() {
    let mut state = GovernanceState::new();
    state.update_voting_power(addr(1), 1);
    assert!(state.propose(H256::zero(), addr(1), param("x", 1), "x".to_string(), 1000).is_err());
    assert!(state.get_proposal(&H256::zero()).is_none());
}

#[test]
fn conviction_multiplier_steps() {
    let state = GovernanceState::new();
    assert_eq!(state.conviction_multiplier(0), 1);
    assert_eq!(state.conviction_multiplier(state.voting_period_slots), 2);
    assert_eq!(state.conviction_multiplier(state.voting_period_slots * 3), 4);
}

#[test]
fn delegation_chain_loses_no_power() {
    let mut state = GovernanceState::new();
    for n in 1..=3 {
        state.update_voting_power(addr(n), 1_000_000_000_000);
    }
    state.delegate(addr(1), addr(2)).unwrap();
    state.delegate(addr(2), addr(3)).unwrap();
    assert_eq!(state.effective_voting_power(&addr(1)), 0);
    assert_eq!(state.effective_voting_power(&addr(2)), 1_000_000_000_000);
    assert_eq!(state.effective_voting_power(&addr(3)), 2_000_000_000_000);
    let total: u128 = (1..=3).map(|n| state.effective_voting_power(&addr(n))).sum();
    assert_eq!(total, 3_000_000_000_000);
}
