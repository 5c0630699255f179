use sha2::{Digest, Sha256};
use venia_consensus::block::{Block, BlockHeader};
use venia_consensus::consensus_state::{
    timestamp_of_reading, ConsensusState, DEFAULT_BASE_REWARD, DEFAULT_REWARD_PER_TRANSACTION,
};
use venia_consensus::error::ConsensusError;
use venia_consensus::hashing::hash_block;
use venia_consensus::stake_manager::StakeManager;
use venia_consensus::validator_set::ValidatorSet;

fn block_at(height: u64, previous: &Block) -> Block {
    Block::new(BlockHeader::new(height, 1, hash_block(previous), b"A".to_vec()), Vec::new())
}

fn head_at(height: u64) -> Block {
    Block::new(BlockHeader::new(height, 0, Vec::new(), Vec::new()), Vec::new())
}

fn chain_at(height: u64, validators: &[(&str, u64, bool)]) -> ConsensusState {
    let mut set = ValidatorSet::new(StakeManager::new(0));
    for (id, stake, active) in validators {
        set.add_validator(id.to_string(), *stake).unwrap();
        set.update_validator_status(&id.to_string(), *active);
    }
    ConsensusState::new(set, head_at(height))
}

fn leader_by_hand(seed: &[u8], round: u64, stakes: &[(&str, u64)]) -> Option<String> {
    let total: u128 = stakes.iter().map(|s| s.1 as u128).sum();
    if total == 0 {
        return None;
    }
    let mut preimage = seed.to_vec();
    preimage.extend_from_slice(&round.to_le_bytes());
    let digest = Sha256::digest(&preimage);
    let mut head = [0u8; 16];
    head.copy_from_slice(&digest[..16]);
    let mut ticket = u128::from_le_bytes(head) % total;
    for (id, stake) in stakes {
        if ticket < *stake as u128 {
            return Some(id.to_string());
        }
        ticket -= *stake as u128;
    }
    None
}

#[test]
fn new_state_stands_on_the_initial_block() {
    let state = chain_at(5, &[]);
    assert_eq!(state.height(), 5);
    assert_eq!(state.round(), 0);
    assert_eq!(state.get_current_block(), &head_at(5));
    assert_eq!(state.get_latest_block_hash(), hash_block(&head_at(5)));
    assert_eq!(state.get_base_reward(), DEFAULT_BASE_REWARD);
    assert_eq!(state.get_reward_per_transaction(), DEFAULT_REWARD_PER_TRANSACTION);
    assert_eq!(state.current_leader(), None);
}

#[test]
fn block_of_the_next_height_is_accepted() {
    let mut state = chain_at(5, &[]);
    let next = block_at(6, &head_at(5));
    assert_eq!(state.update_state_with_block(next.clone()), Ok(()));
    assert_eq!(state.height(), 6);
    assert_eq!(state.round(), 1);
    assert_eq!(state.get_current_block(), &next);
    assert_eq!(state.get_latest_block_hash(), hash_block(&next));
    let after = block_at(7, &next);
    assert_eq!(state.update_state_with_block(after), Ok(()));
    assert_eq!(state.height(), 7);
    assert_eq!(state.round(), 2);
}

#[test]
fn duplicate_and_gap_are_stale() {
    let mut state = chain_at(5, &[]);
    let duplicate = block_at(5, &head_at(5));
    assert_eq!(state.update_state_with_block(duplicate), Err(ConsensusError::StaleBlock));
    let gap = block_at(7, &head_at(5));
    assert_eq!(state.update_state_with_block(gap), Err(ConsensusError::StaleBlock));
    let earlier = block_at(4, &head_at(5));
    assert_eq!(state.update_state_with_block(earlier), Err(ConsensusError::StaleBlock));
    assert_eq!(state.height(), 5);
    assert_eq!(state.round(), 0);
    assert_eq!(state.get_current_block(), &head_at(5));
}

#[test]
fn wrong_predecessor_is_a_fork_mismatch() {
    let mut state = chain_at(5, &[]);
    let other_branch = block_at(6, &head_at(4));
    assert_eq!(state.update_state_with_block(other_branch), Err(ConsensusError::ForkMismatch));
    let mut unlinked = block_at(6, &head_at(5));
    unlinked.header.previous_hash = Vec::new();
    assert_eq!(state.update_state_with_block(unlinked), Err(ConsensusError::ForkMismatch));
    assert_eq!(state.height(), 5);
    assert_eq!(state.round(), 0);
    // the height is judged before the link
    let both = block_at(9, &head_at(4));
    assert_eq!(state.update_state_with_block(both), Err(ConsensusError::StaleBlock));
}

#[test]
fn full_chain_accepts_no_block() {
    let mut state = chain_at(u64::MAX, &[]);
    let next = block_at(0, &head_at(u64::MAX));
    assert_eq!(state.update_state_with_block(next), Err(ConsensusError::StaleBlock));
    let same = block_at(u64::MAX, &head_at(u64::MAX));
    assert_eq!(state.update_state_with_block(same), Err(ConsensusError::StaleBlock));
}

#[test]
fn held_block_is_a_value_of_its_own() {
    let mut state = chain_at(5, &[]);
    let mut next = block_at(6, &head_at(5));
    assert_eq!(state.update_state_with_block(next.clone()), Ok(()));
    next.header.timestamp = 99;
    assert_eq!(state.get_current_block().header.timestamp, 1);
}

#[test]
fn leader_is_drawn_among_the_active_validators() {
    let validators = [("A", 100, true), ("B", 300, false), ("C", 50, true), ("D", 700, true)];
    let mut state = chain_at(0, &validators);
    let active = [("A", 100), ("C", 50), ("D", 700)];
    let mut seen = Vec::new();
    for round in 0..30u64 {
        let seed = hash_block(&head_at(0));
        assert_eq!(state.round(), round);
        let leader = state.current_leader();
        assert_eq!(leader, leader_by_hand(&seed, round, &active));
        assert_eq!(leader, state.current_leader());
        seen.push(leader.unwrap());
        state.advance_round();
    }
    assert_eq!(state.height(), 0);
    assert!(!seen.contains(&"B".to_string()));
    seen.sort();
    seen.dedup();
    assert!(seen.len() > 1);
}

#[test]
fn leader_is_reseeded_by_the_new_block() {
    let validators = [("A", 100, true), ("B", 300, true)];
    let mut state = chain_at(0, &validators);
    let next = block_at(1, &head_at(0));
    state.update_state_with_block(next.clone()).unwrap();
    assert_eq!(
        state.current_leader(),
        leader_by_hand(&hash_block(&next), 1, &[("A", 100), ("B", 300)])
    );
}

#[test]
fn leader_is_the_same_on_equal_states() {
    let validators = [("A", 100, true), ("B", 300, true), ("C", 20, true)];
    let first = chain_at(3, &validators);
    let second = chain_at(3, &validators);
    assert_eq!(first.current_leader(), second.current_leader());
}

#[test]
fn no_active_stake_means_no_leader() {
    let state = chain_at(0, &[("A", 100, false), ("B", 300, false)]);
    assert_eq!(state.current_leader(), None);
}

#[test]
fn roster_can_be_changed_through_the_state() {
    let mut state = chain_at(0, &[("A", 100, false)]);
    state.validators_mut().update_validator_status(&"A".to_string(), true);
    state.validators_mut().add_validator("B".to_string(), 5).unwrap();
    assert_eq!(state.validators().len(), 2);
    assert_eq!(state.current_leader(), Some("A".to_string()));
    state.set_reward_parameters(1, 0);
    assert_eq!(state.get_base_reward(), 1);
    assert_eq!(state.get_reward_per_transaction(), 0);
    assert_eq!(state.height(), 0);
}

#[test]
fn leader_does_not_depend_on_the_order_of_the_roster() {
    let mut first = chain_at(
        0,
        &[("A", 100, true), ("B", 300, true), ("C", 20, true), ("D", 5, false)],
    );
    let mut second = chain_at(
        0,
        &[("C", 20, true), ("D", 5, false), ("B", 300, true), ("A", 100, true)],
    );
    let seed = hash_block(&head_at(0));
    let mut seen = Vec::new();
    for round in 0..30u64 {
        let leader = first.current_leader();
        assert_eq!(leader, second.current_leader());
        assert_eq!(leader, leader_by_hand(&seed, round, &[("A", 100), ("B", 300), ("C", 20)]));
        seen.push(leader.unwrap());
        first.advance_round();
        second.advance_round();
    }
    seen.sort();
    seen.dedup();
    assert!(seen.len() > 1);
}

#[test]
fn clock_before_the_epoch_reads_as_zero() {
    assert_eq!(timestamp_of_reading(Some(1_700_000_000)), 1_700_000_000);
    assert_eq!(timestamp_of_reading(Some(0)), 0);
    assert_eq!(timestamp_of_reading(Some(u64::MAX)), u64::MAX);
    assert_eq!(timestamp_of_reading(None), 0);
}

#[test]
fn refused_block_leaves_the_time_of_the_last_update() {
    let mut state = chain_at(5, &[]);
    let before = state.last_updated();
    let stale = block_at(7, &head_at(5));
    assert_eq!(state.update_state_with_block(stale), Err(ConsensusError::StaleBlock));
    assert_eq!(state.last_updated(), before);
    let fork = block_at(6, &head_at(4));
    assert_eq!(state.update_state_with_block(fork), Err(ConsensusError::ForkMismatch));
    assert_eq!(state.last_updated(), before);
    assert_eq!(state.height(), 5);
}
