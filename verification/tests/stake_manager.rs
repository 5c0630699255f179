use venia_consensus::error::ConsensusError;
use venia_consensus::stake_manager::StakeManager;

fn s(text: &str) -> String {
    text.to_string()
}

fn two_stakers() -> StakeManager {
    let mut manager = StakeManager::new(3);
    manager.set_stake(s("A"), 100).unwrap();
    manager.set_stake(s("B"), 300).unwrap();
    manager
}

#[test]
fn set_stake_upserts_and_recomputes_the_total() {
    let mut manager = two_stakers();
    assert_eq!(manager.get_total_staked(), 400);
    assert_eq!(manager.get_stake(&s("A")), Some(100));
    assert_eq!(manager.get_stake(&s("C")), None);
    manager.set_stake(s("A"), 40).unwrap();
    assert_eq!(manager.get_stake(&s("A")), Some(40));
    assert_eq!(manager.get_total_staked(), 340);
    manager.set_stake(s("C"), 0).unwrap();
    assert_eq!(manager.get_stake(&s("C")), Some(0));
    assert_eq!(manager.get_total_staked(), 340);
}

#[test]
fn negative_stake_is_an_invalid_amount() {
    let mut manager = two_stakers();
    assert_eq!(manager.set_stake(s("A"), -1), Err(ConsensusError::InvalidAmount));
    assert_eq!(manager.set_stake(s("C"), i128::MIN), Err(ConsensusError::InvalidAmount));
    assert_eq!(manager.get_stake(&s("A")), Some(100));
    assert_eq!(manager.get_stake(&s("C")), None);
    assert_eq!(manager.get_total_staked(), 400);
}

#[test]
fn total_beyond_u64_is_an_invalid_amount() {
    let mut manager = two_stakers();
    assert_eq!(manager.set_stake(s("C"), u64::MAX as i128), Err(ConsensusError::InvalidAmount));
    assert_eq!(manager.set_stake(s("C"), i128::MAX), Err(ConsensusError::InvalidAmount));
    assert_eq!(
        manager.set_stake(s("C"), u64::MAX as i128 - 399),
        Err(ConsensusError::InvalidAmount),
    );
    assert_eq!(manager.get_total_staked(), 400);
    assert_eq!(manager.set_stake(s("C"), u64::MAX as i128 - 400), Ok(()));
    assert_eq!(manager.get_total_staked(), u64::MAX);
    // replacing a stake frees its share of the total
    assert_eq!(manager.set_stake(s("C"), 0), Ok(()));
    assert_eq!(manager.set_stake(s("A"), u64::MAX as i128 - 300), Ok(()));
    assert_eq!(manager.get_total_staked(), u64::MAX);
}

#[test]
fn delegation_moves_weight_and_keeps_the_total() {
    let mut manager = two_stakers();
    manager.delegate_stake(s("A"), s("B"), 40).unwrap();
    assert_eq!(manager.get_stake(&s("A")), Some(60));
    assert_eq!(manager.get_delegation(&s("B")), 40);
    assert_eq!(manager.get_weight(&s("A")), 60);
    assert_eq!(manager.get_weight(&s("B")), 340);
    assert_eq!(manager.get_total_staked(), 400);
    manager.undelegate_stake(s("A"), s("B"), 15).unwrap();
    assert_eq!(manager.get_stake(&s("A")), Some(75));
    assert_eq!(manager.get_delegation(&s("B")), 25);
    assert_eq!(manager.get_stake(&s("B")), Some(300));
    assert_eq!(manager.get_total_staked(), 400);
}

#[test]
fn delegation_to_a_new_address_creates_its_record() {
    let mut manager = two_stakers();
    manager.delegate_stake(s("A"), s("C"), 100).unwrap();
    assert_eq!(manager.get_stake(&s("C")), Some(0));
    assert_eq!(manager.get_delegation(&s("C")), 100);
    assert_eq!(manager.get_stake(&s("A")), Some(0));
    assert_eq!(manager.get_total_staked(), 400);
}

#[test]
fn delegation_to_oneself_keeps_the_weight() {
    let mut manager = two_stakers();
    manager.delegate_stake(s("A"), s("A"), 30).unwrap();
    assert_eq!(manager.get_stake(&s("A")), Some(70));
    assert_eq!(manager.get_delegation(&s("A")), 30);
    assert_eq!(manager.get_weight(&s("A")), 100);
    assert_eq!(manager.get_total_staked(), 400);
}

#[test]
fn delegation_beyond_the_stake_is_refused() {
    let mut manager = two_stakers();
    assert_eq!(manager.delegate_stake(s("A"), s("B"), 101), Err(ConsensusError::InsufficientStake));
    assert_eq!(manager.delegate_stake(s("C"), s("B"), 1), Err(ConsensusError::InsufficientStake));
    assert_eq!(
        manager.delegate_stake(s("A"), s("B"), i128::MAX),
        Err(ConsensusError::InsufficientStake),
    );
    assert_eq!(manager.delegate_stake(s("A"), s("B"), -1), Err(ConsensusError::InvalidAmount));
    assert_eq!(manager.get_stake(&s("A")), Some(100));
    assert_eq!(manager.get_delegation(&s("B")), 0);
    assert_eq!(manager.get_stake(&s("C")), None);
    // what has been delegated is no longer at hand
    manager.delegate_stake(s("A"), s("B"), 70).unwrap();
    assert_eq!(manager.delegate_stake(s("A"), s("B"), 31), Err(ConsensusError::InsufficientStake));
    assert_eq!(manager.delegate_stake(s("A"), s("B"), 30), Ok(()));
}

#[test]
fn undelegation_beyond_the_delegation_is_refused() {
    let mut manager = two_stakers();
    manager.delegate_stake(s("A"), s("B"), 40).unwrap();
    assert_eq!(
        manager.undelegate_stake(s("A"), s("B"), 41),
        Err(ConsensusError::InsufficientStake),
    );
    assert_eq!(manager.undelegate_stake(s("A"), s("C"), 1), Err(ConsensusError::InsufficientStake));
    assert_eq!(manager.undelegate_stake(s("A"), s("B"), -5), Err(ConsensusError::InvalidAmount));
    assert_eq!(manager.get_delegation(&s("B")), 40);
    assert_eq!(manager.get_stake(&s("A")), Some(60));
    assert_eq!(manager.undelegate_stake(s("A"), s("B"), 40), Ok(()));
    assert_eq!(manager.get_stake(&s("A")), Some(100));
}

#[test]
fn remove_stake_zeroes_the_stake() {
    let mut manager = two_stakers();
    manager.delegate_stake(s("B"), s("A"), 50).unwrap();
    manager.remove_stake(&s("A"));
    assert_eq!(manager.get_stake(&s("A")), Some(0));
    assert_eq!(manager.get_delegation(&s("A")), 50);
    assert_eq!(manager.get_total_staked(), 300);
    manager.remove_stake(&s("nobody"));
    assert_eq!(manager.get_stake(&s("nobody")), None);
    assert_eq!(manager.get_total_staked(), 300);
}

#[test]
fn snapshot_is_not_touched_by_later_changes() {
    let mut manager = two_stakers();
    let snapshot = manager.snapshot();
    manager.set_stake(s("A"), 1).unwrap();
    manager.set_stake(s("C"), 9).unwrap();
    assert_eq!(snapshot.get_stake(&s("A")), 100);
    assert_eq!(snapshot.get_stake(&s("B")), 300);
    assert_eq!(snapshot.get_stake(&s("C")), 0);
    assert_eq!(snapshot.get_total_stake(), 400);
    assert!(snapshot.contains(&s("A")));
    assert!(!snapshot.contains(&s("C")));
    assert_eq!(manager.get_total_staked(), 310);
}

#[test]
fn snapshot_stake_is_the_voting_weight() {
    let mut manager = two_stakers();
    manager.delegate_stake(s("A"), s("B"), 40).unwrap();
    let snapshot = manager.snapshot();
    assert_eq!(snapshot.get_stake(&s("A")), 60);
    assert_eq!(snapshot.get_stake(&s("B")), 340);
}

#[test]
fn rewards_are_credited_to_addresses_of_the_snapshot() {
    let mut manager = two_stakers();
    let snapshot = manager.snapshot();
    let rewards = vec![(s("A"), 7), (s("B"), 11), (s("A"), 5)];
    assert_eq!(manager.distribute_rewards(&snapshot, &rewards), Ok(()));
    assert_eq!(manager.get_rewards(&s("A")), 12);
    assert_eq!(manager.get_rewards(&s("B")), 11);
    assert_eq!(manager.get_stake(&s("A")), Some(100));
    assert_eq!(manager.get_total_staked(), 400);
    assert_eq!(manager.distribute_rewards(&snapshot, &Vec::new()), Ok(()));
    assert_eq!(manager.get_rewards(&s("A")), 12);
}

#[test]
fn rewards_are_credited_all_or_none() {
    let mut manager = two_stakers();
    let snapshot = manager.snapshot();
    manager.set_stake(s("C"), 5).unwrap();
    let unknown = vec![(s("A"), 7), (s("C"), 1), (s("B"), 2)];
    assert_eq!(
        manager.distribute_rewards(&snapshot, &unknown),
        Err(ConsensusError::NoStakeRegistered),
    );
    assert_eq!(manager.get_rewards(&s("A")), 0);
    assert_eq!(manager.get_rewards(&s("B")), 0);
    let overflow = vec![(s("B"), 1), (s("A"), u64::MAX), (s("A"), 1)];
    assert_eq!(
        manager.distribute_rewards(&snapshot, &overflow),
        Err(ConsensusError::InvalidAmount),
    );
    assert_eq!(manager.get_rewards(&s("A")), 0);
    assert_eq!(manager.get_rewards(&s("B")), 0);
    // the first refusal decides
    let both = vec![(s("A"), u64::MAX), (s("A"), 1), (s("C"), 1)];
    assert_eq!(manager.distribute_rewards(&snapshot, &both), Err(ConsensusError::InvalidAmount));
    let other = vec![(s("C"), 1), (s("A"), u64::MAX), (s("A"), 1)];
    assert_eq!(
        manager.distribute_rewards(&snapshot, &other),
        Err(ConsensusError::NoStakeRegistered),
    );
}

#[test]
fn rewards_ignore_the_live_table() {
    let mut manager = two_stakers();
    let snapshot = manager.snapshot();
    manager.remove_stake(&s("A"));
    assert_eq!(manager.distribute_rewards(&snapshot, &vec![(s("A"), 9)]), Ok(()));
    assert_eq!(manager.get_rewards(&s("A")), 9);
}

#[test]
fn reward_rate_is_updated() {
    let mut manager = StakeManager::new(3);
    assert_eq!(manager.get_reward_rate(), 3);
    manager.update_reward_rate(8);
    assert_eq!(manager.get_reward_rate(), 8);
}

#[test]
fn only_the_delegator_takes_its_delegation_back() {
    let mut manager = StakeManager::new(0);
    manager.set_stake(s("A"), 50).unwrap();
    manager.delegate_stake(s("A"), s("B"), 50).unwrap();
    assert_eq!(
        manager.undelegate_stake(s("C"), s("B"), 50),
        Err(ConsensusError::InsufficientStake),
    );
    assert_eq!(manager.undelegate_stake(s("C"), s("B"), 1), Err(ConsensusError::InsufficientStake));
    assert_eq!(manager.undelegate_stake(s("B"), s("A"), 1), Err(ConsensusError::InsufficientStake));
    assert_eq!(manager.get_stake(&s("A")), Some(0));
    assert_eq!(manager.get_stake(&s("C")), None);
    assert_eq!(manager.get_delegation(&s("B")), 50);
    assert_eq!(manager.get_delegated(&s("A"), &s("B")), 50);
    assert_eq!(manager.get_delegated(&s("C"), &s("B")), 0);
    assert_eq!(manager.undelegate_stake(s("C"), s("B"), 0), Ok(()));
    assert_eq!(manager.undelegate_stake(s("A"), s("B"), 50), Ok(()));
    assert_eq!(manager.get_stake(&s("A")), Some(50));
    assert_eq!(manager.get_delegation(&s("B")), 0);
    assert_eq!(manager.get_delegated(&s("A"), &s("B")), 0);
    assert_eq!(manager.get_total_staked(), 50);
}

#[test]
fn delegations_are_kept_by_pair() {
    let mut manager = two_stakers();
    manager.set_stake(s("C"), 10).unwrap();
    manager.delegate_stake(s("A"), s("B"), 30).unwrap();
    manager.delegate_stake(s("C"), s("B"), 10).unwrap();
    manager.delegate_stake(s("A"), s("C"), 20).unwrap();
    manager.delegate_stake(s("A"), s("B"), 5).unwrap();
    assert_eq!(manager.get_delegated(&s("A"), &s("B")), 35);
    assert_eq!(manager.get_delegated(&s("C"), &s("B")), 10);
    assert_eq!(manager.get_delegated(&s("A"), &s("C")), 20);
    assert_eq!(manager.get_delegated(&s("B"), &s("A")), 0);
    assert_eq!(manager.get_delegation(&s("B")), 45);
    assert_eq!(manager.get_delegation(&s("C")), 20);
    assert_eq!(
        manager.undelegate_stake(s("C"), s("B"), 11),
        Err(ConsensusError::InsufficientStake),
    );
    assert_eq!(
        manager.undelegate_stake(s("A"), s("B"), 36),
        Err(ConsensusError::InsufficientStake),
    );
    assert_eq!(manager.undelegate_stake(s("A"), s("B"), 35), Ok(()));
    assert_eq!(manager.undelegate_stake(s("C"), s("B"), 10), Ok(()));
    assert_eq!(manager.get_delegation(&s("B")), 0);
    assert_eq!(manager.get_stake(&s("A")), Some(80));
    assert_eq!(manager.get_stake(&s("C")), Some(10));
    assert_eq!(manager.get_total_staked(), 410);
    assert_eq!(manager.calculate_total_stake(), 410);
}

#[test]
fn delegating_and_taking_back_restores_the_records() {
    let mut manager = two_stakers();
    manager.delegate_stake(s("A"), s("B"), 40).unwrap();
    manager.undelegate_stake(s("A"), s("B"), 40).unwrap();
    assert_eq!(manager.get_stake(&s("A")), Some(100));
    assert_eq!(manager.get_stake(&s("B")), Some(300));
    assert_eq!(manager.get_delegation(&s("A")), 0);
    assert_eq!(manager.get_delegation(&s("B")), 0);
    assert_eq!(manager.get_total_staked(), 400);
    // what is staked anew cannot be taken for a delegation
    manager.set_stake(s("B"), 500).unwrap();
    assert_eq!(manager.undelegate_stake(s("A"), s("B"), 1), Err(ConsensusError::InsufficientStake));
}
