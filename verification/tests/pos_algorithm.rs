use ed25519_dalek::{Signer, SigningKey};
use venia_consensus::block::{Block, BlockHeader, Transaction};
use venia_consensus::block_proposal::BlockProposal;
use venia_consensus::consensus_state::ConsensusState;
use venia_consensus::error::ConsensusError;
use venia_consensus::governance::EffectiveParameters;
use venia_consensus::hashing::hash_block;
use venia_consensus::pos_algorithm::{PosAlgorithm, RoundOutcome};
use venia_consensus::stake_manager::StakeManager;
use venia_consensus::state::BlockchainState;
use venia_consensus::transaction_verifier::TransactionVerifier;
use venia_consensus::validator_set::{Validator, ValidatorSet};

fn round_key(seed: u8) -> SigningKey {
    SigningKey::from_bytes(&[seed; 32])
}

fn round_signed(key: &SigningKey, nonce: u64, value: u64, payload: &[u8]) -> Transaction {
    Transaction::new(
        key.verifying_key().to_bytes().to_vec(),
        nonce,
        value,
        payload.to_vec(),
        key.sign(payload).to_bytes().to_vec(),
    )
}

fn defaults() -> EffectiveParameters {
    EffectiveParameters {
        reward_rate: 0,
        minimum_stake_threshold: 1,
        max_validators: 100,
        base_reward: 10,
        reward_per_transaction: 2,
    }
}

fn origin() -> Block {
    Block::new(BlockHeader::new(0, 0, Vec::new(), Vec::new()), Vec::new())
}

fn accounts() -> BlockchainState {
    let mut state = BlockchainState::new();
    state.set_account(round_key(7).verifying_key().to_bytes().to_vec(), 0, 1_000);
    state.set_account(round_key(8).verifying_key().to_bytes().to_vec(), 0, 1_000);
    state
}

/// A node that validates as `local`, with the active validators given.
fn node(local: &str, active: &[(&str, u64)], rounds_per_epoch: u64) -> PosAlgorithm {
    let mut set = ValidatorSet::new(StakeManager::new(0));
    for (id, stake) in active {
        set.add_validator(id.to_string(), *stake).unwrap();
        set.update_validator_status(&id.to_string(), true);
    }
    PosAlgorithm::new(
        ConsensusState::new(set, origin()),
        TransactionVerifier::new(accounts()),
        local.to_string(),
        rounds_per_epoch,
    )
}

/// The block that the leader `id` would propose on top of `node`.
fn candidate_of(node: &PosAlgorithm, id: &str, pending: Vec<Transaction>, timestamp: u64) -> Block {
    let snapshot = node.consensus_state().validators().snapshot();
    let proposer = Validator {
        id: id.to_string(),
        stake: 0,
        is_active: true,
        last_active_epoch: 0,
    };
    BlockProposal::new(&snapshot, node.transaction_verifier(), node.consensus_state())
        .propose_block_at(pending, &proposer, timestamp)
        .unwrap()
}

fn finalized(outcome: RoundOutcome) -> (Block, bool) {
    match outcome {
        RoundOutcome::Finalized { block, proposed_locally } => (block, proposed_locally),
        other => panic!("not finalized: {:?}", other),
    }
}

#[test]
fn leader_proposes_and_finalizes() {
    let mut node = node("A", &[("A", 100)], 0);
    let pending = vec![
        round_signed(&round_key(7), 0, 10, b"a"),
        round_signed(&round_key(8), 0, 20, b"b"),
    ];
    let expected = candidate_of(&node, "A", pending.clone(), 50);
    let (block, proposed_locally) =
        finalized(node.run_consensus_round(pending.clone(), None, 50, &defaults()));
    assert!(proposed_locally);
    assert_eq!(block, expected);
    assert_eq!(block.transactions, pending);
    assert_eq!(node.consensus_state().height(), 1);
    assert_eq!(node.consensus_state().round(), 1);
    assert_eq!(node.consensus_state().get_current_block(), &block);
    assert_eq!(node.transaction_verifier().state().get_nonce(&pending[0].sender), 1);
    assert_eq!(node.transaction_verifier().state().get_balance(&pending[0].sender), 990);
    assert_eq!(node.transaction_verifier().state().get_nonce(&pending[1].sender), 1);
    assert_eq!(node.transaction_verifier().state().get_balance(&pending[1].sender), 980);
    assert_eq!(block.header.state_root, node.transaction_verifier().state().state_root());
    // 10 + 2 * 2 + 100 * 10
    assert_eq!(block.header.validator_reward, 1014);
    assert_eq!(
        node.consensus_state().validators().stake_manager().get_rewards(&"A".to_string()),
        1014
    );
}

#[test]
fn leader_leaves_the_next_nonce_for_the_next_block() {
    let mut node = node("A", &[("A", 100)], 0);
    let key = round_key(7);
    let pending = vec![round_signed(&key, 0, 10, b"n"), round_signed(&key, 1, 20, b"n + 1")];
    let (first, _) = finalized(node.run_consensus_round(pending.clone(), None, 1, &defaults()));
    assert_eq!(first.transactions, vec![pending[0].clone()]);
    let (second, _) = finalized(node.run_consensus_round(pending.clone(), None, 2, &defaults()));
    assert_eq!(second.transactions, vec![pending[1].clone()]);
    assert_eq!(node.transaction_verifier().state().get_nonce(&pending[0].sender), 2);
    assert_eq!(node.transaction_verifier().state().get_balance(&pending[0].sender), 970);
}

#[test]
fn leader_ignores_the_block_received() {
    let mut node = node("A", &[("A", 100)], 0);
    let foreign = candidate_of(&node, "A", Vec::new(), 1);
    let (block, proposed_locally) = finalized(
        node.run_consensus_round(Vec::new(), Some(foreign), 2, &defaults()),
    );
    assert!(proposed_locally);
    assert_eq!(block.header.timestamp, 2);
}

#[test]
fn follower_finalizes_the_block_of_the_leader() {
    let mut follower = node("B", &[("A", 100)], 0);
    let key = round_key(7);
    let pending = vec![round_signed(&key, 0, 10, b"a")];
    let block = candidate_of(&follower, "A", pending.clone(), 50);
    let (accepted, proposed_locally) =
        finalized(follower.run_consensus_round(Vec::new(), Some(block.clone()), 999, &defaults()));
    assert!(!proposed_locally);
    assert_eq!(accepted, block);
    assert_eq!(follower.consensus_state().height(), 1);
    assert_eq!(follower.consensus_state().round(), 1);
    assert_eq!(follower.transaction_verifier().state().get_nonce(&pending[0].sender), 1);
    assert_eq!(follower.transaction_verifier().state().get_balance(&pending[0].sender), 990);
    assert_eq!(
        follower.consensus_state().validators().stake_manager().get_rewards(&"A".to_string()),
        block.header.validator_reward
    );
}

#[test]
fn leader_and_follower_agree() {
    let mut leader = node("A", &[("A", 100)], 0);
    let mut follower = node("B", &[("A", 100)], 0);
    let key = round_key(7);
    for round in 0..3u64 {
        let pending = vec![round_signed(&key, round, 5, b"pay")];
        let (block, _) = finalized(leader.run_consensus_round(pending, None, round, &defaults()));
        let (same, _) = finalized(
            follower.run_consensus_round(Vec::new(), Some(block.clone()), 0, &defaults()),
        );
        assert_eq!(block, same);
        assert_eq!(block.header.height, round + 1);
    }
    assert_eq!(leader.consensus_state().height(), 3);
    assert_eq!(
        leader.consensus_state().get_latest_block_hash(),
        follower.consensus_state().get_latest_block_hash()
    );
    assert_eq!(
        leader.transaction_verifier().state().state_root(),
        follower.transaction_verifier().state().state_root()
    );
}

#[test]
fn follower_without_a_block_times_out() {
    let mut follower = node("B", &[("A", 100)], 0);
    let key = round_key(7);
    let outcome = follower.run_consensus_round(
        vec![round_signed(&key, 0, 10, b"a")],
        None,
        1,
        &defaults(),
    );
    assert!(matches!(outcome, RoundOutcome::TimedOut));
    assert_eq!(follower.consensus_state().height(), 0);
    assert_eq!(follower.consensus_state().round(), 1);
    assert_eq!(follower.consensus_state().get_current_block(), &origin());
    assert_eq!(
        follower.transaction_verifier().state().get_nonce(&key.verifying_key().to_bytes().to_vec()),
        0,
    );
}

#[test]
fn block_of_another_proposer_is_discarded() {
    let mut follower = node("B", &[("A", 100), ("C", 1)], 0);
    let leader = follower.consensus_state().current_leader().unwrap();
    let other = if leader == "A" { "C" } else { "A" };
    let block = candidate_of(&follower, other, Vec::new(), 1);
    assert!(!follower.validate_block(&block));
    let outcome = follower.run_consensus_round(Vec::new(), Some(block), 1, &defaults());
    assert!(matches!(outcome, RoundOutcome::TimedOut));
    assert_eq!(follower.consensus_state().height(), 0);
    assert_eq!(follower.consensus_state().round(), 1);
    let good = candidate_of(
        &follower,
        &follower.consensus_state().current_leader().unwrap(),
        Vec::new(),
        1,
    );
    assert!(follower.validate_block(&good));
}

#[test]
fn block_with_a_bad_transaction_is_discarded() {
    let mut follower = node("B", &[("A", 100)], 0);
    let key = round_key(7);
    let mut block = candidate_of(&follower, "A", vec![round_signed(&key, 0, 10, b"a")], 1);
    block.transactions.push(round_signed(&key, 5, 10, b"gap"));
    assert!(!follower.validate_block(&block));
    let outcome = follower.run_consensus_round(Vec::new(), Some(block), 1, &defaults());
    assert!(matches!(outcome, RoundOutcome::TimedOut));
    assert_eq!(follower.transaction_verifier().state().get_balance(&key.verifying_key().to_bytes().to_vec()), 1_000);
    let mut replayed = candidate_of(&follower, "A", vec![round_signed(&key, 0, 10, b"a")], 1);
    replayed.transactions.push(round_signed(&key, 0, 10, b"a"));
    assert!(!follower.validate_block(&replayed));
    let mut chained = candidate_of(&follower, "A", vec![round_signed(&key, 0, 10, b"a")], 1);
    chained.transactions.push(round_signed(&key, 1, 10, b"b"));
    assert!(!follower.validate_block(&chained));
    let two = vec![round_signed(&key, 0, 10, b"a"), round_signed(&round_key(8), 0, 1, b"c")];
    assert!(follower.validate_block(&candidate_of(&follower, "A", two, 1)));
}

#[test]
fn block_off_the_head_is_discarded() {
    let mut follower = node("B", &[("A", 100)], 0);
    let mut unlinked = candidate_of(&follower, "A", Vec::new(), 1);
    unlinked.header.previous_hash = hash_block(&unlinked);
    assert!(!follower.validate_block(&unlinked));
    assert!(matches!(follower.run_consensus_round(Vec::new(), Some(unlinked), 1, &defaults()), RoundOutcome::TimedOut));
    let mut gap = candidate_of(&follower, "A", Vec::new(), 1);
    gap.header.height = 2;
    assert!(follower.validate_block(&gap));
    assert!(matches!(follower.run_consensus_round(Vec::new(), Some(gap), 1, &defaults()), RoundOutcome::TimedOut));
    assert_eq!(follower.consensus_state().height(), 0);
    assert_eq!(follower.consensus_state().round(), 2);
}

#[test]
fn finalize_refuses_a_stale_block() {
    let mut follower = node("B", &[("A", 100)], 0);
    let snapshot = follower.consensus_state().validators().snapshot();
    let mut duplicate = candidate_of(&follower, "A", Vec::new(), 1);
    duplicate.header.height = 0;
    assert!(follower.validate_block(&duplicate));
    assert_eq!(follower.finalize_block(duplicate, &snapshot), Err(ConsensusError::StaleBlock));
    assert_eq!(follower.consensus_state().round(), 0);
    let good = candidate_of(&follower, "A", Vec::new(), 1);
    assert!(follower.validate_block(&good));
    assert_eq!(follower.finalize_block(good, &snapshot), Ok(()));
    assert_eq!(follower.consensus_state().height(), 1);
}

#[test]
fn leader_without_stake_in_the_network_times_out() {
    let mut set = ValidatorSet::new(StakeManager::new(0));
    set.add_validator("A".to_string(), 100).unwrap();
    set.update_validator_status(&"A".to_string(), true);
    set.delegate_stake("A".to_string(), "B".to_string(), 100).unwrap();
    // "A" is active but holds no weight: nobody leads
    let mut node = PosAlgorithm::new(
        ConsensusState::new(set, origin()),
        TransactionVerifier::new(accounts()),
        "A".to_string(),
        0,
    );
    assert!(matches!(node.run_consensus_round(Vec::new(), None, 1, &defaults()), RoundOutcome::TimedOut));
    assert_eq!(node.consensus_state().round(), 1);
}

#[test]
fn roster_rotates_at_the_epoch_boundary() {
    let mut node = node("A", &[("A", 100)], 2);
    node.select_validators(&defaults());
    let roster = node.consensus_state().validators().get_active_validators();
    assert_eq!(roster.len(), 1);
    assert_eq!(roster[0].last_active_epoch, 0);
    let mut later = self::node("A", &[("A", 100), ("B", 50)], 2);
    for round in 0..5u64 {
        assert_eq!(later.consensus_state().round(), round);
        let _ = later.run_consensus_round(Vec::new(), None, round, &defaults());
        let epoch = round / 2;
        for validator in later.consensus_state().validators().get_active_validators() {
            assert_eq!(validator.last_active_epoch, epoch);
        }
        assert_eq!(later.consensus_state().validators().epoch(), epoch);
    }
}

#[test]
fn rotation_can_leave_validators_out() {
    let mut set = ValidatorSet::new(StakeManager::new(0));
    for (id, stake) in [("A", 100u64), ("B", 100), ("C", 100)] {
        set.add_validator(id.to_string(), stake).unwrap();
        set.update_validator_status(&id.to_string(), true);
    }
    let mut node = PosAlgorithm::new(
        ConsensusState::new(set, origin()),
        TransactionVerifier::new(accounts()),
        "Z".to_string(),
        1,
    );
    node.select_validators(&EffectiveParameters { max_validators: 1, ..defaults() });
    let active = node.consensus_state().validators().get_active_validators();
    assert_eq!(active.len(), 1);
    assert_eq!(node.consensus_state().current_leader(), Some(active[0].id.clone()));
    assert_eq!(node.consensus_state().validators().len(), 3);
}

#[test]
fn reward_is_computed_from_the_snapshot() {
    let mut follower = node("B", &[("A", 100), ("B", 300)], 0);
    for id in ["A", "B"] {
        let inactive = id != "A";
        if inactive {
            follower.consensus_state_mut().validators_mut().update_validator_status(
                &id.to_string(),
                false,
            );
        }
    }
    let mut block = candidate_of(&follower, "A", Vec::new(), 1);
    // 10 + 0 + floor(100 * 100 / 400) * 10
    assert_eq!(block.header.validator_reward, 260);
    block.header.validator_reward = 1_000_000;
    let (accepted, _) = finalized(
        follower.run_consensus_round(Vec::new(), Some(block.clone()), 1, &defaults()),
    );
    assert_eq!(accepted, block);
    assert_eq!(
        follower.consensus_state().validators().stake_manager().get_rewards(&"A".to_string()),
        260,
    );
    assert_eq!(
        follower.consensus_state().validators().stake_manager().get_rewards(&"B".to_string()),
        0,
    );
    assert_eq!(follower.consensus_state().validators().stake_manager().get_total_staked(), 400);
}

#[test]
fn parameters_take_effect_at_the_epoch_boundary() {
    let mut node = node("A", &[("A", 100)], 3);
    let changed = EffectiveParameters {
        reward_rate: 9,
        minimum_stake_threshold: 5,
        max_validators: 4,
        base_reward: 1,
        reward_per_transaction: 0,
    };
    // round 0 opens an epoch
    let (first, _) = finalized(node.run_consensus_round(Vec::new(), None, 1, &defaults()));
    assert_eq!(first.header.validator_reward, 10 + 100 * 10);
    // rounds 1 and 2 do not: what is offered is not yet in force
    let (second, _) = finalized(node.run_consensus_round(Vec::new(), None, 2, &changed));
    assert_eq!(second.header.validator_reward, 10 + 100 * 10);
    assert_eq!(node.consensus_state().get_base_reward(), 10);
    assert_eq!(node.consensus_state().validators().minimum_stake(), 1);
    let _ = node.run_consensus_round(Vec::new(), None, 3, &changed);
    assert_eq!(node.consensus_state().get_base_reward(), 10);
    // round 3 opens the next epoch
    let (fourth, _) = finalized(node.run_consensus_round(Vec::new(), None, 4, &changed));
    assert_eq!(fourth.header.validator_reward, 1 + 100);
    assert_eq!(node.consensus_state().get_base_reward(), 1);
    assert_eq!(node.consensus_state().get_reward_per_transaction(), 0);
    assert_eq!(node.consensus_state().validators().minimum_stake(), 5);
    assert_eq!(node.consensus_state().validators().max_validators(), 4);
    assert_eq!(node.consensus_state().validators().stake_manager().get_reward_rate(), 9);
}

#[test]
fn raised_minimum_leaves_small_validators_out() {
    let mut node = node("Z", &[("A", 100), ("B", 3)], 1);
    let strict = EffectiveParameters { minimum_stake_threshold: 50, ..defaults() };
    node.select_validators(&strict);
    let active = node.consensus_state().validators().get_active_validators();
    assert_eq!(active.len(), 1);
    assert_eq!(active[0].id, "A");
    assert_eq!(node.consensus_state().validators().len(), 2);
}
