use sha2::{Digest, Sha256};
use venia_consensus::error::ConsensusError;
use venia_consensus::selection::{draw, pick, pool_stake};
use venia_consensus::sorting::{bytes_less, id_less, insert_sorted, sort_by_id};
use venia_consensus::stake_manager::StakeManager;
use venia_consensus::validator_set::{
    contains_id, Validator, ValidatorSet, DEFAULT_MAX_VALIDATORS, DEFAULT_MINIMUM_STAKE,
};

fn name(text: &str) -> String {
    text.to_string()
}

fn member(id: &str, stake: u64) -> Validator {
    Validator { id: name(id), stake, is_active: false, last_active_epoch: 0 }
}

fn roster(stakes: &[(&str, u64)]) -> ValidatorSet {
    let mut set = ValidatorSet::new(StakeManager::new(0));
    for (id, stake) in stakes {
        set.add_validator(name(id), *stake).unwrap();
    }
    set
}

fn ids(validators: &[Validator]) -> Vec<String> {
    validators.iter().map(|v| v.id.clone()).collect()
}

/// The draw, computed here from the digest.
fn expected_draw(seed: &[u8], stakes: &[u64], counter: u64) -> Option<usize> {
    let total: u128 = stakes.iter().map(|s| *s as u128).sum();
    if total == 0 {
        return None;
    }
    let mut preimage = seed.to_vec();
    preimage.extend_from_slice(&counter.to_le_bytes());
    let digest = Sha256::digest(&preimage);
    let mut head = [0u8; 16];
    head.copy_from_slice(&digest[..16]);
    let mut ticket = u128::from_le_bytes(head) % total;
    for (i, stake) in stakes.iter().enumerate() {
        if ticket < *stake as u128 {
            return Some(i);
        }
        ticket -= *stake as u128;
    }
    unreachable!()
}

#[test]
fn new_set_has_the_default_parameters() {
    let set = ValidatorSet::new(StakeManager::new(0));
    assert_eq!(set.len(), 0);
    assert_eq!(set.minimum_stake(), DEFAULT_MINIMUM_STAKE);
    assert_eq!(set.max_validators(), DEFAULT_MAX_VALIDATORS);
    assert_eq!(set.epoch(), 0);
    assert!(set.get_active_validators().is_empty());
}

#[test]
fn added_validator_is_inactive_and_staked() {
    let set = roster(&[("A", 100), ("B", 300)]);
    assert_eq!(set.len(), 2);
    assert_eq!(set.get_eligible_validators(), vec![member("A", 100), member("B", 300)]);
    assert!(set.get_active_validators().is_empty());
    assert_eq!(set.stake_manager().get_stake(&name("A")), Some(100));
    assert_eq!(set.stake_manager().get_total_staked(), 400);
}

#[test]
fn adding_below_the_minimum_is_refused() {
    let mut set = roster(&[("A", 100)]);
    set.apply_parameters(50, 10);
    assert_eq!(set.add_validator(name("B"), 49), Err(ConsensusError::InsufficientStake));
    assert_eq!(set.len(), 1);
    assert_eq!(set.stake_manager().get_stake(&name("B")), None);
    assert_eq!(set.add_validator(name("B"), 50), Ok(()));
    let mut fresh = ValidatorSet::new(StakeManager::new(0));
    assert_eq!(fresh.add_validator(name("Z"), 0), Err(ConsensusError::InsufficientStake));
    assert_eq!(fresh.add_validator(name("Z"), 1), Ok(()));
}

#[test]
fn adding_beyond_the_total_is_refused() {
    let mut set = roster(&[("A", 100)]);
    assert_eq!(set.add_validator(name("B"), u64::MAX), Err(ConsensusError::InvalidAmount));
    assert_eq!(set.len(), 1);
    assert_eq!(set.stake_manager().get_total_staked(), 100);
}

#[test]
fn adding_again_replaces_the_validator() {
    let mut set = roster(&[("A", 100), ("B", 300)]);
    set.update_validator_status(&name("A"), true);
    set.add_validator(name("A"), 150).unwrap();
    assert_eq!(set.len(), 2);
    assert_eq!(set.get_eligible_validators(), vec![member("A", 150), member("B", 300)]);
    assert!(set.get_active_validators().is_empty());
    assert_eq!(set.stake_manager().get_total_staked(), 450);
}

#[test]
fn status_marks_the_active_validators() {
    let mut set = roster(&[("A", 100), ("B", 300), ("C", 5)]);
    set.update_validator_status(&name("C"), true);
    set.update_validator_status(&name("A"), true);
    set.update_validator_status(&name("nobody"), true);
    assert_eq!(ids(&set.get_active_validators()), vec![name("A"), name("C")]);
    set.update_validator_status(&name("A"), false);
    assert_eq!(ids(&set.get_active_validators()), vec![name("C")]);
    assert_eq!(set.stake_manager().get_stake(&name("A")), Some(100));
}

#[test]
fn removal_evicts_and_zeroes_the_stake() {
    let mut set = roster(&[("A", 100), ("B", 300), ("C", 5)]);
    set.remove_validator(&name("B"));
    assert_eq!(ids(&set.get_eligible_validators()), vec![name("A"), name("C")]);
    assert_eq!(set.stake_manager().get_stake(&name("B")), Some(0));
    assert_eq!(set.stake_manager().get_total_staked(), 105);
    set.remove_validator(&name("B"));
    assert_eq!(set.len(), 2);
}

#[test]
fn delegation_is_mirrored_in_the_roster() {
    let mut set = roster(&[("A", 100), ("B", 300)]);
    set.delegate_stake(name("A"), name("B"), 40).unwrap();
    assert_eq!(set.get_eligible_validators(), vec![member("A", 60), member("B", 340)]);
    set.undelegate_stake(name("A"), name("B"), 40).unwrap();
    assert_eq!(set.get_eligible_validators(), vec![member("A", 100), member("B", 300)]);
    assert_eq!(
        set.delegate_stake(name("A"), name("B"), 101),
        Err(ConsensusError::InsufficientStake),
    );
    assert_eq!(set.get_eligible_validators(), vec![member("A", 100), member("B", 300)]);
}

#[test]
fn pick_finds_the_share_of_the_ticket() {
    let pool = vec![member("A", 10), member("B", 0), member("C", 20), member("D", 30)];
    assert_eq!(pool_stake(&pool), 60);
    assert_eq!(pick(&pool, 0), 0);
    assert_eq!(pick(&pool, 9), 0);
    assert_eq!(pick(&pool, 10), 2);
    assert_eq!(pick(&pool, 29), 2);
    assert_eq!(pick(&pool, 30), 3);
    assert_eq!(pick(&pool, 59), 3);
}

#[test]
fn draw_follows_the_digest() {
    let pool = vec![member("A", 10), member("B", 20), member("C", 30), member("D", 40)];
    let stakes = [10u64, 20, 30, 40];
    let mut seen = [0usize; 4];
    for counter in 0..64u64 {
        let drawn = draw(&b"seed".to_vec(), &pool, counter);
        assert_eq!(drawn, expected_draw(b"seed", &stakes, counter));
        seen[drawn.unwrap()] += 1;
    }
    assert!(seen.iter().all(|n| *n > 0));
    assert_eq!(draw(&b"seed".to_vec(), &Vec::new(), 0), None);
    assert_eq!(draw(&b"seed".to_vec(), &vec![member("A", 0)], 0), None);
    assert_eq!(draw(&b"seed".to_vec(), &vec![member("A", 0), member("B", 1)], 5), Some(1));
}

#[test]
fn pool_stake_does_not_overflow() {
    let pool = vec![member("A", u64::MAX), member("B", u64::MAX), member("C", u64::MAX)];
    assert_eq!(pool_stake(&pool), 3 * (u64::MAX as u128));
    assert_eq!(draw(&Vec::new(), &pool, 1), expected_draw(b"", &[u64::MAX; 3], 1));
}

#[test]
fn selection_is_deterministic() {
    let stakes = [("A", 100), ("B", 300), ("C", 50), ("D", 700), ("E", 1)];
    let mut first = roster(&stakes);
    let mut second = roster(&stakes);
    first.apply_parameters(1, 3);
    second.apply_parameters(1, 3);
    first.begin_epoch(4, b"block hash".to_vec());
    second.begin_epoch(4, b"block hash".to_vec());
    let a = first.select_validators_for_next_epoch();
    let b = second.select_validators_for_next_epoch();
    assert_eq!(a, b);
    assert_eq!(a, first.select_validators_for_next_epoch());
    assert_eq!(a.len(), 3);
}

#[test]
fn selection_samples_without_replacement() {
    let mut set = roster(&[("A", 100), ("B", 300), ("C", 50), ("D", 700), ("E", 1)]);
    set.apply_parameters(50, 10);
    set.begin_epoch(1, b"seed".to_vec());
    let selected = set.select_validators_for_next_epoch();
    let mut names = ids(&selected);
    // the draws, computed here
    let mut pool = vec![("A", 100u64), ("B", 300), ("C", 50), ("D", 700)];
    let mut expected = Vec::new();
    let mut counter = 0u64;
    while !pool.is_empty() {
        let stakes: Vec<u64> = pool.iter().map(|p| p.1).collect();
        let i = expected_draw(b"seed", &stakes, counter).unwrap();
        expected.push(name(pool.remove(i).0));
        counter += 1;
    }
    assert_eq!(names, expected);
    names.sort();
    assert_eq!(names, vec![name("A"), name("B"), name("C"), name("D")]);
}

#[test]
fn selection_depends_on_the_seed() {
    let mut set = roster(&[("A", 100), ("B", 100), ("C", 100), ("D", 100)]);
    set.apply_parameters(1, 1);
    let mut leaders = Vec::new();
    for seed in 0..40u8 {
        set.begin_epoch(1, vec![seed]);
        let selected = set.select_validators_for_next_epoch();
        assert_eq!(selected.len(), 1);
        assert_eq!(
            selected[0].id,
            ["A", "B", "C", "D"][expected_draw(&[seed], &[100, 100, 100, 100], 0).unwrap()]
        );
        leaders.push(selected[0].id.clone());
    }
    leaders.sort();
    leaders.dedup();
    assert!(leaders.len() > 1);
}

#[test]
fn rotation_swaps_the_active_set() {
    let mut set = roster(&[("A", 100), ("B", 300), ("C", 50), ("D", 700)]);
    set.update_validator_status(&name("A"), true);
    set.update_validator_status(&name("B"), true);
    set.update_validator_status(&name("C"), true);
    set.update_validator_status(&name("D"), true);
    set.apply_parameters(1, 2);
    set.begin_epoch(9, b"hash".to_vec());
    let selected = ids(&set.select_validators_for_next_epoch());
    assert_eq!(set.rotate_validators(), Ok(()));
    let active = set.get_active_validators();
    assert_eq!(active.len(), 2);
    for validator in set.get_eligible_validators() {
        let chosen = selected.contains(&validator.id);
        assert_eq!(validator.is_active, chosen);
        assert_eq!(validator.last_active_epoch, if chosen { 9 } else { 0 });
    }
    assert_eq!(set.len(), 4);
    assert_eq!(set.epoch(), 9);
}

#[test]
fn rotation_without_candidates_keeps_the_roster() {
    let mut set = roster(&[("A", 100), ("B", 300)]);
    set.update_validator_status(&name("A"), true);
    set.apply_parameters(1000, 2);
    set.begin_epoch(1, b"hash".to_vec());
    assert_eq!(set.rotate_validators(), Err(ConsensusError::NoStakeRegistered));
    assert_eq!(ids(&set.get_active_validators()), vec![name("A")]);
    set.apply_parameters(1, 0);
    assert_eq!(set.rotate_validators(), Err(ConsensusError::NoStakeRegistered));
    let mut empty = ValidatorSet::new(StakeManager::new(0));
    assert_eq!(empty.rotate_validators(), Err(ConsensusError::NoStakeRegistered));
}

#[test]
fn rewards_leave_the_roster_alone() {
    let mut set = roster(&[("A", 100), ("B", 300)]);
    let snapshot = set.snapshot();
    assert_eq!(set.distribute_rewards(&snapshot, &vec![(name("A"), 5)]), Ok(()));
    assert_eq!(set.stake_manager().get_rewards(&name("A")), 5);
    assert_eq!(set.get_eligible_validators(), vec![member("A", 100), member("B", 300)]);
    assert_eq!(
        set.distribute_rewards(&snapshot, &vec![(name("C"), 5)]),
        Err(ConsensusError::NoStakeRegistered)
    );
    set.update_reward_rate(12);
    assert_eq!(set.stake_manager().get_reward_rate(), 12);
}

#[test]
fn contains_id_looks_for_the_identifier() {
    let list = vec![member("A", 1), member("B", 2)];
    assert!(contains_id(&list, &name("B")));
    assert!(!contains_id(&list, &name("C")));
    assert!(!contains_id(&Vec::new(), &name("A")));
}

#[test]
fn byte_strings_are_ordered_lexicographically() {
    assert!(bytes_less(b"", b"a"));
    assert!(bytes_less(b"a", b"ab"));
    assert!(bytes_less(b"ab", b"b"));
    assert!(bytes_less(b"a\x00", b"a\x01"));
    assert!(bytes_less(&[1, 255], &[2]));
    assert!(!bytes_less(b"b", b"ab"));
    assert!(!bytes_less(b"ab", b"a"));
    assert!(!bytes_less(b"a", b"a"));
    assert!(!bytes_less(b"", b""));
    assert!(!bytes_less(b"a", b""));
}

#[test]
fn identifiers_are_ordered_by_their_bytes() {
    assert!(id_less(&name("A"), &name("B")));
    assert!(id_less(&name("B"), &name("a")));
    assert!(id_less(&name("validator-10"), &name("validator-9")));
    assert!(id_less(&name("z"), &name("\u{e9}")));
    assert!(id_less(&name("\u{e9}"), &name("\u{4e2d}")));
    assert!(!id_less(&name("same"), &name("same")));
}

#[test]
fn sorting_orders_by_identifier() {
    let pool = vec![member("D", 4), member("B", 2), member("A", 1), member("C", 3)];
    let sorted = sort_by_id(&pool);
    assert_eq!(sorted, vec![member("A", 1), member("B", 2), member("C", 3), member("D", 4)]);
    assert_eq!(sort_by_id(&sorted), sorted);
    assert!(sort_by_id(&Vec::new()).is_empty());
    let mut list = vec![member("B", 2), member("D", 4)];
    insert_sorted(&mut list, member("C", 3));
    insert_sorted(&mut list, member("A", 1));
    insert_sorted(&mut list, member("E", 5));
    assert_eq!(ids(&list), vec![name("A"), name("B"), name("C"), name("D"), name("E")]);
}

#[test]
fn selection_does_not_depend_on_the_order_of_the_roster() {
    let mut first = roster(&[("A", 100), ("B", 300), ("C", 50), ("D", 700), ("E", 1)]);
    let mut second = roster(&[("D", 700), ("E", 1), ("B", 300), ("A", 100), ("C", 50)]);
    for seed in 0..20u8 {
        first.apply_parameters(1, 3);
        second.apply_parameters(1, 3);
        first.begin_epoch(1, vec![seed]);
        second.begin_epoch(1, vec![seed]);
        let a = first.select_validators_for_next_epoch();
        assert_eq!(a, second.select_validators_for_next_epoch());
        assert_eq!(a.len(), 3);
    }
    assert_eq!(first.rotate_validators(), Ok(()));
    assert_eq!(second.rotate_validators(), Ok(()));
    let mut a = ids(&first.get_active_validators());
    let mut b = ids(&second.get_active_validators());
    a.sort();
    b.sort();
    assert_eq!(a, b);
}

#[test]
fn delegation_is_taken_back_by_its_delegator_only() {
    let mut set = roster(&[("A", 100), ("B", 300), ("C", 20)]);
    set.delegate_stake(name("A"), name("B"), 40).unwrap();
    assert_eq!(
        set.undelegate_stake(name("C"), name("B"), 40),
        Err(ConsensusError::InsufficientStake)
    );
    assert_eq!(
        set.get_eligible_validators(),
        vec![member("A", 60), member("B", 340), member("C", 20)]
    );
    assert_eq!(set.stake_manager().get_delegated(&name("A"), &name("B")), 40);
    assert_eq!(set.undelegate_stake(name("A"), name("B"), 40), Ok(()));
    assert_eq!(
        set.get_eligible_validators(),
        vec![member("A", 100), member("B", 300), member("C", 20)]
    );
}
