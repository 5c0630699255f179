//! The chain head: the last finalized block, the round, and the leader that
//! the two determine together with the active validators.

use vstd::prelude::*;
use crate::block::{Block, BlockView};
use crate::bytes::copy_bytes;
use crate::error::ConsensusError;
use crate::hashing::{hash_block, spec_block_hash};
use crate::selection::{draw, lemma_draw_in_pool, spec_draw};
use crate::sorting::{lemma_sort_canonical, lemma_sort_members, sort_by_id, spec_same_members,
    spec_sort};
use crate::validator_set::{lemma_active_distinct, lemma_active_iff, lemma_active_members,
    spec_active, spec_roster_wf, ValidatorSet, ValidatorView};

verus! {

/// The base reward of a block, until the parameters in force say otherwise.
pub const DEFAULT_BASE_REWARD: u64 = 10;

/// The reward for each transaction of a block, until the parameters in
/// force say otherwise.
pub const DEFAULT_REWARD_PER_TRANSACTION: u64 = 2;

/// The leader of `round`: the active validator drawn by stake from `seed` at
/// the round's number; `None` where the active validators hold no stake.
/// The draw is made from the active validators in the order of their
/// identifiers.
pub open spec fn spec_leader(
    seed: Seq<u8>,
    round: u64,
    validators: Seq<ValidatorView>,
) -> Option<Seq<char>> {
    match spec_draw(seed, spec_sort(spec_active(validators)), round) {
        None => None,
        Some(i) => Some(spec_sort(spec_active(validators))[i].id),
    }
}

/// Whether `block` extends a chain of `height` whose last block has the hash
/// `head_hash`: `StaleBlock` unless its height is exactly one more,
/// `ForkMismatch` unless it names the last block as its predecessor.
pub open spec fn spec_check_extension(
    height: u64,
    head_hash: Seq<u8>,
    block: BlockView,
) -> Result<(), ConsensusError> {
    if block.header.height != height + 1 {
        Err(ConsensusError::StaleBlock)
    } else if block.header.previous_hash != head_hash {
        Err(ConsensusError::ForkMismatch)
    } else {
        Ok(())
    }
}

/// The leader is a function of seed, round and roster: two derivations on
/// equal inputs name the same leader.
pub proof fn lemma_leader_deterministic(
    seed_a: Seq<u8>,
    round_a: u64,
    validators_a: Seq<ValidatorView>,
    seed_b: Seq<u8>,
    round_b: u64,
    validators_b: Seq<ValidatorView>,
)
    requires
        seed_a == seed_b,
        round_a == round_b,
        validators_a == validators_b,
    ensures
        spec_leader(seed_a, round_a, validators_a) == spec_leader(seed_b, round_b, validators_b),
{
}

/// The leader of a round is an active validator of the roster that holds
/// stake: inactive validators never lead.
pub proof fn lemma_leader_is_active(seed: Seq<u8>, round: u64, validators: Seq<ValidatorView>)
    ensures
        spec_leader(seed, round, validators) matches Some(id) ==> exists|i: int|
            0 <= i < validators.len() && (#[trigger] validators[i]).id == id
                && validators[i].is_active && validators[i].stake > 0,
{
    let active = spec_active(validators);
    let pool = spec_sort(active);
    lemma_draw_in_pool(seed, pool, round);
    lemma_active_members(validators);
    match spec_draw(seed, pool, round) {
        None => {},
        Some(k) => {
            assert(pool.contains(pool[k]));
            lemma_sort_members(active, pool[k]);
            let j = choose|j: int| 0 <= j < active.len() && active[j] == pool[k];
            assert(validators.contains(active[j]));
            let i = choose|i: int| 0 <= i < validators.len() && validators[i] == active[j];
            assert(validators[i].id == pool[k].id && validators[i].is_active
                && validators[i].stake > 0);
        },
    }
}

/// The leader does not depend on the order of the roster: two rosters that
/// hold the same validators have the same leader.
pub proof fn lemma_leader_canonical(
    seed: Seq<u8>,
    round: u64,
    first: Seq<ValidatorView>,
    second: Seq<ValidatorView>,
)
    requires
        spec_roster_wf(first),
        spec_roster_wf(second),
        spec_same_members(first, second),
    ensures
        spec_leader(seed, round, first) == spec_leader(seed, round, second),
{
    lemma_active_distinct(first);
    lemma_active_distinct(second);
    assert forall|v: ValidatorView|
        spec_active(first).contains(v) <==> spec_active(second).contains(v) by {
        lemma_active_iff(first, v);
        lemma_active_iff(second, v);
    }
    lemma_sort_canonical(spec_active(first), spec_active(second));
}

/// Calls `std::time::SystemTime::elapsed` on the Unix epoch: the time that
/// has passed since then, or `None` where the clock stands before the
/// epoch.  Trusted, and nothing is claimed of the value.
#[verifier::external_body]
fn epoch_elapsed() -> Option<core::time::Duration> {
    match std::time::UNIX_EPOCH.elapsed() {
        Ok(elapsed) => Some(elapsed),
        Err(_) => None,
    }
}

/// Calls `core::time::Duration::as_secs`: the whole seconds of a duration.
/// Trusted, and nothing is claimed of the value.
#[verifier::external_body]
fn whole_seconds(duration: core::time::Duration) -> u64 {
    duration.as_secs()
}

/// Returns the current timestamp, in seconds since the Unix epoch; zero
/// where the clock stands before the epoch.
pub(crate) fn get_current_timestamp() -> u64 {
    let reading = match epoch_elapsed() {
        Some(elapsed) => Some(whole_seconds(elapsed)),
        None => None,
    };
    timestamp_of_reading(reading)
}

/// The timestamp that a reading of the clock stands for: the seconds read,
/// or zero where the clock stood before the epoch and gave none.
pub fn timestamp_of_reading(reading: Option<u64>) -> (timestamp: u64)
    ensures
        timestamp == match reading {
            Some(seconds) => seconds,
            None => 0,
        },
{
    match reading {
        Some(seconds) => seconds,
        None => 0,
    }
}

/// Represents the current state of the consensus mechanism.
pub struct ConsensusState {
    /// The current set of validators, with the stake table.
    validators: ValidatorSet,
    /// The current highest block that has reached consensus.
    current_block: Block,
    /// The hash of the current block.
    current_hash: Vec<u8>,
    /// The number of the round in progress.
    round: u64,
    base_reward: u64,
    reward_per_transaction: u64,
    /// Timestamp of the last state update.
    last_updated: u64,
}

impl ConsensusState {
    /// The last finalized block.
    pub closed spec fn spec_current_block(&self) -> BlockView {
        self.current_block@
    }

    /// The hash recorded for the last finalized block.
    pub closed spec fn spec_recorded_hash(&self) -> Seq<u8> {
        self.current_hash@
    }

    /// The height of the chain: the height of the last finalized block.
    pub open spec fn spec_height(&self) -> u64 {
        self.spec_current_block().header.height
    }

    /// The hash of the last finalized block.
    pub open spec fn spec_head_hash(&self) -> Seq<u8> {
        spec_block_hash(self.spec_current_block())
    }

    /// The number of the round in progress.
    pub closed spec fn spec_round(&self) -> u64 {
        self.round
    }

    /// The validator set.
    pub closed spec fn spec_validators(&self) -> ValidatorSet {
        self.validators
    }

    /// The base reward of a block.
    pub closed spec fn spec_base_reward(&self) -> u64 {
        self.base_reward
    }

    /// The reward for each transaction of a block.
    pub closed spec fn spec_reward_per_transaction(&self) -> u64 {
        self.reward_per_transaction
    }

    /// The time of the last state update, as the clock gave it.
    pub closed spec fn spec_last_updated(&self) -> u64 {
        self.last_updated
    }

    /// The leader of the round in progress.
    pub open spec fn spec_current_leader(&self) -> Option<Seq<char>> {
        spec_leader(self.spec_head_hash(), self.spec_round(), self.spec_validators()@)
    }

    /// The validator set is well formed and the recorded hash is the hash of
    /// the last finalized block.
    pub open spec fn wf(&self) -> bool {
        self.spec_validators().wf() && self.spec_recorded_hash() == self.spec_head_hash()
    }

    /// Whether block, round and reward parameters are those of `other`.
    pub open spec fn spec_same_head(&self, other: &Self) -> bool {
        &&& self.spec_current_block() == other.spec_current_block()
        &&& self.spec_round() == other.spec_round()
        &&& self.spec_base_reward() == other.spec_base_reward()
        &&& self.spec_reward_per_transaction() == other.spec_reward_per_transaction()
    }

    /// Initializes a new ConsensusState on `initial_block`, in round zero,
    /// with the default reward parameters.
    pub fn new(validators: ValidatorSet, initial_block: Block) -> (state: Self)
        requires
            validators.wf(),
        ensures
            state.spec_validators() == validators,
            state.spec_current_block() == initial_block@,
            state.spec_round() == 0,
            state.spec_base_reward() == DEFAULT_BASE_REWARD,
            state.spec_reward_per_transaction() == DEFAULT_REWARD_PER_TRANSACTION,
            state.wf(),
    {
        let current_hash = hash_block(&initial_block);
        ConsensusState {
            validators,
            current_block: initial_block,
            current_hash,
            round: 0,
            base_reward: DEFAULT_BASE_REWARD,
            reward_per_transaction: DEFAULT_REWARD_PER_TRANSACTION,
            last_updated: get_current_timestamp(),
        }
    }

    /// Updates the state based on a new block: the block becomes the last
    /// finalized block and the round advances, provided the block's height
    /// is one more than the current height and the block names the last
    /// finalized block as its predecessor.  A block that is refused leaves
    /// the state as it is, the time of the last update included.  The height
    /// after the call is the height before it, or one more.  Only a block
    /// that is accepted needs room in the round counter.
    pub fn update_state_with_block(&mut self, block: Block) -> (result: Result<(), ConsensusError>)
        requires
            old(self).wf(),
            spec_check_extension(
                old(self).spec_height(),
                old(self).spec_head_hash(),
                block@,
            ) is Ok ==> old(self).spec_round() < u64::MAX,
        ensures
            match spec_check_extension(
                old(self).spec_height(),
                old(self).spec_head_hash(),
                block@,
            ) {
                Ok(()) => {
                    &&& result is Ok
                    &&& final(self).spec_current_block() == block@
                    &&& final(self).spec_round() == old(self).spec_round() + 1
                    &&& final(self).spec_height() == old(self).spec_height() + 1
                },
                Err(e) => {
                    &&& result == Err::<(), ConsensusError>(e)
                    &&& final(self).spec_same_head(old(self))
                    &&& final(self).spec_last_updated() == old(self).spec_last_updated()
                },
            },
            old(self).spec_height() + 1 != block@.header.height ==> result == Err::<
                (),
                ConsensusError,
            >(ConsensusError::StaleBlock),
            result is Err ==> final(self).spec_height() == old(self).spec_height(),
            result is Ok ==> final(self).spec_height() == old(self).spec_height() + 1,
            final(self).spec_validators() == old(self).spec_validators(),
            final(self).spec_base_reward() == old(self).spec_base_reward(),
            final(self).spec_reward_per_transaction() == old(self).spec_reward_per_transaction(),
            final(self).wf(),
    {
        let height = self.current_block.header.height;
        if height == u64::MAX || block.header.height != height + 1 {
            return Err(ConsensusError::StaleBlock);
        }
        if !crate::bytes::bytes_equal(&block.header.previous_hash, &self.current_hash) {
            return Err(ConsensusError::ForkMismatch);
        }
        self.current_hash = hash_block(&block);
        self.current_block = block;
        self.round = self.round + 1;
        self.last_updated = get_current_timestamp();
        Ok(())
    }

    /// Gives the round up without a block: the round advances and the chain
    /// head stays.
    pub fn advance_round(&mut self)
        requires
            old(self).wf(),
            old(self).spec_round() < u64::MAX,
        ensures
            final(self).spec_round() == old(self).spec_round() + 1,
            final(self).spec_current_block() == old(self).spec_current_block(),
            final(self).spec_validators() == old(self).spec_validators(),
            final(self).spec_base_reward() == old(self).spec_base_reward(),
            final(self).spec_reward_per_transaction() == old(self).spec_reward_per_transaction(),
            final(self).wf(),
    {
        self.round = self.round + 1;
        self.last_updated = get_current_timestamp();
    }

    /// Puts the reward parameters in force.
    pub fn set_reward_parameters(&mut self, base_reward: u64, reward_per_transaction: u64)
        ensures
            final(self).spec_base_reward() == base_reward,
            final(self).spec_reward_per_transaction() == reward_per_transaction,
            final(self).spec_current_block() == old(self).spec_current_block(),
            final(self).spec_recorded_hash() == old(self).spec_recorded_hash(),
            final(self).spec_round() == old(self).spec_round(),
            final(self).spec_validators() == old(self).spec_validators(),
    {
        self.base_reward = base_reward;
        self.reward_per_transaction = reward_per_transaction;
    }

    /// Returns the current highest block in the consensus state.
    pub fn get_current_block(&self) -> (block: &Block)
        ensures
            block@ == self.spec_current_block(),
    {
        &self.current_block
    }

    /// The hash of the last finalized block.
    pub fn get_latest_block_hash(&self) -> (hash: Vec<u8>)
        requires
            self.wf(),
        ensures
            hash@ == self.spec_head_hash(),
    {
        copy_bytes(&self.current_hash)
    }

    /// The height of the chain.
    pub fn height(&self) -> (height: u64)
        ensures
            height == self.spec_height(),
    {
        self.current_block.header.height
    }

    /// The number of the round in progress.
    pub fn round(&self) -> (round: u64)
        ensures
            round == self.spec_round(),
    {
        self.round
    }

    /// The base reward of a block.
    pub fn get_base_reward(&self) -> (reward: u64)
        ensures
            reward == self.spec_base_reward(),
    {
        self.base_reward
    }

    /// The reward for each transaction of a block.
    pub fn get_reward_per_transaction(&self) -> (reward: u64)
        ensures
            reward == self.spec_reward_per_transaction(),
    {
        self.reward_per_transaction
    }

    /// The timestamp of the last state update.
    pub fn last_updated(&self) -> (timestamp: u64)
        ensures
            timestamp == self.spec_last_updated(),
    {
        self.last_updated
    }

    /// The validator set, for reading.
    pub fn validators(&self) -> (validators: &ValidatorSet)
        ensures
            *validators == self.spec_validators(),
    {
        &self.validators
    }

    /// The validator set, for changing it.  Chain head, round and reward
    /// parameters stay as they are.
    pub fn validators_mut(&mut self) -> (validators: &mut ValidatorSet)
        ensures
            *validators == old(self).spec_validators(),
            final(self).spec_validators() == *final(validators),
            final(self).spec_same_head(old(self)),
            final(self).spec_recorded_hash() == old(self).spec_recorded_hash(),
    {
        &mut self.validators
    }

    /// The leader of the round in progress: the active validator drawn by
    /// stake from the hash of the last finalized block at the round's number.
    pub fn current_leader(&self) -> (leader: Option<String>)
        requires
            self.wf(),
        ensures
            match self.spec_current_leader() {
                None => leader is None,
                Some(id) => leader matches Some(name) && name@ == id,
            },
    {
        let active = sort_by_id(&self.validators.get_active_validators());
        match draw(&self.current_hash, &active, self.round) {
            None => None,
            Some(i) => Some(active[i].id.clone()),
        }
    }
}

} // verus!
