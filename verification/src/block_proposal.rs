//! Building a candidate block: admission of transactions, the state root,
//! the proposer's reward and the block hash.

use vstd::prelude::*;
use vstd::slice::slice_to_vec;
use vstd::utf8::encode_utf8;
use crate::block::{transactions_view, Block, BlockHeader, BlockHeaderView, BlockView, Transaction,
    TransactionView};
use crate::consensus_state::{get_current_timestamp, ConsensusState};
use crate::error::ConsensusError;
use crate::hashing::{hash_block, spec_block_hash};
use crate::stake_manager::{spec_record, spec_weight, StakeSnapshot, StakerView};
use crate::state::{spec_apply_all, spec_state_root, AccountView, BlockchainState};
use crate::transaction_verifier::{lemma_admitted_all_valid, spec_admit, spec_all_valid,
    spec_verify, TransactionVerifier};
use crate::validator_set::Validator;

verus! {

/// The share of the total network stake that `stake` makes up, in whole
/// percent, rounded down.
pub open spec fn spec_stake_proportion(stake: u64, total: u64) -> int
    recommends
        total > 0,
{
    stake * 100 / (total as int)
}

/// The reward of a proposer: the base reward, the reward for each
/// transaction, and the base reward once more for each percent of the total
/// stake that the proposer holds.
pub open spec fn spec_reward(
    base_reward: u64,
    reward_per_transaction: u64,
    tx_count: nat,
    stake: u64,
    total: u64,
) -> int
    recommends
        total > 0,
{
    base_reward + tx_count * reward_per_transaction + spec_stake_proportion(stake, total)
        * base_reward
}

/// The outcome of computing a reward: `NoStakeRegistered` where the network
/// holds no stake, `InvalidAmount` where the reward exceeds `u64::MAX`.
pub open spec fn spec_reward_outcome(
    base_reward: u64,
    reward_per_transaction: u64,
    tx_count: nat,
    stake: u64,
    total: u64,
) -> Result<u64, ConsensusError> {
    if total == 0 {
        Err(ConsensusError::NoStakeRegistered)
    } else if spec_reward(base_reward, reward_per_transaction, tx_count, stake, total) > u64::MAX {
        Err(ConsensusError::InvalidAmount)
    } else {
        Ok(spec_reward(base_reward, reward_per_transaction, tx_count, stake, total) as u64)
    }
}

/// The height of a block that extends a chain of `height`.  No block
/// extends a chain of the largest height.
pub open spec fn spec_next_height(height: u64) -> u64 {
    if height < u64::MAX {
        (height + 1) as u64
    } else {
        height
    }
}

/// The bytes that stand for a validator in a block header: its identifier
/// in UTF-8.
pub open spec fn spec_validator_key(id: Seq<char>) -> Seq<u8> {
    encode_utf8(id)
}

/// The header of an empty block on a chain of `height` whose last block has
/// the hash `head_hash`.
pub open spec fn spec_empty_header(
    height: u64,
    head_hash: Seq<u8>,
    proposer: Seq<char>,
    timestamp: u64,
) -> BlockHeaderView {
    BlockHeaderView {
        height: spec_next_height(height),
        timestamp,
        previous_hash: head_hash,
        validator_public_key: spec_validator_key(proposer),
        state_root: Seq::empty(),
        hash: Seq::empty(),
        validator_reward: 0,
    }
}

/// The block `block` once it is sealed with a state root and a reward: both
/// are recorded, and the hash is taken of the result.
pub open spec fn spec_seal(block: BlockView, state_root: Seq<u8>, reward: u64) -> BlockView {
    let filled = BlockView {
        header: BlockHeaderView { state_root, validator_reward: reward, ..block.header },
        transactions: block.transactions,
    };
    BlockView {
        header: BlockHeaderView { hash: spec_block_hash(filled), ..filled.header },
        transactions: filled.transactions,
    }
}

/// The block proposed on top of a chain of `height` with the head
/// `head_hash`, from the pending `transactions`, against `accounts` and the
/// stake `snapshot`: the transactions that pass verification against
/// `accounts`, of each sender the first, in their order; the root of the
/// accounts after them; the proposer's reward; and the hash.  It fails
/// with `StaleBlock` on a chain of the largest height, and otherwise as the
/// reward does.
pub open spec fn spec_propose(
    accounts: Seq<AccountView>,
    height: u64,
    head_hash: Seq<u8>,
    base_reward: u64,
    reward_per_transaction: u64,
    snapshot: Seq<StakerView>,
    total_staked: u64,
    transactions: Seq<TransactionView>,
    proposer: Seq<char>,
    timestamp: u64,
) -> Result<BlockView, ConsensusError> {
    let admitted = spec_admit(accounts, transactions);
    let stake = spec_weight(spec_record(snapshot, proposer)) as u64;
    if height == u64::MAX {
        Err(ConsensusError::StaleBlock)
    } else {
        match spec_reward_outcome(
            base_reward,
            reward_per_transaction,
            admitted.len(),
            stake,
            total_staked,
        ) {
            Err(e) => Err(e),
            Ok(reward) => Ok(
                spec_seal(
                    BlockView {
                        header: spec_empty_header(height, head_hash, proposer, timestamp),
                        transactions: admitted,
                    },
                    spec_state_root(spec_apply_all(accounts, admitted)),
                    reward,
                ),
            ),
        }
    }
}

/// A proposed block holds only transactions that pass verification against
/// the accounts that the proposal started from, and of no sender two.
pub proof fn lemma_proposed_transactions_valid(
    accounts: Seq<AccountView>,
    height: u64,
    head_hash: Seq<u8>,
    base_reward: u64,
    reward_per_transaction: u64,
    snapshot: Seq<StakerView>,
    total_staked: u64,
    transactions: Seq<TransactionView>,
    proposer: Seq<char>,
    timestamp: u64,
)
    ensures
        spec_propose(
            accounts,
            height,
            head_hash,
            base_reward,
            reward_per_transaction,
            snapshot,
            total_staked,
            transactions,
            proposer,
            timestamp,
        ) matches Ok(block) ==> spec_all_valid(accounts, block.transactions),
{
    lemma_admitted_all_valid(accounts, transactions);
}

/// The largest percentage is one hundred: a stake within the total makes up
/// no more than the whole.
pub proof fn lemma_proportion_bound(stake: u64, total: u64)
    requires
        0 < total,
        stake <= total,
    ensures
        0 <= spec_stake_proportion(stake, total) <= 100,
{
    assert(stake * 100 / (total as int) <= 100) by (nonlinear_arith)
        requires
            0 < total,
            0 <= stake <= total,
    ;
    assert(0 <= stake * 100 / (total as int)) by (nonlinear_arith)
        requires
            0 < total,
            0 <= stake,
    ;
}

/// The bytes that stand for `validator` in a block header.
pub fn validator_key(validator: &Validator) -> (key: Vec<u8>)
    ensures
        key@ == spec_validator_key(validator@.id),
{
    slice_to_vec(validator.id.as_str().as_bytes())
}

/// Computes the reward of a proposer with `stake` of `total_stake` for a
/// block of `tx_count` transactions.
pub fn validator_reward(
    base_reward: u64,
    reward_per_transaction: u64,
    tx_count: usize,
    stake: u64,
    total_stake: u64,
) -> (outcome: Result<u64, ConsensusError>)
    ensures
        outcome == spec_reward_outcome(
            base_reward,
            reward_per_transaction,
            tx_count as nat,
            stake,
            total_stake,
        ),
{
    if total_stake == 0 {
        return Err(ConsensusError::NoStakeRegistered);
    }
    let limit: u128 = u64::MAX as u128;
    let proportion: u128 = (stake as u128 * 100) / (total_stake as u128);
    assert(tx_count * reward_per_transaction <= 0xFFFF_FFFF_FFFF_FFFF * 0xFFFF_FFFF_FFFF_FFFF)
        by (nonlinear_arith)
        requires
            0 <= tx_count <= 0xFFFF_FFFF_FFFF_FFFF,
            0 <= reward_per_transaction <= 0xFFFF_FFFF_FFFF_FFFF,
    ;
    let tx_reward: u128 = (tx_count as u128) * (reward_per_transaction as u128);
    assert(0 <= proportion * base_reward) by (nonlinear_arith)
        requires
            0 <= proportion,
            0 <= base_reward,
    ;
    if tx_reward > limit {
        return Err(ConsensusError::InvalidAmount);
    }
    if base_reward > 0 && proportion > limit {
        assert(proportion * base_reward >= proportion) by (nonlinear_arith)
            requires
                base_reward >= 1,
                proportion >= 0,
        ;
        return Err(ConsensusError::InvalidAmount);
    }
    let stake_reward: u128 = if base_reward == 0 {
        assert(proportion * base_reward == 0) by (nonlinear_arith)
            requires
                base_reward == 0,
        ;
        0
    } else {
        assert(proportion * base_reward <= 0xFFFF_FFFF_FFFF_FFFF * 0xFFFF_FFFF_FFFF_FFFF)
            by (nonlinear_arith)
            requires
                0 <= proportion <= 0xFFFF_FFFF_FFFF_FFFF,
                0 <= base_reward <= 0xFFFF_FFFF_FFFF_FFFF,
        ;
        proportion * (base_reward as u128)
    };
    if stake_reward > limit {
        return Err(ConsensusError::InvalidAmount);
    }
    let reward: u128 = base_reward as u128 + tx_reward + stake_reward;
    if reward > limit {
        return Err(ConsensusError::InvalidAmount);
    }
    Ok(reward as u64)
}

/// Builds candidate blocks on top of the chain head, from a stake snapshot,
/// a transaction verifier and the consensus state.  It changes none of them.
pub struct BlockProposal<'a> {
    stake_snapshot: &'a StakeSnapshot,
    transaction_verifier: &'a TransactionVerifier,
    consensus_state: &'a ConsensusState,
}

impl<'a> BlockProposal<'a> {
    /// The stake snapshot of the round.
    pub closed spec fn spec_snapshot(&self) -> StakeSnapshot {
        *self.stake_snapshot
    }

    /// The verifier that admits transactions.
    pub closed spec fn spec_verifier(&self) -> TransactionVerifier {
        *self.transaction_verifier
    }

    /// The consensus state that blocks are built on.
    pub closed spec fn spec_consensus(&self) -> ConsensusState {
        *self.consensus_state
    }

    /// The three parts are well formed.
    pub open spec fn wf(&self) -> bool {
        self.spec_snapshot().wf() && self.spec_verifier().wf() && self.spec_consensus().wf()
    }

    /// The block that `propose_block_at` builds, or the error it fails with.
    pub open spec fn spec_proposal(
        &self,
        transactions: Seq<TransactionView>,
        proposer: Seq<char>,
        timestamp: u64,
    ) -> Result<BlockView, ConsensusError> {
        spec_propose(
            self.spec_verifier()@,
            self.spec_consensus().spec_height(),
            self.spec_consensus().spec_head_hash(),
            self.spec_consensus().spec_base_reward(),
            self.spec_consensus().spec_reward_per_transaction(),
            self.spec_snapshot()@,
            self.spec_snapshot().spec_total_staked(),
            transactions,
            proposer,
            timestamp,
        )
    }

    /// The reward of `proposer` for a block of `tx_count` transactions, or
    /// the error that computing it fails with.
    pub open spec fn spec_validator_reward(
        &self,
        snapshot: &StakeSnapshot,
        tx_count: nat,
        proposer: Seq<char>,
    ) -> Result<u64, ConsensusError> {
        spec_reward_outcome(
            self.spec_consensus().spec_base_reward(),
            self.spec_consensus().spec_reward_per_transaction(),
            tx_count,
            spec_weight(spec_record(snapshot@, proposer)) as u64,
            snapshot.spec_total_staked(),
        )
    }

    /// Creates a new instance of the BlockProposal module.
    pub fn new(
        stake_snapshot: &'a StakeSnapshot,
        transaction_verifier: &'a TransactionVerifier,
        consensus_state: &'a ConsensusState,
    ) -> (proposal: Self)
        ensures
            proposal.spec_snapshot() == *stake_snapshot,
            proposal.spec_verifier() == *transaction_verifier,
            proposal.spec_consensus() == *consensus_state,
    {
        BlockProposal { stake_snapshot, transaction_verifier, consensus_state }
    }

    /// Main function to propose a block, stamped with the current time.  It
    /// is the block that `propose_block_at` builds for the time read.
    pub fn propose_block(
        &self,
        transactions: Vec<Transaction>,
        validator: &Validator,
    ) -> (outcome: Result<Block, ConsensusError>)
        requires
            self.wf(),
        ensures
            outcome matches Ok(block) ==> self.spec_proposal(
                transactions_view(transactions@),
                validator@.id,
                block@.header.timestamp,
            ) == Ok::<BlockView, ConsensusError>(block@),
            outcome matches Ok(block) ==> block@.transactions == spec_admit(
                self.spec_verifier()@,
                transactions_view(transactions@),
            ),
            outcome matches Ok(block) ==> forall|i: int|
                0 <= i < block@.transactions.len() ==> spec_verify(
                    self.spec_verifier()@,
                    #[trigger] block@.transactions[i],
                ) is Ok,
            outcome matches Err(e) ==> forall|timestamp: u64|
                #[trigger] self.spec_proposal(
                    transactions_view(transactions@),
                    validator@.id,
                    timestamp,
                ) == Err::<BlockView, ConsensusError>(e),
    {
        let timestamp = get_current_timestamp();
        self.propose_block_at(transactions, validator, timestamp)
    }

    /// Proposes a block stamped with `timestamp`: admits, in their order,
    /// the transactions that pass verification against the accounts that
    /// the verifier holds, of each sender the first, and seals the block.
    /// No transaction that fails verification enters.
    pub fn propose_block_at(
        &self,
        transactions: Vec<Transaction>,
        validator: &Validator,
        timestamp: u64,
    ) -> (outcome: Result<Block, ConsensusError>)
        requires
            self.wf(),
        ensures
            match self.spec_proposal(transactions_view(transactions@), validator@.id, timestamp) {
                Ok(proposed) => outcome matches Ok(block) && block@ == proposed,
                Err(e) => outcome == Err::<Block, ConsensusError>(e),
            },
            outcome matches Ok(block) ==> block@.transactions == spec_admit(
                self.spec_verifier()@,
                transactions_view(transactions@),
            ),
            outcome matches Ok(block) ==> forall|i: int|
                0 <= i < block@.transactions.len() ==> spec_verify(
                    self.spec_verifier()@,
                    #[trigger] block@.transactions[i],
                ) is Ok,
    {
        proof {
            lemma_admitted_all_valid(
                self.spec_verifier()@,
                transactions_view(transactions@),
            );
        }
        if self.consensus_state.height() == u64::MAX {
            return Err(ConsensusError::StaleBlock);
        }
        let mut block = self.prepare_empty_block_at(validator, timestamp);
        let (admitted, post_state) = self.transaction_verifier.admit_in_order(&transactions);
        block.transactions = admitted;
        match self.finalize_block(&mut block, &post_state, validator) {
            Err(e) => Err(e),
            Ok(()) => Ok(block),
        }
    }

    /// Prepares an empty block with the current time, the hash of the last
    /// finalized block and the validator's key.
    pub fn prepare_empty_block(&self, validator: &Validator) -> (block: Block)
        requires
            self.wf(),
        ensures
            block@ == (BlockView {
                header: spec_empty_header(
                    self.spec_consensus().spec_height(),
                    self.spec_consensus().spec_head_hash(),
                    validator@.id,
                    block@.header.timestamp,
                ),
                transactions: Seq::empty(),
            }),
    {
        let timestamp = get_current_timestamp();
        self.prepare_empty_block_at(validator, timestamp)
    }

    /// Prepares an empty block stamped with `timestamp`.
    pub fn prepare_empty_block_at(&self, validator: &Validator, timestamp: u64) -> (block: Block)
        requires
            self.wf(),
        ensures
            block@ == (BlockView {
                header: spec_empty_header(
                    self.spec_consensus().spec_height(),
                    self.spec_consensus().spec_head_hash(),
                    validator@.id,
                    timestamp,
                ),
                transactions: Seq::empty(),
            }),
    {
        let previous_hash = self.consensus_state.get_latest_block_hash();
        let height = self.consensus_state.height();
        let next_height: u64 = if height < u64::MAX {
            height + 1
        } else {
            height
        };
        let block_header = BlockHeader::new(
            next_height,
            timestamp,
            previous_hash,
            validator_key(validator),
        );
        let block = Block::new(block_header, Vec::new());
        assert(block@.transactions =~= Seq::<TransactionView>::empty());
        block
    }

    /// Finalizes the block by computing the consensus-related metadata: the
    /// root of `state`, the reward of `validator`, and last the hash.  A
    /// block whose reward cannot be computed stays as it is.
    pub fn finalize_block(
        &self,
        block: &mut Block,
        state: &BlockchainState,
        validator: &Validator,
    ) -> (result: Result<(), ConsensusError>)
        requires
            self.wf(),
        ensures
            match self.spec_validator_reward(
                &self.spec_snapshot(),
                old(block)@.transactions.len(),
                validator@.id,
            ) {
                Ok(reward) => {
                    &&& result is Ok
                    &&& final(block)@ == spec_seal(old(block)@, spec_state_root(state@), reward)
                },
                Err(e) => result == Err::<(), ConsensusError>(e) && final(block)@ == old(block)@,
            },
    {
        let validator_reward = match self.calculate_validator_reward(
            self.stake_snapshot,
            block,
            validator,
        ) {
            Err(e) => {
                return Err(e);
            },
            Ok(reward) => reward,
        };
        let state_root_hash = state.state_root();
        block.set_state_root(state_root_hash);
        block.set_validator_reward(validator_reward);
        let block_hash = hash_block(block);
        block.set_hash(block_hash);
        Ok(())
    }

    /// Calculates the reward for the validator proposing the block.
    pub fn calculate_validator_reward(
        &self,
        stake_snapshot: &StakeSnapshot,
        block: &Block,
        validator: &Validator,
    ) -> (outcome: Result<u64, ConsensusError>)
        requires
            stake_snapshot.wf(),
        ensures
            outcome == self.spec_validator_reward(
                stake_snapshot,
                block@.transactions.len(),
                validator@.id,
            ),
    {
        let base_reward = self.consensus_state.get_base_reward();
        let reward_per_transaction = self.consensus_state.get_reward_per_transaction();
        let validator_stake = stake_snapshot.get_stake(&validator.id);
        let total_network_stake = stake_snapshot.get_total_stake();
        validator_reward(
            base_reward,
            reward_per_transaction,
            block.transactions.len(),
            validator_stake,
            total_network_stake,
        )
    }

    /// Calculates additional rewards based on the number of transactions in
    /// the block.
    pub fn calculate_transaction_reward(&self, transaction_count: usize) -> (reward: u128)
        ensures
            reward == transaction_count * self.spec_consensus().spec_reward_per_transaction(),
    {
        let reward_per_transaction = self.consensus_state.get_reward_per_transaction();
        assert(transaction_count * reward_per_transaction <= 0xFFFF_FFFF_FFFF_FFFF
            * 0xFFFF_FFFF_FFFF_FFFF) by (nonlinear_arith)
            requires
                0 <= transaction_count <= 0xFFFF_FFFF_FFFF_FFFF,
                0 <= reward_per_transaction <= 0xFFFF_FFFF_FFFF_FFFF,
        ;
        (transaction_count as u128) * (reward_per_transaction as u128)
    }

    /// Calculates the proportion of stake the validator holds in the
    /// network, in whole percent.
    pub fn calculate_stake_proportion(
        &self,
        stake_snapshot: &StakeSnapshot,
        validator_id: &String,
    ) -> (outcome: Result<u64, ConsensusError>)
        requires
            stake_snapshot.wf(),
        ensures
            outcome == if stake_snapshot.spec_total_staked() == 0 {
                Err::<u64, ConsensusError>(ConsensusError::NoStakeRegistered)
            } else {
                Ok(
                    spec_stake_proportion(
                        spec_weight(spec_record(stake_snapshot@, validator_id@)) as u64,
                        stake_snapshot.spec_total_staked(),
                    ) as u64,
                )
            },
            outcome matches Ok(proportion) ==> proportion <= 100,
    {
        let validator_stake = stake_snapshot.get_stake(validator_id);
        let total_network_stake = stake_snapshot.get_total_stake();
        if total_network_stake == 0 {
            return Err(ConsensusError::NoStakeRegistered);
        }
        proof {
            lemma_proportion_bound(validator_stake, total_network_stake);
        }
        let proportion: u128 = (validator_stake as u128 * 100) / (total_network_stake as u128);
        Ok(proportion as u64)
    }
}

} // verus!
