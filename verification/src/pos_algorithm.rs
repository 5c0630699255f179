//! The round of the proof-of-stake algorithm: select, propose, validate,
//! finalize.
//!
//! A round is one call.  What the network has delivered is handed in, and
//! the outcome says what is to be sent out; the module itself performs no
//! input or output.

use vstd::prelude::*;
use crate::block::{duplicate_transactions, transactions_view, Block, BlockView, Transaction,
    TransactionView};
use crate::block_proposal::{spec_propose, spec_reward_outcome, spec_validator_key, validator_reward,
    BlockProposal};
use crate::bytes::bytes_equal;
use crate::consensus_state::{spec_check_extension, spec_leader, ConsensusState};
use crate::error::ConsensusError;
use crate::governance::{apply_parameters, spec_parameters_of, EffectiveParameters};
use crate::stake_manager::{rewards_view, spec_distribute, spec_record, spec_weight, StakeSnapshot,
    StakerView};
use crate::state::{spec_apply_all, spec_ledger_wf, spec_nonce, AccountView};
use crate::transaction_verifier::{lemma_nonce_after, lemma_nonce_sequence, spec_all_valid,
    spec_count_from, TransactionVerifier};
use crate::validator_set::{spec_rotated, spec_select, spec_validator_ids, Validator, ValidatorView};

verus! {

/// How a round ended.
#[derive(Debug)]
pub enum RoundOutcome {
    /// `block` was finalized.  Where `proposed_locally` holds, this node
    /// built it and owes its broadcast.
    Finalized { block: Block, proposed_locally: bool },
    /// No acceptable block was at hand; the round was given up.
    TimedOut,
    /// The round counter has reached its end; nothing was changed.
    Halted,
}

/// Whether `round` opens an epoch of `rounds_per_epoch` rounds.  Without
/// epochs (`rounds_per_epoch` zero) no round does.
pub open spec fn spec_epoch_boundary(round: u64, rounds_per_epoch: u64) -> bool {
    rounds_per_epoch > 0 && round % rounds_per_epoch == 0
}

/// The roster of `round`: at an epoch boundary the roster rotated to the
/// validators selected from the hash of the chain head, provided some can be
/// selected; the roster as it is otherwise.
pub open spec fn spec_round_roster(
    validators: Seq<ValidatorView>,
    head_hash: Seq<u8>,
    minimum: u64,
    max: usize,
    round: u64,
    rounds_per_epoch: u64,
) -> Seq<ValidatorView> {
    if spec_epoch_boundary(round, rounds_per_epoch) {
        let selected = spec_select(head_hash, validators, minimum, max as nat);
        if selected.len() == 0 {
            validators
        } else {
            spec_rotated(validators, spec_validator_ids(selected), round / rounds_per_epoch)
        }
    } else {
        validators
    }
}

/// Whether `block` may be finalized in a round led by `leader`: every
/// transaction passes verification against `accounts`, no sender occurs
/// twice, the proposer is the leader, and the block names the chain head as
/// its predecessor.
pub open spec fn spec_block_acceptable(
    accounts: Seq<AccountView>,
    head_hash: Seq<u8>,
    leader: Option<Seq<char>>,
    block: BlockView,
) -> bool {
    &&& spec_all_valid(accounts, block.transactions)
    &&& leader matches Some(id) && block.header.validator_public_key == spec_validator_key(id)
    &&& block.header.previous_hash == head_hash
}

/// In a block that may be finalized, each transaction carries the nonce that
/// its sender had before the block, and no sender has an earlier
/// transaction in the block; once the block has taken effect, each
/// sender's nonce has risen by exactly the number of transactions that it
/// has in the block.
pub proof fn lemma_finalized_nonces(
    accounts: Seq<AccountView>,
    head_hash: Seq<u8>,
    leader: Option<Seq<char>>,
    block: BlockView,
    i: int,
)
    requires
        spec_ledger_wf(accounts),
        spec_block_acceptable(accounts, head_hash, leader, block),
        0 <= i < block.transactions.len(),
    ensures
        block.transactions[i].nonce == spec_nonce(accounts, block.transactions[i].sender)
            + spec_count_from(block.transactions.take(i), block.transactions[i].sender),
        spec_nonce(spec_apply_all(accounts, block.transactions), block.transactions[i].sender)
            == spec_nonce(accounts, block.transactions[i].sender) + spec_count_from(
            block.transactions,
            block.transactions[i].sender,
        ),
{
    lemma_nonce_sequence(accounts, block.transactions, i);
    lemma_nonce_after(accounts, block.transactions, block.transactions[i].sender);
}

/// The stake table after the leader of a round has been rewarded for a
/// block of `tx_count` transactions.  The reward is computed from the
/// snapshot of the round; it is credited where it can be computed, the
/// snapshot knows the leader and the reward can be recorded.  Otherwise the
/// table is as it was.
pub open spec fn spec_rewarded(
    records: Seq<StakerView>,
    snapshot: Seq<StakerView>,
    total_staked: u64,
    base_reward: u64,
    reward_per_transaction: u64,
    tx_count: nat,
    leader: Seq<char>,
) -> Seq<StakerView> {
    match spec_reward_outcome(
        base_reward,
        reward_per_transaction,
        tx_count,
        spec_weight(spec_record(snapshot, leader)) as u64,
        total_staked,
    ) {
        Err(_) => records,
        Ok(reward) => match spec_distribute(records, snapshot, seq![(leader, reward)]) {
            Ok(credited) => credited,
            Err(_) => records,
        },
    }
}

/// The round orchestrator, with the state that it threads from round to
/// round.
pub struct PosAlgorithm {
    consensus_state: ConsensusState,
    transaction_verifier: TransactionVerifier,
    local_id: String,
    rounds_per_epoch: u64,
}

impl PosAlgorithm {
    /// The consensus state.
    pub closed spec fn spec_consensus(&self) -> ConsensusState {
        self.consensus_state
    }

    /// The transaction verifier, with the account state.
    pub closed spec fn spec_verifier(&self) -> TransactionVerifier {
        self.transaction_verifier
    }

    /// The identifier under which this node validates.
    pub closed spec fn spec_local_id(&self) -> Seq<char> {
        self.local_id@
    }

    /// The number of rounds of an epoch.
    pub closed spec fn spec_rounds_per_epoch(&self) -> u64 {
        self.rounds_per_epoch
    }

    /// Consensus state and verifier are well formed.
    pub open spec fn wf(&self) -> bool {
        self.spec_consensus().wf() && self.spec_verifier().wf()
    }

    /// The accounts of the chain.
    pub open spec fn spec_accounts(&self) -> Seq<AccountView> {
        self.spec_verifier()@
    }

    /// The roster.
    pub open spec fn spec_roster(&self) -> Seq<ValidatorView> {
        self.spec_consensus().spec_validators()@
    }

    /// The stake table.
    pub open spec fn spec_stakes(&self) -> Seq<StakerView> {
        self.spec_consensus().spec_validators().spec_stakes()
    }

    /// The total network stake.
    pub open spec fn spec_total_staked(&self) -> u64 {
        self.spec_consensus().spec_validators().spec_stake_manager().spec_total_staked()
    }

    /// The number of the round in progress.
    pub open spec fn spec_round(&self) -> u64 {
        self.spec_consensus().spec_round()
    }

    /// The height of the chain.
    pub open spec fn spec_height(&self) -> u64 {
        self.spec_consensus().spec_height()
    }

    /// The last finalized block.
    pub open spec fn spec_chain_head(&self) -> BlockView {
        self.spec_consensus().spec_current_block()
    }

    /// The hash of the last finalized block.
    pub open spec fn spec_head_hash(&self) -> Seq<u8> {
        self.spec_consensus().spec_head_hash()
    }

    /// The leader of the round in progress, on the roster as it is.
    pub open spec fn spec_current_leader(&self) -> Option<Seq<char>> {
        self.spec_consensus().spec_current_leader()
    }

    /// The base reward of a block.
    pub open spec fn spec_base_reward(&self) -> u64 {
        self.spec_consensus().spec_base_reward()
    }

    /// The reward for each transaction of a block.
    pub open spec fn spec_reward_per_transaction(&self) -> u64 {
        self.spec_consensus().spec_reward_per_transaction()
    }

    /// The smallest stake with which a validator is selected.
    pub open spec fn spec_minimum_stake(&self) -> u64 {
        self.spec_consensus().spec_validators().spec_minimum_stake()
    }

    /// The largest number of validators selected for an epoch.
    pub open spec fn spec_max_validators(&self) -> usize {
        self.spec_consensus().spec_validators().spec_max_validators()
    }

    /// The parameters in force.
    pub open spec fn spec_current_parameters(&self) -> EffectiveParameters {
        spec_parameters_of(&self.spec_consensus())
    }

    /// Whether the round in progress opens an epoch.
    pub open spec fn spec_at_epoch_boundary(&self) -> bool {
        spec_epoch_boundary(self.spec_round(), self.spec_rounds_per_epoch())
    }

    /// The parameters of the round in progress: `offered`, the parameters
    /// that governance has in force, where the round opens an epoch; those
    /// in force here otherwise.
    pub open spec fn spec_round_parameters(
        &self,
        offered: EffectiveParameters,
    ) -> EffectiveParameters {
        if self.spec_at_epoch_boundary() {
            offered
        } else {
            self.spec_current_parameters()
        }
    }

    /// The roster of the round in progress, once the selection of the round
    /// has been made.
    pub open spec fn spec_selected_roster(
        &self,
        offered: EffectiveParameters,
    ) -> Seq<ValidatorView> {
        spec_round_roster(
            self.spec_roster(),
            self.spec_head_hash(),
            self.spec_round_parameters(offered).minimum_stake_threshold,
            self.spec_round_parameters(offered).max_validators,
            self.spec_round(),
            self.spec_rounds_per_epoch(),
        )
    }

    /// The leader of the round in progress, once the selection of the round
    /// has been made.
    pub open spec fn spec_round_leader(&self, offered: EffectiveParameters) -> Option<Seq<char>> {
        spec_leader(self.spec_head_hash(), self.spec_round(), self.spec_selected_roster(offered))
    }

    /// The block that this node proposes against `snapshot` on the roster as
    /// it is; `None` where the node does not lead or no block can be built.
    pub open spec fn spec_proposal(
        &self,
        snapshot: &StakeSnapshot,
        pending: Seq<TransactionView>,
        timestamp: u64,
    ) -> Option<BlockView> {
        if self.spec_current_leader() == Some(self.spec_local_id()) {
            match spec_propose(
                self.spec_accounts(),
                self.spec_height(),
                self.spec_head_hash(),
                self.spec_base_reward(),
                self.spec_reward_per_transaction(),
                snapshot@,
                snapshot.spec_total_staked(),
                pending,
                self.spec_local_id(),
                timestamp,
            ) {
                Ok(block) => Some(block),
                Err(_) => None,
            }
        } else {
            None
        }
    }

    /// Whether this node leads the round in progress.
    pub open spec fn spec_leads(&self, offered: EffectiveParameters) -> bool {
        self.spec_round_leader(offered) == Some(self.spec_local_id())
    }

    /// The candidate of the round: the block that this node proposes where
    /// it leads, the block received otherwise.
    pub open spec fn spec_candidate(
        &self,
        offered: EffectiveParameters,
        pending: Seq<TransactionView>,
        received: Option<BlockView>,
        timestamp: u64,
    ) -> Option<BlockView> {
        if self.spec_leads(offered) {
            match spec_propose(
                self.spec_accounts(),
                self.spec_height(),
                self.spec_head_hash(),
                self.spec_round_parameters(offered).base_reward,
                self.spec_round_parameters(offered).reward_per_transaction,
                self.spec_stakes(),
                self.spec_total_staked(),
                pending,
                self.spec_local_id(),
                timestamp,
            ) {
                Ok(block) => Some(block),
                Err(_) => None,
            }
        } else {
            received
        }
    }

    /// The block that the round finalizes: the candidate, where it is
    /// acceptable and extends the chain by one.
    pub open spec fn spec_round_block(
        &self,
        offered: EffectiveParameters,
        pending: Seq<TransactionView>,
        received: Option<BlockView>,
        timestamp: u64,
    ) -> Option<BlockView> {
        match self.spec_candidate(offered, pending, received, timestamp) {
            None => None,
            Some(block) => if spec_block_acceptable(
                self.spec_accounts(),
                self.spec_head_hash(),
                self.spec_round_leader(offered),
                block,
            ) && spec_check_extension(self.spec_height(), self.spec_head_hash(), block) is Ok {
                Some(block)
            } else {
                None
            },
        }
    }

    /// Whether parameters, identity and the length of an epoch are those of
    /// `other`.
    pub open spec fn spec_same_settings(&self, other: &Self) -> bool {
        &&& self.spec_local_id() == other.spec_local_id()
        &&& self.spec_rounds_per_epoch() == other.spec_rounds_per_epoch()
        &&& self.spec_current_parameters() == other.spec_current_parameters()
    }

    /// Whether chain head, round, accounts, roster and stakes are those of
    /// `other`.
    pub open spec fn spec_same_state(&self, other: &Self) -> bool {
        &&& self.spec_chain_head() == other.spec_chain_head()
        &&& self.spec_round() == other.spec_round()
        &&& self.spec_accounts() == other.spec_accounts()
        &&& self.spec_roster() == other.spec_roster()
        &&& self.spec_stakes() == other.spec_stakes()
    }

    /// Initializes a new instance of the PoS algorithm for the node that
    /// validates as `local_id`, with epochs of `rounds_per_epoch` rounds.
    pub fn new(
        consensus_state: ConsensusState,
        transaction_verifier: TransactionVerifier,
        local_id: String,
        rounds_per_epoch: u64,
    ) -> (algorithm: Self)
        requires
            consensus_state.wf(),
            transaction_verifier.wf(),
        ensures
            algorithm.spec_consensus() == consensus_state,
            algorithm.spec_verifier() == transaction_verifier,
            algorithm.spec_local_id() == local_id@,
            algorithm.spec_rounds_per_epoch() == rounds_per_epoch,
            algorithm.wf(),
    {
        PosAlgorithm { consensus_state, transaction_verifier, local_id, rounds_per_epoch }
    }

    /// The consensus state, for reading.
    pub fn consensus_state(&self) -> (state: &ConsensusState)
        ensures
            *state == self.spec_consensus(),
    {
        &self.consensus_state
    }

    /// The consensus state, for changing it between rounds.  Accounts,
    /// identity and the length of an epoch stay as they are.
    pub fn consensus_state_mut(&mut self) -> (state: &mut ConsensusState)
        ensures
            *state == old(self).spec_consensus(),
            final(self).spec_consensus() == *final(state),
            final(self).spec_verifier() == old(self).spec_verifier(),
            final(self).spec_local_id() == old(self).spec_local_id(),
            final(self).spec_rounds_per_epoch() == old(self).spec_rounds_per_epoch(),
    {
        &mut self.consensus_state
    }

    /// The transaction verifier, for reading.
    pub fn transaction_verifier(&self) -> (verifier: &TransactionVerifier)
        ensures
            *verifier == self.spec_verifier(),
    {
        &self.transaction_verifier
    }

    /// Selects validators for the round.  At an epoch boundary the parameters
    /// that governance has in force are put in force here, and the roster is
    /// rotated to the validators drawn from the hash of the chain head;
    /// where none can be drawn the roster stays.  Within an epoch nothing
    /// changes.
    pub fn select_validators(&mut self, parameters: &EffectiveParameters)
        requires
            old(self).wf(),
        ensures
            final(self).spec_current_parameters() == old(self).spec_round_parameters(*parameters),
            final(self).spec_roster() == old(self).spec_selected_roster(*parameters),
            final(self).spec_stakes() == old(self).spec_stakes(),
            final(self).spec_total_staked() == old(self).spec_total_staked(),
            final(self).spec_chain_head() == old(self).spec_chain_head(),
            final(self).spec_round() == old(self).spec_round(),
            final(self).spec_verifier() == old(self).spec_verifier(),
            final(self).spec_local_id() == old(self).spec_local_id(),
            final(self).spec_rounds_per_epoch() == old(self).spec_rounds_per_epoch(),
            final(self).wf(),
    {
        let round = self.consensus_state.round();
        if self.rounds_per_epoch > 0 && round % self.rounds_per_epoch == 0 {
            apply_parameters(parameters, &mut self.consensus_state);
            let seed = self.consensus_state.get_latest_block_hash();
            let epoch = round / self.rounds_per_epoch;
            let validators = self.consensus_state.validators_mut();
            validators.begin_epoch(epoch, seed);
            let _ = validators.rotate_validators();
        }
    }

    /// Proposes a new block where this node leads the round: the block built
    /// from the pending transactions on top of the chain head, to be
    /// broadcast.  It yields `None` where another validator leads, where
    /// nobody does, or where no block can be built.
    pub fn propose_block(
        &self,
        snapshot: &StakeSnapshot,
        pending_transactions: Vec<Transaction>,
        timestamp: u64,
    ) -> (candidate: Option<Block>)
        requires
            self.wf(),
            snapshot.wf(),
        ensures
            match self.spec_proposal(
                snapshot,
                transactions_view(pending_transactions@),
                timestamp,
            ) {
                Some(proposed) => candidate matches Some(block) && block@ == proposed,
                None => candidate is None,
            },
    {
        let leads = match self.consensus_state.current_leader() {
            Some(id) => id == self.local_id,
            None => false,
        };
        if !leads {
            return None;
        }
        let local = Validator {
            id: self.local_id.clone(),
            stake: 0,
            is_active: true,
            last_active_epoch: 0,
        };
        let proposal = BlockProposal::new(
            snapshot,
            &self.transaction_verifier,
            &self.consensus_state,
        );
        match proposal.propose_block_at(pending_transactions, &local, timestamp) {
            Ok(block) => Some(block),
            Err(_) => None,
        }
    }

    /// Validates a proposed block: its transactions, its proposer and its
    /// link to the chain head.
    pub fn validate_block(&self, block: &Block) -> (acceptable: bool)
        requires
            self.wf(),
        ensures
            acceptable == spec_block_acceptable(
                self.spec_accounts(),
                self.spec_head_hash(),
                self.spec_current_leader(),
                block@,
            ),
    {
        let leader = match self.consensus_state.current_leader() {
            None => {
                return false;
            },
            Some(id) => id,
        };
        let key = vstd::slice::slice_to_vec(leader.as_str().as_bytes());
        if !bytes_equal(&block.header.validator_public_key, &key) {
            return false;
        }
        let head_hash = self.consensus_state.get_latest_block_hash();
        if !bytes_equal(&block.header.previous_hash, &head_hash) {
            return false;
        }
        self.transaction_verifier.verify_sequence(&block.transactions)
    }

    /// Finalizes a block that `validate_block` accepts: the block becomes
    /// the chain head, its transactions take effect on the accounts, the
    /// leader is credited the reward that the snapshot of the round yields
    /// for the block, and the round advances.  The reward named in the
    /// header is not relied on.  A block that does not extend the chain by
    /// one is refused and nothing changes.
    pub fn finalize_block(
        &mut self,
        block: Block,
        snapshot: &StakeSnapshot,
    ) -> (result: Result<(), ConsensusError>)
        requires
            old(self).wf(),
            snapshot.wf(),
            spec_check_extension(
                old(self).spec_height(),
                old(self).spec_head_hash(),
                block@,
            ) is Ok ==> old(self).spec_round() < u64::MAX,
            spec_block_acceptable(
                old(self).spec_accounts(),
                old(self).spec_head_hash(),
                old(self).spec_current_leader(),
                block@,
            ),
        ensures
            match spec_check_extension(
                old(self).spec_height(),
                old(self).spec_head_hash(),
                block@,
            ) {
                Err(e) => {
                    &&& result == Err::<(), ConsensusError>(e)
                    &&& final(self).spec_same_state(old(self))
                },
                Ok(()) => {
                    &&& result is Ok
                    &&& final(self).spec_chain_head() == block@
                    &&& final(self).spec_round() == old(self).spec_round() + 1
                    &&& final(self).spec_accounts() == spec_apply_all(
                        old(self).spec_accounts(),
                        block@.transactions,
                    )
                    &&& final(self).spec_roster() == old(self).spec_roster()
                    &&& final(self).spec_stakes() == spec_rewarded(
                        old(self).spec_stakes(),
                        snapshot@,
                        snapshot.spec_total_staked(),
                        old(self).spec_base_reward(),
                        old(self).spec_reward_per_transaction(),
                        block@.transactions.len(),
                        old(self).spec_current_leader().unwrap(),
                    )
                },
            },
            final(self).spec_same_settings(old(self)),
            final(self).wf(),
    {
        let leader = match self.consensus_state.current_leader() {
            // not reached: an acceptable block names the leader of the round
            None => {
                return Err(ConsensusError::StaleBlock);
            },
            Some(id) => id,
        };
        let reward = validator_reward(
            self.consensus_state.get_base_reward(),
            self.consensus_state.get_reward_per_transaction(),
            block.transactions.len(),
            snapshot.get_stake(&leader),
            snapshot.get_total_stake(),
        );
        let transactions = duplicate_transactions(&block.transactions);
        match self.consensus_state.update_state_with_block(block) {
            Err(e) => {
                return Err(e);
            },
            Ok(()) => {},
        }
        self.transaction_verifier.apply_transactions(&transactions);
        match reward {
            Err(_) => {},
            Ok(amount) => {
                let mut rewards: Vec<(String, u64)> = Vec::new();
                rewards.push((leader, amount));
                assert(rewards_view(rewards@) =~= seq![(leader@, amount)]);
                let validators = self.consensus_state.validators_mut();
                let _ = validators.distribute_rewards(snapshot, &rewards);
            },
        }
        Ok(())
    }

    /// Main entry point for the consensus algorithm: runs one round on the
    /// transactions that are pending and the block that has been received,
    /// if any, at the time `timestamp`, with the parameters that governance
    /// has in force.
    ///
    /// At an epoch boundary the parameters are put in force and the roster
    /// is rotated.  Where this node leads the round it proposes a block from
    /// the pending transactions; otherwise the block received is the
    /// candidate.  A candidate that is acceptable and extends the chain by
    /// one is finalized; else the round is given up and only the round
    /// counter advances.
    pub fn run_consensus_round(
        &mut self,
        pending_transactions: Vec<Transaction>,
        received_block: Option<Block>,
        timestamp: u64,
        parameters: &EffectiveParameters,
    ) -> (outcome: RoundOutcome)
        requires
            old(self).wf(),
        ensures
            final(self).wf(),
            final(self).spec_local_id() == old(self).spec_local_id(),
            final(self).spec_rounds_per_epoch() == old(self).spec_rounds_per_epoch(),
            old(self).spec_round() == u64::MAX ==> {
                &&& outcome is Halted
                &&& final(self).spec_same_state(old(self))
                &&& final(self).spec_current_parameters() == old(self).spec_current_parameters()
            },
            old(self).spec_round() < u64::MAX ==> {
                &&& final(self).spec_round() == old(self).spec_round() + 1
                &&& final(self).spec_current_parameters() == old(self).spec_round_parameters(
                    *parameters,
                )
                &&& final(self).spec_roster() == old(self).spec_selected_roster(*parameters)
                &&& match old(self).spec_round_block(
                    *parameters,
                    transactions_view(pending_transactions@),
                    match received_block {
                        Some(b) => Some(b@),
                        None => None,
                    },
                    timestamp,
                ) {
                    Some(finalized) => {
                        &&& outcome matches RoundOutcome::Finalized { block, proposed_locally }
                        &&& block@ == finalized
                        &&& proposed_locally == old(self).spec_leads(*parameters)
                        &&& final(self).spec_chain_head() == finalized
                        &&& final(self).spec_height() == old(self).spec_height() + 1
                        &&& final(self).spec_accounts() == spec_apply_all(
                            old(self).spec_accounts(),
                            finalized.transactions,
                        )
                        &&& final(self).spec_stakes() == spec_rewarded(
                            old(self).spec_stakes(),
                            old(self).spec_stakes(),
                            old(self).spec_total_staked(),
                            old(self).spec_round_parameters(*parameters).base_reward,
                            old(self).spec_round_parameters(*parameters).reward_per_transaction,
                            finalized.transactions.len(),
                            old(self).spec_round_leader(*parameters).unwrap(),
                        )
                    },
                    None => {
                        &&& outcome is TimedOut
                        &&& final(self).spec_chain_head() == old(self).spec_chain_head()
                        &&& final(self).spec_accounts() == old(self).spec_accounts()
                        &&& final(self).spec_stakes() == old(self).spec_stakes()
                    },
                }
            },
    {
        if self.consensus_state.round() == u64::MAX {
            return RoundOutcome::Halted;
        }
        let snapshot = self.consensus_state.validators().snapshot();
        self.select_validators(parameters);
        let proposed = self.propose_block(&snapshot, pending_transactions, timestamp);
        let leads = match self.consensus_state.current_leader() {
            Some(id) => id == self.local_id,
            None => false,
        };
        let candidate = if leads {
            proposed
        } else {
            received_block
        };
        match candidate {
            None => {
                self.consensus_state.advance_round();
                RoundOutcome::TimedOut
            },
            Some(block) => {
                if !self.validate_block(&block) {
                    self.consensus_state.advance_round();
                    return RoundOutcome::TimedOut;
                }
                let copy = block.duplicate();
                match self.finalize_block(block, &snapshot) {
                    Ok(()) => RoundOutcome::Finalized { block: copy, proposed_locally: leads },
                    Err(_) => {
                        self.consensus_state.advance_round();
                        RoundOutcome::TimedOut
                    },
                }
            },
        }
    }
}

} // verus!
