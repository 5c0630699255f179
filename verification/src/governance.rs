//! Governance: proposals, votes, and the parameters in force.

use vstd::prelude::*;
use std::collections::HashMap;
use crate::consensus_state::ConsensusState;
use crate::validator_set::{Validator, ValidatorView};

verus! {

/// Enum representing the status of a proposal.
#[derive(Debug, Clone, Copy, PartialEq, Eq, Structural)]
pub enum ProposalStatus {
    Pending,
    Active,
    Approved,
    Rejected,
}

/// Represents a governance proposal in the blockchain.
#[derive(Debug, Clone, PartialEq, Eq)]
pub struct Proposal {
    pub id: u64,
    pub proposer: Validator,
    pub description: String,
    /// First block of the voting window.
    pub start_block: u64,
    /// Last block of the voting window.
    pub end_block: u64,
    pub votes_for: u64,
    pub votes_against: u64,
    pub status: ProposalStatus,
}

/// What a [`Proposal`] holds, as plain mathematical values.
pub ghost struct ProposalView {
    pub id: u64,
    pub proposer: ValidatorView,
    pub description: Seq<char>,
    pub start_block: u64,
    pub end_block: u64,
    pub votes_for: u64,
    pub votes_against: u64,
    pub status: ProposalStatus,
}

impl View for Proposal {
    type V = ProposalView;

    open spec fn view(&self) -> ProposalView {
        ProposalView {
            id: self.id,
            proposer: self.proposer@,
            description: self.description@,
            start_block: self.start_block,
            end_block: self.end_block,
            votes_for: self.votes_for,
            votes_against: self.votes_against,
            status: self.status,
        }
    }
}

/// The parameters that governance has put in force.
#[derive(Debug, Clone, Copy, PartialEq, Eq, Structural)]
pub struct EffectiveParameters {
    /// The reward rate of the stake table.
    pub reward_rate: u64,
    /// The smallest stake with which a validator is admitted or selected.
    pub minimum_stake_threshold: u64,
    /// The largest number of validators selected for an epoch.
    pub max_validators: usize,
    /// The base reward of a block.
    pub base_reward: u64,
    /// The reward for each transaction of a block.
    pub reward_per_transaction: u64,
}

/// The views of the proposals of a map, by identifier.
pub open spec fn proposals_view(proposals: Map<u64, Proposal>) -> Map<u64, ProposalView> {
    Map::new(|id: u64| proposals.contains_key(id), |id: u64| proposals[id]@)
}

/// The proposals with `proposal` under its identifier, in the place of an
/// earlier proposal of that identifier.
pub open spec fn spec_submit(
    proposals: Map<u64, ProposalView>,
    proposal: ProposalView,
) -> Map<u64, ProposalView> {
    proposals.insert(proposal.id, proposal)
}

/// Whether a vote on the proposal `id` can be counted: the tally that it
/// raises is below `u64::MAX`, or there is no such proposal.
pub open spec fn spec_tally_has_room(
    proposals: Map<u64, ProposalView>,
    id: u64,
    vote: bool,
) -> bool {
    if proposals.contains_key(id) {
        if vote {
            proposals[id].votes_for < u64::MAX
        } else {
            proposals[id].votes_against < u64::MAX
        }
    } else {
        true
    }
}

/// The proposal with one more vote for it, or one more against it.
pub open spec fn spec_voted(proposal: ProposalView, vote: bool) -> ProposalView {
    if vote {
        ProposalView { votes_for: (proposal.votes_for + 1) as u64, ..proposal }
    } else {
        ProposalView { votes_against: (proposal.votes_against + 1) as u64, ..proposal }
    }
}

/// The proposals after a vote on the proposal `id`.  Where there is no such
/// proposal they are as they were.
pub open spec fn spec_vote(
    proposals: Map<u64, ProposalView>,
    id: u64,
    vote: bool,
) -> Map<u64, ProposalView> {
    if proposals.contains_key(id) {
        proposals.insert(id, spec_voted(proposals[id], vote))
    } else {
        proposals
    }
}

/// The proposal as it stands at `current_block`: once its voting window has
/// passed it is approved where the votes for it outnumber the votes
/// against, and rejected otherwise; within the window it is as it was.
pub open spec fn spec_settled(proposal: ProposalView, current_block: u64) -> ProposalView {
    if current_block > proposal.end_block {
        ProposalView {
            status: if proposal.votes_for > proposal.votes_against {
                ProposalStatus::Approved
            } else {
                ProposalStatus::Rejected
            },
            ..proposal
        }
    } else {
        proposal
    }
}

/// The proposals, each as it stands at `current_block`.
pub open spec fn spec_update_status(
    proposals: Map<u64, ProposalView>,
    current_block: u64,
) -> Map<u64, ProposalView> {
    Map::new(
        |id: u64| proposals.contains_key(id),
        |id: u64| spec_settled(proposals[id], current_block),
    )
}

/// The parameters that are in force on a consensus state.
pub open spec fn spec_parameters_of(state: &ConsensusState) -> EffectiveParameters {
    EffectiveParameters {
        reward_rate: state.spec_validators().spec_stake_manager().spec_reward_rate(),
        minimum_stake_threshold: state.spec_validators().spec_minimum_stake(),
        max_validators: state.spec_validators().spec_max_validators(),
        base_reward: state.spec_base_reward(),
        reward_per_transaction: state.spec_reward_per_transaction(),
    }
}

/// Puts `parameters` in force on the consensus state: the reward
/// parameters, the minimum stake, the size of the active set and the reward
/// rate.  Chain head, round, roster and stakes stay as they are.
pub fn apply_parameters(parameters: &EffectiveParameters, consensus_state: &mut ConsensusState)
    requires
        old(consensus_state).wf(),
    ensures
        spec_parameters_of(final(consensus_state)) == *parameters,
        final(consensus_state).spec_current_block() == old(consensus_state).spec_current_block(),
        final(consensus_state).spec_round() == old(consensus_state).spec_round(),
        final(consensus_state).spec_validators()@ == old(consensus_state).spec_validators()@,
        final(consensus_state).spec_validators().spec_stakes()
            == old(consensus_state).spec_validators().spec_stakes(),
        final(consensus_state).spec_validators().spec_stake_manager().spec_total_staked()
            == old(consensus_state).spec_validators().spec_stake_manager().spec_total_staked(),
        final(consensus_state).spec_validators().spec_seed()
            == old(consensus_state).spec_validators().spec_seed(),
        final(consensus_state).spec_validators().spec_epoch()
            == old(consensus_state).spec_validators().spec_epoch(),
        final(consensus_state).wf(),
{
    consensus_state.set_reward_parameters(
        parameters.base_reward,
        parameters.reward_per_transaction,
    );
    let validators = consensus_state.validators_mut();
    validators.apply_parameters(parameters.minimum_stake_threshold, parameters.max_validators);
    validators.update_reward_rate(parameters.reward_rate);
}

/// Governance module for managing proposals and voting.
pub struct Governance {
    proposals: HashMap<u64, Proposal>,
    /// The identifiers of the proposals, in the order of their submission.
    /// The map is walked by this list.
    ids: Vec<u64>,
    parameters: EffectiveParameters,
}

impl View for Governance {
    type V = Map<u64, ProposalView>;

    closed spec fn view(&self) -> Map<u64, ProposalView> {
        proposals_view(self.proposals@)
    }
}

impl Governance {
    /// The parameters in force.
    pub closed spec fn spec_parameters(&self) -> EffectiveParameters {
        self.parameters
    }

    /// The identifiers of the proposals, in the order of their submission.
    pub closed spec fn spec_ids(&self) -> Seq<u64> {
        self.ids@
    }

    /// The list of identifiers names every proposal once.
    pub open spec fn wf(&self) -> bool {
        &&& self.spec_ids().no_duplicates()
        &&& forall|id: u64| self.spec_ids().contains(id) <==> #[trigger] self@.contains_key(id)
    }

    /// Creates a new governance module without proposals, with `parameters`
    /// in force.
    pub fn new(parameters: EffectiveParameters) -> (governance: Self)
        ensures
            governance@ == Map::<u64, ProposalView>::empty(),
            governance.spec_parameters() == parameters,
            governance.wf(),
    {
        let governance = Governance { proposals: HashMap::new(), ids: Vec::new(), parameters };
        assert(governance@ =~= Map::<u64, ProposalView>::empty());
        governance
    }

    /// Submits a new proposal to the blockchain.  A proposal with the same
    /// identifier is replaced.
    pub fn submit_proposal(&mut self, proposal: Proposal)
        requires
            old(self).wf(),
        ensures
            final(self)@ == spec_submit(old(self)@, proposal@),
            final(self).spec_parameters() == old(self).spec_parameters(),
            final(self).wf(),
    {
        let id = proposal.id;
        if !self.proposals.contains_key(&id) {
            self.ids.push(id);
            assert forall|a: int, b: int|
                0 <= a < self.ids@.len() && 0 <= b < self.ids@.len() && a != b implies self.ids@[a]
                != self.ids@[b] by {
                if a < old(self).ids@.len() && b < old(self).ids@.len() {
                } else {
                    let other = if a < old(self).ids@.len() { a } else { b };
                    assert(old(self).ids@.contains(old(self).ids@[other]));
                    assert(old(self)@.contains_key(old(self).ids@[other]));
                    assert(!old(self)@.contains_key(id));
                }
            }
        }
        self.proposals.insert(id, proposal);
        assert(self@ =~= spec_submit(old(self)@, proposal@));
        assert forall|k: u64| self.ids@.contains(k) <==> #[trigger] self@.contains_key(k) by {
            if old(self).ids@.contains(k) {
                let j = choose|j: int| 0 <= j < old(self).ids@.len() && old(self).ids@[j] == k;
                assert(self.ids@[j] == k);
            }
            if k == id {
                if old(self)@.contains_key(id) {
                    assert(old(self).ids@.contains(id));
                } else {
                    assert(self.ids@[self.ids@.len() - 1] == id);
                }
            }
            if self.ids@.contains(k) && k != id {
                let j = choose|j: int| 0 <= j < self.ids@.len() && self.ids@[j] == k;
                assert(old(self).ids@[j] == k);
            }
        }
    }

    /// Whether a vote on the proposal can be counted.
    pub fn tally_has_room(&self, proposal_id: u64, vote: bool) -> (room: bool)
        ensures
            room == spec_tally_has_room(self@, proposal_id, vote),
    {
        match self.proposals.get(&proposal_id) {
            None => true,
            Some(proposal) => if vote {
                proposal.votes_for < u64::MAX
            } else {
                proposal.votes_against < u64::MAX
            },
        }
    }

    /// Allows validators to vote on a proposal.
    pub fn vote(&mut self, proposal_id: u64, validator: &Validator, vote: bool)
        requires
            old(self).wf(),
            spec_tally_has_room(old(self)@, proposal_id, vote),
        ensures
            final(self)@ == spec_vote(old(self)@, proposal_id, vote),
            final(self).spec_parameters() == old(self).spec_parameters(),
            final(self).wf(),
    {
        let updated = match self.proposals.get(&proposal_id) {
            None => {
                return ;
            },
            Some(current) => Proposal {
                id: current.id,
                proposer: current.proposer.duplicate(),
                description: current.description.clone(),
                start_block: current.start_block,
                end_block: current.end_block,
                votes_for: if vote {
                    current.votes_for + 1
                } else {
                    current.votes_for
                },
                votes_against: if vote {
                    current.votes_against
                } else {
                    current.votes_against + 1
                },
                status: current.status,
            },
        };
        self.proposals.insert(proposal_id, updated);
        assert(self@ =~= spec_vote(old(self)@, proposal_id, vote));
    }

    /// Updates the status of proposals based on votes and current block
    /// number.
    pub fn update_proposal_status(&mut self, current_block: u64)
        requires
            old(self).wf(),
        ensures
            final(self)@ == spec_update_status(old(self)@, current_block),
            final(self).spec_parameters() == old(self).spec_parameters(),
            final(self).wf(),
    {
        let ghost before = self@;
        let mut i: usize = 0;
        while i < self.ids.len()
            invariant
                i <= self.ids.len(),
                self.ids == old(self).ids,
                self.parameters == old(self).parameters,
                before == old(self)@,
                old(self).wf(),
                forall|id: u64| self@.contains_key(id) <==> before.contains_key(id),
                forall|id: u64| #[trigger]
                    before.contains_key(id) ==> self@[id] == if self.ids@.take(i as int).contains(
                        id,
                    ) {
                        spec_settled(before[id], current_block)
                    } else {
                        before[id]
                    },
            decreases self.ids.len() - i,
        {
            let id = self.ids[i];
            let ghost done = self.ids@.take(i as int);
            let ghost next = self.ids@.take(i + 1);
            let ghost now = self@;
            proof {
                assert(self.ids@.contains(id));
                assert(before.contains_key(id));
                assert(!done.contains(id)) by {
                    if done.contains(id) {
                        let j = choose|j: int| 0 <= j < done.len() && done[j] == id;
                        assert(self.ids@[j] == self.ids@[i as int]);
                    }
                }
            }
            let settled = match self.proposals.get(&id) {
                None => {
                    i += 1;
                    continue ;
                },
                Some(proposal) => Proposal {
                    id: proposal.id,
                    proposer: proposal.proposer.duplicate(),
                    description: proposal.description.clone(),
                    start_block: proposal.start_block,
                    end_block: proposal.end_block,
                    votes_for: proposal.votes_for,
                    votes_against: proposal.votes_against,
                    status: if current_block > proposal.end_block {
                        if proposal.votes_for > proposal.votes_against {
                            ProposalStatus::Approved
                        } else {
                            ProposalStatus::Rejected
                        }
                    } else {
                        proposal.status
                    },
                },
            };
            self.proposals.insert(id, settled);
            proof {
                assert(self@ =~= now.insert(id, spec_settled(before[id], current_block)));
                assert forall|k: u64| #[trigger] before.contains_key(k) implies self@[k]
                    == if next.contains(
                    k,
                ) {
                    spec_settled(before[k], current_block)
                } else {
                    before[k]
                } by {
                    if k == id {
                        assert(next[i as int] == id);
                    } else {
                        if done.contains(k) {
                            let j = choose|j: int| 0 <= j < done.len() && done[j] == k;
                            assert(next[j] == k);
                        }
                        if next.contains(k) {
                            let j = choose|j: int| 0 <= j < next.len() && next[j] == k;
                            assert(done[j] == k);
                        }
                    }
                }
            }
            i += 1;
        }
        proof {
            assert(self.ids@.take(i as int) =~= self.ids@);
            assert(self@ =~= spec_update_status(before, current_block));
        }
    }

    /// Retrieves the current proposals, by identifier.
    pub fn get_proposals(&self) -> (proposals: &HashMap<u64, Proposal>)
        ensures
            proposals_view(proposals@) == self@,
    {
        &self.proposals
    }

    /// The parameters in force.
    pub fn get_effective_parameters(&self) -> (parameters: EffectiveParameters)
        ensures
            parameters == self.spec_parameters(),
    {
        self.parameters
    }

    /// Puts other parameters in force.
    pub fn set_effective_parameters(&mut self, parameters: EffectiveParameters)
        ensures
            final(self)@ == old(self)@,
            final(self).spec_parameters() == parameters,
    {
        self.parameters = parameters;
    }

    /// Applies the parameters in force to the consensus state.  Chain head,
    /// round, roster and stakes stay as they are.
    pub fn apply_governance_changes(&self, consensus_state: &mut ConsensusState)
        requires
            old(consensus_state).wf(),
        ensures
            spec_parameters_of(final(consensus_state)) == self.spec_parameters(),
            final(consensus_state).spec_current_block()
                == old(consensus_state).spec_current_block(),
            final(consensus_state).spec_round() == old(consensus_state).spec_round(),
            final(consensus_state).spec_validators()@ == old(consensus_state).spec_validators()@,
            final(consensus_state).spec_validators().spec_stakes()
                == old(consensus_state).spec_validators().spec_stakes(),
            final(consensus_state).wf(),
    {
        apply_parameters(&self.parameters, consensus_state);
    }
}

} // verus!
