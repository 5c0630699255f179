//! The validator roster: membership, liveness, and the rotation of the
//! active set at epoch boundaries.

use vstd::prelude::*;
use crate::delegations::{spec_pair_lowered, spec_pair_raised, DelegationView};
use crate::error::ConsensusError;
use crate::keyed::{key_index, lemma_key_index_absent, lemma_key_index_found, lemma_key_index_push,
    lemma_key_index_remove, lemma_key_index_valid};
use crate::selection::{draw, spec_sample};
use crate::sorting::{lemma_sort_canonical, lemma_sort_members, lemma_sort_sorted, sort_by_id,
    spec_same_members, spec_sort};
use crate::stake_manager::{lemma_distribute_keeps_weights, lemma_put, lemma_record_within_total,
    rewards_view, spec_delegate, spec_distribute, spec_record, spec_remove_stake, spec_set_stake,
    spec_undelegate, spec_weight, StakeManager, StakeSnapshot, StakerView};

verus! {

/// A validator of the roster.
#[derive(Debug, Clone, PartialEq, Eq)]
pub struct Validator {
    /// The validator's identifier: its address in the stake table.
    pub id: String,
    /// The validator's voting weight.
    pub stake: u64,
    /// Whether the validator belongs to the active set.
    pub is_active: bool,
    /// The last epoch for which the validator was selected.
    pub last_active_epoch: u64,
}

/// What a [`Validator`] holds, as plain mathematical values.
pub ghost struct ValidatorView {
    pub id: Seq<char>,
    pub stake: u64,
    pub is_active: bool,
    pub last_active_epoch: u64,
}

impl View for Validator {
    type V = ValidatorView;

    open spec fn view(&self) -> ValidatorView {
        ValidatorView {
            id: self.id@,
            stake: self.stake,
            is_active: self.is_active,
            last_active_epoch: self.last_active_epoch,
        }
    }
}

/// The views of a sequence of validators, in the same order.
pub open spec fn validators_view(validators: Seq<Validator>) -> Seq<ValidatorView> {
    Seq::new(validators.len(), |i: int| validators[i]@)
}

impl Validator {
    /// A fresh validator with the same content.
    pub fn duplicate(&self) -> (copy: Self)
        ensures
            copy@ == self@,
    {
        Validator {
            id: self.id.clone(),
            stake: self.stake,
            is_active: self.is_active,
            last_active_epoch: self.last_active_epoch,
        }
    }
}

/// The smallest stake with which a validator is admitted, until the
/// parameters in force say otherwise.
pub const DEFAULT_MINIMUM_STAKE: u64 = 1;

/// The largest number of validators selected for an epoch, until the
/// parameters in force say otherwise.
pub const DEFAULT_MAX_VALIDATORS: usize = 100;

/// The identifiers of a roster, in roster order.
pub open spec fn spec_validator_ids(validators: Seq<ValidatorView>) -> Seq<Seq<char>> {
    Seq::new(validators.len(), |i: int| validators[i].id)
}

/// A roster is well formed when no identifier occurs twice.
pub open spec fn spec_roster_wf(validators: Seq<ValidatorView>) -> bool {
    spec_validator_ids(validators).no_duplicates()
}

/// Whether every validator's stake is the voting weight that the stake
/// table records for it.
pub open spec fn spec_mirrors(validators: Seq<ValidatorView>, records: Seq<StakerView>) -> bool {
    forall|i: int|
        0 <= i < validators.len() ==> (#[trigger] validators[i]).stake == spec_weight(
            spec_record(records, validators[i].id),
        )
}

/// The roster with every stake brought up to the weight that the stake
/// table records.
pub open spec fn spec_synced(
    validators: Seq<ValidatorView>,
    records: Seq<StakerView>,
) -> Seq<ValidatorView> {
    Seq::new(
        validators.len(),
        |i: int|
            ValidatorView {
                stake: spec_weight(spec_record(records, validators[i].id)) as u64,
                ..validators[i]
            },
    )
}

/// The roster in which `validator` stands for its identifier: in the place
/// of the earlier validator of that identifier, or at the end.
pub open spec fn spec_put_validator(
    validators: Seq<ValidatorView>,
    validator: ValidatorView,
) -> Seq<ValidatorView> {
    match key_index(spec_validator_ids(validators), validator.id) {
        Some(i) => validators.update(i, validator),
        None => validators.push(validator),
    }
}

/// The roster without the validator `id`.
pub open spec fn spec_drop_validator(
    validators: Seq<ValidatorView>,
    id: Seq<char>,
) -> Seq<ValidatorView> {
    match key_index(spec_validator_ids(validators), id) {
        Some(i) => validators.remove(i),
        None => validators,
    }
}

/// The roster in which the validator `id`, if there is one, has the active
/// flag `is_active`.
pub open spec fn spec_with_status(
    validators: Seq<ValidatorView>,
    id: Seq<char>,
    is_active: bool,
) -> Seq<ValidatorView> {
    match key_index(spec_validator_ids(validators), id) {
        Some(i) => validators.update(i, ValidatorView { is_active, ..validators[i] }),
        None => validators,
    }
}

/// The active validators of a roster, in roster order.
pub open spec fn spec_active(validators: Seq<ValidatorView>) -> Seq<ValidatorView>
    decreases validators.len(),
{
    if validators.len() == 0 {
        Seq::empty()
    } else if validators.last().is_active {
        spec_active(validators.drop_last()).push(validators.last())
    } else {
        spec_active(validators.drop_last())
    }
}

/// The validators of a roster whose stake is at least `minimum`, in roster
/// order.
pub open spec fn spec_eligible(validators: Seq<ValidatorView>, minimum: u64) -> Seq<ValidatorView>
    decreases validators.len(),
{
    if validators.len() == 0 {
        Seq::empty()
    } else if validators.last().stake >= minimum {
        spec_eligible(validators.drop_last(), minimum).push(validators.last())
    } else {
        spec_eligible(validators.drop_last(), minimum)
    }
}

/// The validators selected for the next epoch: up to `max` of the eligible
/// ones, drawn by stake without replacement from `seed`.  The draws are
/// made from the eligible validators in the order of their identifiers.
pub open spec fn spec_select(
    seed: Seq<u8>,
    validators: Seq<ValidatorView>,
    minimum: u64,
    max: nat,
) -> Seq<ValidatorView> {
    spec_sample(seed, spec_sort(spec_eligible(validators, minimum)), max, 0)
}

/// The roster after a rotation: the validators whose identifiers are among
/// `selected` are active and have `epoch` as their last active epoch; the
/// others are inactive.
pub open spec fn spec_rotated(
    validators: Seq<ValidatorView>,
    selected: Seq<Seq<char>>,
    epoch: u64,
) -> Seq<ValidatorView> {
    Seq::new(
        validators.len(),
        |i: int|
            if selected.contains(validators[i].id) {
                ValidatorView { is_active: true, last_active_epoch: epoch, ..validators[i] }
            } else {
                ValidatorView { is_active: false, ..validators[i] }
            },
    )
}

/// The outcome of adding the validator `id` with `stake`: refused with
/// `InsufficientStake` below the minimum, and with the error of the stake
/// table where that refuses the stake.  Otherwise the stake table records
/// the stake, and the roster holds the validator, inactive, with the weight
/// that the table then records for it.
pub open spec fn spec_add_validator(
    validators: Seq<ValidatorView>,
    records: Seq<StakerView>,
    minimum: u64,
    id: Seq<char>,
    stake: u64,
) -> Result<(Seq<ValidatorView>, Seq<StakerView>), ConsensusError> {
    if stake < minimum {
        Err(ConsensusError::InsufficientStake)
    } else {
        match spec_set_stake(records, id, stake as int) {
            Err(e) => Err(e),
            Ok(updated) => Ok(
                (
                    spec_put_validator(
                        validators,
                        ValidatorView {
                            id,
                            stake: spec_weight(spec_record(updated, id)) as u64,
                            is_active: false,
                            last_active_epoch: 0,
                        },
                    ),
                    updated,
                ),
            ),
        }
    }
}

/// Every eligible validator is a validator of the roster with at least the
/// minimum stake.
pub proof fn lemma_eligible_members(validators: Seq<ValidatorView>, minimum: u64)
    ensures
        forall|k: int|
            0 <= k < spec_eligible(validators, minimum).len() ==> validators.contains(
                #[trigger] spec_eligible(validators, minimum)[k],
            ) && spec_eligible(validators, minimum)[k].stake >= minimum,
    decreases validators.len(),
{
    if validators.len() > 0 {
        let front = validators.drop_last();
        lemma_eligible_members(front, minimum);
        let chosen = spec_eligible(validators, minimum);
        assert forall|k: int| 0 <= k < chosen.len() implies validators.contains(
            #[trigger] chosen[k],
        )
            && chosen[k].stake >= minimum by {
            if k < spec_eligible(front, minimum).len() {
                let v = spec_eligible(front, minimum)[k];
                assert(front.contains(v));
                let j = choose|j: int| 0 <= j < front.len() && front[j] == v;
                assert(validators[j] == v);
            } else {
                assert(chosen[k] == validators[validators.len() - 1]);
            }
        }
    }
}

/// The validators selected for an epoch are validators of the roster, each
/// with at least the minimum stake, and no more than `max` of them.
pub proof fn lemma_selected_members(
    seed: Seq<u8>,
    validators: Seq<ValidatorView>,
    minimum: u64,
    max: nat,
)
    ensures
        spec_select(seed, validators, minimum, max).len() <= max,
        forall|k: int|
            0 <= k < spec_select(seed, validators, minimum, max).len() ==> validators.contains(
                #[trigger] spec_select(seed, validators, minimum, max)[k],
            ) && spec_select(seed, validators, minimum, max)[k].stake >= minimum,
{
    let eligible = spec_eligible(validators, minimum);
    let pool = spec_sort(eligible);
    let selected = spec_select(seed, validators, minimum, max);
    crate::selection::lemma_sample_from_pool(seed, pool, max, 0);
    lemma_eligible_members(validators, minimum);
    assert forall|k: int| 0 <= k < selected.len() implies validators.contains(
        #[trigger] selected[k],
    )
        && selected[k].stake >= minimum by {
        assert(pool.contains(selected[k]));
        lemma_sort_members(eligible, selected[k]);
        let j = choose|j: int| 0 <= j < eligible.len() && eligible[j] == selected[k];
        assert(validators.contains(eligible[j]));
    }
}

/// A validator is eligible exactly if the roster holds it and its stake is
/// at least the minimum.
pub proof fn lemma_eligible_iff(validators: Seq<ValidatorView>, minimum: u64, v: ValidatorView)
    ensures
        spec_eligible(validators, minimum).contains(v) <==> validators.contains(v) && v.stake
            >= minimum,
    decreases validators.len(),
{
    lemma_eligible_members(validators, minimum);
    let chosen = spec_eligible(validators, minimum);
    if chosen.contains(v) {
        let k = choose|k: int| 0 <= k < chosen.len() && chosen[k] == v;
        assert(validators.contains(chosen[k]) && chosen[k].stake >= minimum);
    }
    if validators.contains(v) && v.stake >= minimum {
        let front = validators.drop_last();
        lemma_eligible_iff(front, minimum, v);
        let j = choose|j: int| 0 <= j < validators.len() && validators[j] == v;
        if j < validators.len() - 1 {
            assert(front[j] == v);
            let k = choose|k: int|
                0 <= k < spec_eligible(front, minimum).len() && spec_eligible(front, minimum)[k]
                    == v;
            assert(chosen[k] == v);
        } else {
            assert(chosen[chosen.len() - 1] == v);
        }
    }
}

/// A validator is among the active ones exactly if the roster holds it and
/// it is flagged active.
pub proof fn lemma_active_iff(validators: Seq<ValidatorView>, v: ValidatorView)
    ensures
        spec_active(validators).contains(v) <==> validators.contains(v) && v.is_active,
    decreases validators.len(),
{
    lemma_active_members(validators);
    let chosen = spec_active(validators);
    if chosen.contains(v) {
        let k = choose|k: int| 0 <= k < chosen.len() && chosen[k] == v;
        assert(validators.contains(chosen[k]) && chosen[k].is_active);
    }
    if validators.contains(v) && v.is_active {
        let front = validators.drop_last();
        lemma_active_iff(front, v);
        let j = choose|j: int| 0 <= j < validators.len() && validators[j] == v;
        if j < validators.len() - 1 {
            assert(front[j] == v);
            let k = choose|k: int| 0 <= k < spec_active(front).len() && spec_active(front)[k] == v;
            assert(chosen[k] == v);
        } else {
            assert(chosen[chosen.len() - 1] == v);
        }
    }
}

/// The active validators of a well-formed roster have distinct identifiers.
pub proof fn lemma_active_distinct(validators: Seq<ValidatorView>)
    requires
        spec_roster_wf(validators),
    ensures
        spec_roster_wf(spec_active(validators)),
    decreases validators.len(),
{
    if validators.len() > 0 {
        let front = validators.drop_last();
        let keys = spec_validator_ids(validators);
        assert forall|a: int, b: int|
            0 <= a < front.len() && 0 <= b < front.len() && a != b implies spec_validator_ids(
            front,
        )[a] != spec_validator_ids(front)[b] by {
            assert(keys[a] != keys[b]);
        }
        lemma_active_distinct(front);
        lemma_active_members(front);
        let inner = spec_active(front);
        let chosen = spec_validator_ids(spec_active(validators));
        assert forall|a: int, b: int|
            0 <= a < chosen.len() && 0 <= b < chosen.len() && a != b implies chosen[a]
            != chosen[b] by {
            if a < inner.len() && b < inner.len() {
                assert(spec_validator_ids(inner)[a] != spec_validator_ids(inner)[b]);
            } else {
                let other = if a < inner.len() { a } else { b };
                assert(front.contains(inner[other]));
                let j = choose|j: int| 0 <= j < front.len() && front[j] == inner[other];
                assert(keys[j] != keys[validators.len() - 1]);
            }
        }
    }
}

/// Selection does not depend on the order of the roster: two rosters that
/// hold the same validators select the same validators in the same order.
pub proof fn lemma_selection_canonical(
    seed: Seq<u8>,
    first: Seq<ValidatorView>,
    second: Seq<ValidatorView>,
    minimum: u64,
    max: nat,
)
    requires
        spec_roster_wf(first),
        spec_roster_wf(second),
        spec_same_members(first, second),
    ensures
        spec_select(seed, first, minimum, max) == spec_select(seed, second, minimum, max),
{
    lemma_eligible_distinct(first, minimum);
    lemma_eligible_distinct(second, minimum);
    assert forall|v: ValidatorView|
        spec_eligible(first, minimum).contains(v) <==> spec_eligible(second, minimum).contains(
            v,
        ) by {
        lemma_eligible_iff(first, minimum, v);
        lemma_eligible_iff(second, minimum, v);
    }
    lemma_sort_canonical(spec_eligible(first, minimum), spec_eligible(second, minimum));
}

/// Every active validator of a roster is a validator of the roster, and is
/// flagged active.
pub proof fn lemma_active_members(validators: Seq<ValidatorView>)
    ensures
        forall|k: int|
            0 <= k < spec_active(validators).len() ==> validators.contains(
                #[trigger] spec_active(validators)[k],
            ) && spec_active(validators)[k].is_active,
    decreases validators.len(),
{
    if validators.len() > 0 {
        let front = validators.drop_last();
        lemma_active_members(front);
        let chosen = spec_active(validators);
        assert forall|k: int| 0 <= k < chosen.len() implies validators.contains(
            #[trigger] chosen[k],
        )
            && chosen[k].is_active by {
            if k < spec_active(front).len() {
                let v = spec_active(front)[k];
                assert(front.contains(v));
                let j = choose|j: int| 0 <= j < front.len() && front[j] == v;
                assert(validators[j] == v);
            } else {
                assert(chosen[k] == validators[validators.len() - 1]);
            }
        }
    }
}

/// No validator is selected twice for an epoch.
pub proof fn lemma_selected_distinct(
    seed: Seq<u8>,
    validators: Seq<ValidatorView>,
    minimum: u64,
    max: nat,
)
    requires
        spec_roster_wf(validators),
    ensures
        spec_roster_wf(spec_select(seed, validators, minimum, max)),
{
    lemma_eligible_distinct(validators, minimum);
    lemma_sort_sorted(spec_eligible(validators, minimum));
    crate::selection::lemma_sample_distinct(
        seed,
        spec_sort(spec_eligible(validators, minimum)),
        max,
        0,
    );
}

/// The eligible validators of a well-formed roster have distinct
/// identifiers, and each of their identifiers is one of the roster.
pub proof fn lemma_eligible_distinct(validators: Seq<ValidatorView>, minimum: u64)
    requires
        spec_roster_wf(validators),
    ensures
        spec_roster_wf(spec_eligible(validators, minimum)),
        forall|k: int|
            0 <= k < spec_eligible(validators, minimum).len() ==> spec_validator_ids(
                validators,
            ).contains(#[trigger] spec_validator_ids(spec_eligible(validators, minimum))[k]),
    decreases validators.len(),
{
    if validators.len() > 0 {
        let front = validators.drop_last();
        let keys = spec_validator_ids(validators);
        assert forall|a: int, b: int|
            0 <= a < front.len() && 0 <= b < front.len() && a != b implies spec_validator_ids(
            front,
        )[a] != spec_validator_ids(front)[b] by {
            assert(keys[a] != keys[b]);
        }
        lemma_eligible_distinct(front, minimum);
        let inner = spec_validator_ids(spec_eligible(front, minimum));
        let chosen = spec_validator_ids(spec_eligible(validators, minimum));
        assert forall|k: int| 0 <= k < chosen.len() implies keys.contains(#[trigger] chosen[k]) by {
            if k < inner.len() {
                assert(chosen[k] == inner[k]);
                assert(spec_validator_ids(front).contains(inner[k]));
                let j = choose|j: int|
                    0 <= j < front.len() && spec_validator_ids(front)[j] == inner[k];
                assert(keys[j] == inner[k]);
            } else {
                assert(keys[validators.len() - 1] == chosen[k]);
            }
        }
        assert forall|a: int, b: int|
            0 <= a < chosen.len() && 0 <= b < chosen.len() && a != b implies chosen[a]
            != chosen[b] by {
            if a < inner.len() && b < inner.len() {
                assert(inner[a] != inner[b]);
            } else {
                let other = if a < inner.len() { a } else { b };
                assert(chosen[other] == inner[other]);
                assert(spec_validator_ids(front).contains(inner[other]));
                let j = choose|j: int|
                    0 <= j < front.len() && spec_validator_ids(front)[j] == inner[other];
                assert(keys[j] != keys[validators.len() - 1]);
            }
        }
    }
}

/// Selection is a function of the seed, the roster and the two parameters:
/// two computations on equal inputs select the same validators in the same
/// order.
pub proof fn lemma_selection_deterministic(
    seed_a: Seq<u8>,
    validators_a: Seq<ValidatorView>,
    seed_b: Seq<u8>,
    validators_b: Seq<ValidatorView>,
    minimum: u64,
    max: nat,
)
    requires
        seed_a == seed_b,
        validators_a == validators_b,
    ensures
        spec_select(seed_a, validators_a, minimum, max) == spec_select(
            seed_b,
            validators_b,
            minimum,
            max,
        ),
{
}

/// Putting a validator keeps the roster well formed; the validator stands at
/// the position of its identifier and every other position is as it was.
pub proof fn lemma_put_validator(validators: Seq<ValidatorView>, validator: ValidatorView)
    requires
        spec_roster_wf(validators),
    ensures
        spec_roster_wf(spec_put_validator(validators, validator)),
        forall|j: int|
            0 <= j < spec_put_validator(validators, validator).len() ==> (#[trigger] spec_put_validator(
                validators,
                validator,
            )[j]) == if spec_put_validator(validators, validator)[j].id == validator.id {
                validator
            } else {
                validators[j]
            },
        forall|j: int|
            0 <= j < spec_put_validator(validators, validator).len() && spec_put_validator(
                validators,
                validator,
            )[j].id != validator.id ==> j < validators.len(),
{
    let keys = spec_validator_ids(validators);
    let after = spec_put_validator(validators, validator);
    lemma_key_index_valid(keys, validator.id);
    match key_index(keys, validator.id) {
        Some(i) => {
            assert(spec_validator_ids(after) =~= keys);
            assert forall|j: int| 0 <= j < after.len() implies (#[trigger] after[j])
                == if after[j].id
                == validator.id {
                validator
            } else {
                validators[j]
            } by {
                if j != i {
                    assert(keys[j] != keys[i]);
                }
            }
        },
        None => {
            assert(spec_validator_ids(after) =~= keys.push(validator.id));
            lemma_key_index_push(keys, validator.id, validator.id);
            assert forall|j: int| 0 <= j < after.len() implies (#[trigger] after[j])
                == if after[j].id
                == validator.id {
                validator
            } else {
                validators[j]
            } by {
                if j < validators.len() {
                    assert(keys[j] != validator.id);
                }
            }
        },
    }
}

/// Whether `id` is the identifier of a validator of `list`.
pub fn contains_id(list: &Vec<Validator>, id: &String) -> (found: bool)
    ensures
        found == spec_validator_ids(validators_view(list@)).contains(id@),
{
    let ghost ids = spec_validator_ids(validators_view(list@));
    let mut i: usize = 0;
    while i < list.len()
        invariant
            i <= list.len(),
            ids == spec_validator_ids(validators_view(list@)),
            forall|k: int| 0 <= k < i ==> ids[k] != id@,
        decreases list.len() - i,
    {
        if list[i].id == *id {
            assert(ids[i as int] == id@);
            return true;
        }
        i += 1;
    }
    false
}

/// Manages the current set of validators.
pub struct ValidatorSet {
    validators: Vec<Validator>,
    stake_manager: StakeManager,
    minimum_stake: u64,
    max_validators: usize,
    seed: Vec<u8>,
    epoch: u64,
}

impl View for ValidatorSet {
    type V = Seq<ValidatorView>;

    closed spec fn view(&self) -> Seq<ValidatorView> {
        validators_view(self.validators@)
    }
}

impl ValidatorSet {
    /// The stake manager that the roster derives its stakes from.
    pub closed spec fn spec_stake_manager(&self) -> StakeManager {
        self.stake_manager
    }

    /// The records of the stake table.
    pub open spec fn spec_stakes(&self) -> Seq<StakerView> {
        self.spec_stake_manager()@
    }

    /// The smallest stake with which a validator is admitted or selected.
    pub closed spec fn spec_minimum_stake(&self) -> u64 {
        self.minimum_stake
    }

    /// The largest number of validators selected for an epoch.
    pub closed spec fn spec_max_validators(&self) -> usize {
        self.max_validators
    }

    /// The seed of the next selection.
    pub closed spec fn spec_seed(&self) -> Seq<u8> {
        self.seed@
    }

    /// The number of the epoch that the next rotation opens.
    pub closed spec fn spec_epoch(&self) -> u64 {
        self.epoch
    }

    /// No identifier occurs twice, the stake table is well formed, and every
    /// validator's stake is the weight that the table records for it.
    pub open spec fn wf(&self) -> bool {
        &&& spec_roster_wf(self@)
        &&& self.spec_stake_manager().wf()
        &&& spec_mirrors(self@, self.spec_stakes())
    }

    /// The delegations of the stake table.
    pub open spec fn spec_pairs(&self) -> Seq<DelegationView> {
        self.spec_stake_manager().spec_pairs()
    }

    /// The reward rate of the stake table.
    pub open spec fn spec_reward_rate(&self) -> u64 {
        self.spec_stake_manager().spec_reward_rate()
    }

    /// Whether seed, epoch and parameters are those of `other`.
    pub open spec fn spec_same_settings(&self, other: &Self) -> bool {
        &&& self.spec_minimum_stake() == other.spec_minimum_stake()
        &&& self.spec_max_validators() == other.spec_max_validators()
        &&& self.spec_seed() == other.spec_seed()
        &&& self.spec_epoch() == other.spec_epoch()
        &&& self.spec_reward_rate() == other.spec_reward_rate()
    }

    /// Initializes a new ValidatorSet without validators, with the default
    /// parameters, an empty seed and epoch zero.
    pub fn new(stake_manager: StakeManager) -> (set: Self)
        requires
            stake_manager.wf(),
        ensures
            set@ == Seq::<ValidatorView>::empty(),
            set.spec_stake_manager() == stake_manager,
            set.spec_minimum_stake() == DEFAULT_MINIMUM_STAKE,
            set.spec_max_validators() == DEFAULT_MAX_VALIDATORS,
            set.spec_seed() == Seq::<u8>::empty(),
            set.spec_epoch() == 0,
            set.wf(),
    {
        let set = ValidatorSet {
            validators: Vec::new(),
            stake_manager,
            minimum_stake: DEFAULT_MINIMUM_STAKE,
            max_validators: DEFAULT_MAX_VALIDATORS,
            seed: Vec::new(),
            epoch: 0,
        };
        assert(set@ =~= Seq::<ValidatorView>::empty());
        assert(spec_validator_ids(set@) =~= Seq::<Seq<char>>::empty());
        set
    }

    /// The stake manager, for reading.
    pub fn stake_manager(&self) -> (manager: &StakeManager)
        ensures
            *manager == self.spec_stake_manager(),
    {
        &self.stake_manager
    }

    /// The smallest stake with which a validator is admitted or selected.
    pub fn minimum_stake(&self) -> (minimum: u64)
        ensures
            minimum == self.spec_minimum_stake(),
    {
        self.minimum_stake
    }

    /// The largest number of validators selected for an epoch.
    pub fn max_validators(&self) -> (max: usize)
        ensures
            max == self.spec_max_validators(),
    {
        self.max_validators
    }

    /// The number of the epoch that the next rotation opens.
    pub fn epoch(&self) -> (epoch: u64)
        ensures
            epoch == self.spec_epoch(),
    {
        self.epoch
    }

    /// The number of validators, active or not.
    pub fn len(&self) -> (n: usize)
        ensures
            n == self@.len(),
    {
        self.validators.len()
    }

    /// Puts the parameters in force: the minimum stake and the size of the
    /// active set.  Validators already in the roster stay.
    pub fn apply_parameters(&mut self, minimum_stake: u64, max_validators: usize)
        ensures
            final(self)@ == old(self)@,
            final(self).spec_stake_manager() == old(self).spec_stake_manager(),
            final(self).spec_minimum_stake() == minimum_stake,
            final(self).spec_max_validators() == max_validators,
            final(self).spec_seed() == old(self).spec_seed(),
            final(self).spec_epoch() == old(self).spec_epoch(),
    {
        self.minimum_stake = minimum_stake;
        self.max_validators = max_validators;
    }

    /// Sets the number of the epoch that the next rotation opens and the
    /// seed from which its validators are drawn.
    pub fn begin_epoch(&mut self, epoch: u64, seed: Vec<u8>)
        ensures
            final(self)@ == old(self)@,
            final(self).spec_stake_manager() == old(self).spec_stake_manager(),
            final(self).spec_minimum_stake() == old(self).spec_minimum_stake(),
            final(self).spec_max_validators() == old(self).spec_max_validators(),
            final(self).spec_seed() == seed@,
            final(self).spec_epoch() == epoch,
    {
        self.epoch = epoch;
        self.seed = seed;
    }

    fn find(&self, id: &String) -> (found: Option<usize>)
        requires
            spec_roster_wf(self@),
        ensures
            found matches Some(i) ==> i < self.validators.len() && key_index(
                spec_validator_ids(self@),
                id@,
            ) == Some(i as int),
            found is None ==> key_index(spec_validator_ids(self@), id@) is None,
    {
        let ghost keys = spec_validator_ids(self@);
        let mut i: usize = 0;
        while i < self.validators.len()
            invariant
                i <= self.validators.len(),
                keys == spec_validator_ids(self@),
                keys.no_duplicates(),
                forall|k: int| 0 <= k < i ==> keys[k] != id@,
            decreases self.validators.len() - i,
        {
            if self.validators[i].id == *id {
                proof {
                    lemma_key_index_found(keys, id@, i as int);
                }
                return Some(i);
            }
            i += 1;
        }
        proof {
            lemma_key_index_absent(keys, id@);
        }
        None
    }

    /// Adds a new validator to the set, and records its stake in the stake
    /// table.  A validator that the set already holds is replaced.
    pub fn add_validator(
        &mut self,
        validator_id: String,
        stake: u64,
    ) -> (result: Result<(), ConsensusError>)
        requires
            old(self).wf(),
        ensures
            match spec_add_validator(
                old(self)@,
                old(self).spec_stakes(),
                old(self).spec_minimum_stake(),
                validator_id@,
                stake,
            ) {
                Ok((validators, records)) => {
                    &&& result is Ok
                    &&& final(self)@ == validators
                    &&& final(self).spec_stakes() == records
                },
                Err(e) => {
                    &&& result == Err::<(), ConsensusError>(e)
                    &&& final(self)@ == old(self)@
                    &&& final(self).spec_stakes() == old(self).spec_stakes()
                },
            },
            final(self).spec_pairs() == old(self).spec_pairs(),
            final(self).spec_same_settings(old(self)),
            final(self).wf(),
    {
        if stake < self.minimum_stake {
            return Err(ConsensusError::InsufficientStake);
        }
        match self.stake_manager.set_stake(validator_id.clone(), stake as i128) {
            Err(e) => {
                return Err(e);
            },
            Ok(()) => {},
        }
        let weight = self.stake_manager.get_weight(&validator_id);
        let validator = Validator {
            id: validator_id,
            stake: weight,
            is_active: false,
            last_active_epoch: 0,
        };
        proof {
            lemma_put_validator(old(self)@, validator@);
            let current = spec_record(old(self).spec_stakes(), validator@.id);
            assert forall|j: int| 0 <= j < old(self)@.len() && old(self)@[j].id
                != validator@.id implies spec_record(self.spec_stakes(), old(self)@[j].id)
                == spec_record(old(self).spec_stakes(), old(self)@[j].id) by {
                lemma_put(
                    old(self).spec_stakes(),
                    StakerView { stake, ..current },
                    old(self)@[j].id,
                );
            }
        }
        match self.find(&validator.id) {
            Some(i) => {
                self.validators[i] = validator;
                assert(self@ =~= old(self)@.update(i as int, validator@));
            },
            None => {
                self.validators.push(validator);
                assert(self@ =~= old(self)@.push(validator@));
            },
        }
        Ok(())
    }

    /// Updates the status of a validator.  A set without the validator
    /// stays as it is.
    pub fn update_validator_status(&mut self, validator_id: &String, is_active: bool)
        requires
            old(self).wf(),
        ensures
            final(self)@ == spec_with_status(old(self)@, validator_id@, is_active),
            final(self).spec_stake_manager() == old(self).spec_stake_manager(),
            final(self).spec_same_settings(old(self)),
            final(self).wf(),
    {
        match self.find(validator_id) {
            None => {},
            Some(i) => {
                let current = &self.validators[i];
                let updated = Validator {
                    id: current.id.clone(),
                    stake: current.stake,
                    is_active,
                    last_active_epoch: current.last_active_epoch,
                };
                self.validators[i] = updated;
                assert(self@ =~= old(self)@.update(
                    i as int,
                    ValidatorView { is_active, ..old(self)@[i as int] },
                ));
                assert(spec_validator_ids(self@) =~= spec_validator_ids(old(self)@));
            },
        }
    }

    /// Removes a validator from the set and sets its stake to zero in the
    /// stake table.
    pub fn remove_validator(&mut self, validator_id: &String)
        requires
            old(self).wf(),
        ensures
            final(self)@ == spec_drop_validator(old(self)@, validator_id@),
            final(self).spec_stakes() == spec_remove_stake(old(self).spec_stakes(), validator_id@),
            final(self).spec_pairs() == old(self).spec_pairs(),
            final(self).spec_same_settings(old(self)),
            final(self).wf(),
    {
        let ghost keys = spec_validator_ids(self@);
        match self.find(validator_id) {
            None => {
                proof {
                    lemma_key_index_valid(keys, validator_id@);
                    assert forall|j: int| 0 <= j < self@.len() implies (#[trigger] self@[j]).id
                        != validator_id@ by {
                        assert(keys[j] == self@[j].id);
                    }
                }
            },
            Some(i) => {
                proof {
                    lemma_key_index_remove(keys, i as int, validator_id@);
                }
                self.validators.remove(i);
                assert(self@ =~= old(self)@.remove(i as int));
                assert(spec_validator_ids(self@) =~= keys.remove(i as int));
                assert forall|j: int| 0 <= j < self@.len() implies (#[trigger] self@[j]).id
                    != validator_id@ by {
                    let src = if j < i { j } else { j + 1 };
                    assert(keys[src] != keys[i as int]);
                }
            },
        }
        proof {
            let records = self.spec_stakes();
            let current = spec_record(records, validator_id@);
            assert forall|j: int| 0 <= j < self@.len() implies spec_record(
                spec_remove_stake(records, validator_id@),
                (#[trigger] self@[j]).id,
            ) == spec_record(records, self@[j].id) by {
                assert(self@[j].id != validator_id@);
                lemma_put(records, StakerView { stake: 0, ..current }, self@[j].id);
            }
        }
        self.stake_manager.remove_stake(validator_id);
    }

    /// Returns the current set of active validators, in roster order.
    pub fn get_active_validators(&self) -> (active: Vec<Validator>)
        ensures
            validators_view(active@) == spec_active(self@),
    {
        let ghost all = self@;
        let mut active: Vec<Validator> = Vec::new();
        let mut i: usize = 0;
        assert(all.take(0) =~= Seq::<ValidatorView>::empty());
        assert(validators_view(active@) =~= Seq::<ValidatorView>::empty());
        while i < self.validators.len()
            invariant
                i <= self.validators.len(),
                all == self@,
                validators_view(active@) == spec_active(all.take(i as int)),
            decreases self.validators.len() - i,
        {
            let ghost before = validators_view(active@);
            proof {
                let next = all.take(i + 1);
                assert(next.drop_last() =~= all.take(i as int));
                assert(next.last() == self.validators@[i as int]@);
            }
            if self.validators[i].is_active {
                active.push(self.validators[i].duplicate());
                assert(validators_view(active@) =~= before.push(self.validators@[i as int]@));
            }
            i += 1;
        }
        assert(all.take(i as int) =~= all);
        active
    }

    /// The validators with at least the minimum stake, in roster order.
    pub fn get_eligible_validators(&self) -> (eligible: Vec<Validator>)
        ensures
            validators_view(eligible@) == spec_eligible(self@, self.spec_minimum_stake()),
    {
        let ghost all = self@;
        let mut eligible: Vec<Validator> = Vec::new();
        let mut i: usize = 0;
        assert(all.take(0) =~= Seq::<ValidatorView>::empty());
        assert(validators_view(eligible@) =~= Seq::<ValidatorView>::empty());
        while i < self.validators.len()
            invariant
                i <= self.validators.len(),
                all == self@,
                validators_view(eligible@) == spec_eligible(
                    all.take(i as int),
                    self.spec_minimum_stake(),
                ),
            decreases self.validators.len() - i,
        {
            let ghost before = validators_view(eligible@);
            proof {
                let next = all.take(i + 1);
                assert(next.drop_last() =~= all.take(i as int));
                assert(next.last() == self.validators@[i as int]@);
            }
            if self.validators[i].stake >= self.minimum_stake {
                eligible.push(self.validators[i].duplicate());
                assert(validators_view(eligible@) =~= before.push(self.validators@[i as int]@));
            }
            i += 1;
        }
        assert(all.take(i as int) =~= all);
        eligible
    }

    /// Selects validators for the next epoch: up to the size of the active
    /// set, drawn by stake without replacement among the validators with at
    /// least the minimum stake.
    pub fn select_validators_for_next_epoch(&self) -> (selected: Vec<Validator>)
        ensures
            validators_view(selected@) == spec_select(
                self.spec_seed(),
                self@,
                self.spec_minimum_stake(),
                self.spec_max_validators() as nat,
            ),
    {
        let ghost goal = spec_select(
            self.spec_seed(),
            self@,
            self.spec_minimum_stake(),
            self.spec_max_validators() as nat,
        );
        let mut pool = sort_by_id(&self.get_eligible_validators());
        let mut selected: Vec<Validator> = Vec::new();
        let mut k: usize = 0;
        assert(validators_view(selected@) =~= Seq::<ValidatorView>::empty());
        assert(Seq::<ValidatorView>::empty() + goal =~= goal);
        while k < self.max_validators
            invariant
                k <= self.max_validators,
                self.max_validators == self.spec_max_validators(),
                self.seed@ == self.spec_seed(),
                goal == spec_select(
                    self.spec_seed(),
                    self@,
                    self.spec_minimum_stake(),
                    self.spec_max_validators() as nat,
                ),
                goal == validators_view(selected@) + spec_sample(
                    self.spec_seed(),
                    validators_view(pool@),
                    (self.max_validators - k) as nat,
                    k as u64,
                ),
            decreases self.max_validators - k,
        {
            let ghost done = validators_view(selected@);
            let ghost before = validators_view(pool@);
            match draw(&self.seed, &pool, k as u64) {
                None => {
                    assert(done + Seq::<ValidatorView>::empty() =~= done);
                    return selected;
                },
                Some(i) => {
                    let chosen = pool.remove(i);
                    assert(validators_view(pool@) =~= before.remove(i as int));
                    proof {
                        let tail = spec_sample(
                            self.spec_seed(),
                            before.remove(i as int),
                            (self.max_validators - k - 1) as nat,
                            (k + 1) as u64,
                        );
                        assert(
                            done + (seq![before[i as int]] + tail) =~= done.push(chosen@) + tail
                        );
                    }
                    selected.push(chosen);
                    assert(validators_view(selected@) =~= done.push(chosen@));
                    k += 1;
                },
            }
        }
        assert(validators_view(selected@) + Seq::<ValidatorView>::empty() =~= validators_view(
            selected@,
        ));
        selected
    }

    /// Rotates validators based on the selection for the new epoch: the
    /// selected validators become the active set, all at once.  Where no
    /// validator can be selected the call fails with `NoStakeRegistered` and
    /// the set stays as it is.
    pub fn rotate_validators(&mut self) -> (result: Result<(), ConsensusError>)
        requires
            old(self).wf(),
        ensures
            ({
                let selected = spec_select(
                    old(self).spec_seed(),
                    old(self)@,
                    old(self).spec_minimum_stake(),
                    old(self).spec_max_validators() as nat,
                );
                if selected.len() == 0 {
                    result == Err::<(), ConsensusError>(ConsensusError::NoStakeRegistered)
                        && final(self)@ == old(self)@
                } else {
                    result is Ok && final(self)@ == spec_rotated(
                        old(self)@,
                        spec_validator_ids(selected),
                        old(self).spec_epoch(),
                    )
                }
            }),
            final(self).spec_stake_manager() == old(self).spec_stake_manager(),
            final(self).spec_same_settings(old(self)),
            final(self).wf(),
    {
        let selected_validators = self.select_validators_for_next_epoch();
        if selected_validators.len() == 0 {
            return Err(ConsensusError::NoStakeRegistered);
        }
        let ghost ids = spec_validator_ids(validators_view(selected_validators@));
        let ghost goal = spec_rotated(old(self)@, ids, old(self).spec_epoch());
        let mut rotated: Vec<Validator> = Vec::new();
        let mut i: usize = 0;
        while i < self.validators.len()
            invariant
                i <= self.validators.len(),
                *self == *old(self),
                ids == spec_validator_ids(validators_view(selected_validators@)),
                goal == spec_rotated(old(self)@, ids, old(self).spec_epoch()),
                rotated.len() == i,
                forall|k: int| 0 <= k < i ==> (#[trigger] rotated@[k])@ == goal[k],
            decreases self.validators.len() - i,
        {
            let current = &self.validators[i];
            let chosen = contains_id(&selected_validators, &current.id);
            rotated.push(
                Validator {
                    id: current.id.clone(),
                    stake: current.stake,
                    is_active: chosen,
                    last_active_epoch: if chosen {
                        self.epoch
                    } else {
                        current.last_active_epoch
                    },
                },
            );
            i += 1;
        }
        self.validators = rotated;
        assert(self@ =~= goal);
        assert(spec_validator_ids(self@) =~= spec_validator_ids(old(self)@));
        Ok(())
    }

    fn sync_stakes(&mut self)
        requires
            spec_roster_wf(old(self)@),
            old(self).spec_stake_manager().wf(),
        ensures
            final(self)@ == spec_synced(old(self)@, old(self).spec_stakes()),
            final(self).spec_stake_manager() == old(self).spec_stake_manager(),
            final(self).spec_same_settings(old(self)),
            final(self).wf(),
    {
        let ghost goal = spec_synced(old(self)@, old(self).spec_stakes());
        let mut synced: Vec<Validator> = Vec::new();
        let mut i: usize = 0;
        while i < self.validators.len()
            invariant
                i <= self.validators.len(),
                *self == *old(self),
                self.spec_stake_manager().wf(),
                goal == spec_synced(old(self)@, old(self).spec_stakes()),
                synced.len() == i,
                forall|k: int| 0 <= k < i ==> (#[trigger] synced@[k])@ == goal[k],
            decreases self.validators.len() - i,
        {
            let current = &self.validators[i];
            let weight = self.stake_manager.get_weight(&current.id);
            synced.push(
                Validator {
                    id: current.id.clone(),
                    stake: weight,
                    is_active: current.is_active,
                    last_active_epoch: current.last_active_epoch,
                },
            );
            i += 1;
        }
        self.validators = synced;
        assert(self@ =~= goal);
        assert(spec_validator_ids(self@) =~= spec_validator_ids(old(self)@));
        proof {
            assert forall|j: int| 0 <= j < self@.len() implies (#[trigger] self@[j]).stake
                == spec_weight(spec_record(self.spec_stakes(), self@[j].id)) by {
                lemma_record_within_total(self.spec_stakes(), old(self)@[j].id);
            }
        }
    }

    /// Delegates stake from one address to another in the stake table, and
    /// brings the stakes of the validators up to date.
    pub fn delegate_stake(
        &mut self,
        delegator: String,
        delegatee: String,
        amount: i128,
    ) -> (result: Result<(), ConsensusError>)
        requires
            old(self).wf(),
        ensures
            match spec_delegate(old(self).spec_stakes(), delegator@, delegatee@, amount as int) {
                Ok(records) => {
                    &&& result is Ok
                    &&& final(self).spec_stakes() == records
                    &&& final(self)@ == spec_synced(old(self)@, records)
                    &&& final(self).spec_pairs() == spec_pair_raised(
                        old(self).spec_pairs(),
                        delegator@,
                        delegatee@,
                        amount as u64,
                    )
                },
                Err(e) => {
                    &&& result == Err::<(), ConsensusError>(e)
                    &&& final(self).spec_stakes() == old(self).spec_stakes()
                    &&& final(self)@ == old(self)@
                    &&& final(self).spec_pairs() == old(self).spec_pairs()
                },
            },
            final(self).spec_same_settings(old(self)),
            final(self).wf(),
    {
        match self.stake_manager.delegate_stake(delegator, delegatee, amount) {
            Err(e) => Err(e),
            Ok(()) => {
                self.sync_stakes();
                Ok(())
            },
        }
    }

    /// Takes delegated stake back in the stake table, and brings the stakes
    /// of the validators up to date.
    pub fn undelegate_stake(
        &mut self,
        delegator: String,
        delegatee: String,
        amount: i128,
    ) -> (result: Result<(), ConsensusError>)
        requires
            old(self).wf(),
        ensures
            match spec_undelegate(
                old(self).spec_stakes(),
                old(self).spec_pairs(),
                delegator@,
                delegatee@,
                amount as int,
            ) {
                Ok(records) => {
                    &&& result is Ok
                    &&& final(self).spec_stakes() == records
                    &&& final(self)@ == spec_synced(old(self)@, records)
                    &&& final(self).spec_pairs() == spec_pair_lowered(
                        old(self).spec_pairs(),
                        delegator@,
                        delegatee@,
                        amount as u64,
                    )
                },
                Err(e) => {
                    &&& result == Err::<(), ConsensusError>(e)
                    &&& final(self).spec_stakes() == old(self).spec_stakes()
                    &&& final(self)@ == old(self)@
                    &&& final(self).spec_pairs() == old(self).spec_pairs()
                },
            },
            final(self).spec_same_settings(old(self)),
            final(self).wf(),
    {
        match self.stake_manager.undelegate_stake(delegator, delegatee, amount) {
            Err(e) => Err(e),
            Ok(()) => {
                self.sync_stakes();
                Ok(())
            },
        }
    }

    /// Updates the reward rate of the stake table.
    pub fn update_reward_rate(&mut self, new_rate: u64)
        ensures
            final(self)@ == old(self)@,
            final(self).spec_stakes() == old(self).spec_stakes(),
            final(self).spec_stake_manager().spec_total_staked()
                == old(self).spec_stake_manager().spec_total_staked(),
            final(self).spec_stake_manager().spec_pairs()
                == old(self).spec_stake_manager().spec_pairs(),
            final(self).spec_reward_rate() == new_rate,
            final(self).spec_minimum_stake() == old(self).spec_minimum_stake(),
            final(self).spec_max_validators() == old(self).spec_max_validators(),
            final(self).spec_seed() == old(self).spec_seed(),
            final(self).spec_epoch() == old(self).spec_epoch(),
    {
        self.stake_manager.update_reward_rate(new_rate);
    }

    /// Copies the stake table and the total network stake.
    pub fn snapshot(&self) -> (snapshot: StakeSnapshot)
        requires
            self.wf(),
        ensures
            snapshot@ == self.spec_stakes(),
            snapshot.spec_total_staked() == self.spec_stake_manager().spec_total_staked(),
            snapshot.wf(),
    {
        self.stake_manager.snapshot()
    }

    /// Credits rewards in the stake table, all or none, to addresses that
    /// the snapshot knows.  The roster is not changed.
    pub fn distribute_rewards(
        &mut self,
        snapshot: &StakeSnapshot,
        rewards: &Vec<(String, u64)>,
    ) -> (result: Result<(), ConsensusError>)
        requires
            old(self).wf(),
            snapshot.wf(),
        ensures
            match spec_distribute(old(self).spec_stakes(), snapshot@, rewards_view(rewards@)) {
                Ok(records) => result is Ok && final(self).spec_stakes() == records,
                Err(e) => {
                    &&& result == Err::<(), ConsensusError>(e)
                    &&& final(self).spec_stakes() == old(self).spec_stakes()
                },
            },
            final(self)@ == old(self)@,
            final(self).spec_pairs() == old(self).spec_pairs(),
            final(self).spec_same_settings(old(self)),
            final(self).wf(),
    {
        proof {
            let records = self.spec_stakes();
            let outcome = spec_distribute(records, snapshot@, rewards_view(rewards@));
            if outcome is Ok {
                assert forall|j: int| 0 <= j < self@.len() implies (#[trigger] self@[j]).stake
                    == spec_weight(spec_record(outcome.unwrap(), self@[j].id)) by {
                    lemma_distribute_keeps_weights(
                        records,
                        snapshot@,
                        rewards_view(rewards@),
                        self@[j].id,
                    );
                }
            }
        }
        self.stake_manager.distribute_rewards(snapshot, rewards)
    }
}

} // verus!
