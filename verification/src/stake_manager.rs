//! The ledger of stake, delegation and accrued rewards.
//!
//! Amounts are whole numbers of the smallest unit.  The weight of an account
//! is its own stake plus what others have delegated to it; the total network
//! stake is the sum of all weights and always fits in a `u64`.

use vstd::prelude::*;
use crate::delegations::{delegated_of, delegations_view, lemma_backed_put, lemma_backed_shift,
    lemma_delegated_within, lemma_pair_put, put_pair, spec_backed, spec_delegated,
    spec_delegated_to, spec_pair_lowered, spec_pair_put, spec_pair_raised, spec_pairs_wf,
    Delegation, DelegationView};
use crate::error::ConsensusError;
use crate::keyed::{key_index, lemma_key_index_absent, lemma_key_index_found, lemma_key_index_push,
    lemma_key_index_valid};

verus! {

/// The stake record of one account.
#[derive(Debug, Clone, PartialEq, Eq)]
pub struct Staker {
    /// The account's address.
    pub address: String,
    /// What the account has staked itself and not delegated to another.
    pub stake: u64,
    /// What other accounts have delegated to this one.
    pub delegation: u64,
    /// Rewards accrued and not yet claimed.
    pub rewards: u64,
}

/// What a [`Staker`] holds, as plain mathematical values.
pub ghost struct StakerView {
    pub address: Seq<char>,
    pub stake: u64,
    pub delegation: u64,
    pub rewards: u64,
}

impl View for Staker {
    type V = StakerView;

    open spec fn view(&self) -> StakerView {
        StakerView {
            address: self.address@,
            stake: self.stake,
            delegation: self.delegation,
            rewards: self.rewards,
        }
    }
}

/// The views of a sequence of stake records, in the same order.
pub open spec fn stakers_view(stakers: Seq<Staker>) -> Seq<StakerView> {
    Seq::new(stakers.len(), |i: int| stakers[i]@)
}

/// The views of a list of rewards, in the same order.
pub open spec fn rewards_view(rewards: Seq<(String, u64)>) -> Seq<(Seq<char>, u64)> {
    Seq::new(rewards.len(), |i: int| (rewards[i].0@, rewards[i].1))
}

/// The addresses of a stake table, in table order.
pub open spec fn spec_staker_addresses(records: Seq<StakerView>) -> Seq<Seq<char>> {
    Seq::new(records.len(), |i: int| records[i].address)
}

/// The voting weight of a record: own stake plus delegated-in stake.
pub open spec fn spec_weight(record: StakerView) -> nat {
    (record.stake + record.delegation) as nat
}

/// The sum of the weights of a stake table.
pub open spec fn spec_total_weight(records: Seq<StakerView>) -> nat
    decreases records.len(),
{
    if records.len() == 0 {
        0
    } else {
        spec_total_weight(records.drop_last()) + spec_weight(records.last())
    }
}

/// A stake table is well formed when no address occurs twice.
pub open spec fn spec_table_wf(records: Seq<StakerView>) -> bool {
    spec_staker_addresses(records).no_duplicates()
}

/// The record of `address`: the one in the table, or one without stake,
/// delegation and rewards where the table has none.
pub open spec fn spec_record(records: Seq<StakerView>, address: Seq<char>) -> StakerView {
    match key_index(spec_staker_addresses(records), address) {
        Some(i) => records[i],
        None => StakerView { address, stake: 0, delegation: 0, rewards: 0 },
    }
}

/// Whether the table holds a record of `address`.
pub open spec fn spec_registered(records: Seq<StakerView>, address: Seq<char>) -> bool {
    key_index(spec_staker_addresses(records), address) is Some
}

/// The table in which `record` stands for its address: in the place of the
/// earlier record of that address, or at the end.
pub open spec fn spec_put(records: Seq<StakerView>, record: StakerView) -> Seq<StakerView> {
    match key_index(spec_staker_addresses(records), record.address) {
        Some(i) => records.update(i, record),
        None => records.push(record),
    }
}

/// The total network stake after `address` has set its stake to `amount`.
pub open spec fn spec_total_after_set(
    records: Seq<StakerView>,
    address: Seq<char>,
    amount: int,
) -> int {
    spec_total_weight(records) - spec_record(records, address).stake + amount
}

/// The outcome of setting the stake of `address` to `amount`: refused where
/// the amount is negative or the total network stake would exceed `u64::MAX`.
pub open spec fn spec_set_stake(
    records: Seq<StakerView>,
    address: Seq<char>,
    amount: int,
) -> Result<Seq<StakerView>, ConsensusError> {
    if amount < 0 || spec_total_after_set(records, address, amount) > u64::MAX {
        Err(ConsensusError::InvalidAmount)
    } else {
        Ok(spec_put(records, StakerView { stake: amount as u64, ..spec_record(records, address) }))
    }
}

/// The table after `amount` has moved from the stake of `delegator` to the
/// delegated-in stake of `delegatee`.
pub open spec fn spec_move_out(
    records: Seq<StakerView>,
    delegator: Seq<char>,
    delegatee: Seq<char>,
    amount: u64,
) -> Seq<StakerView> {
    let source = spec_record(records, delegator);
    let debited = spec_put(records, StakerView { stake: (source.stake - amount) as u64, ..source });
    let target = spec_record(debited, delegatee);
    spec_put(debited, StakerView { delegation: (target.delegation + amount) as u64, ..target })
}

/// The table after `amount` has moved from the delegated-in stake of
/// `delegatee` back to the stake of `delegator`.
pub open spec fn spec_move_back(
    records: Seq<StakerView>,
    delegator: Seq<char>,
    delegatee: Seq<char>,
    amount: u64,
) -> Seq<StakerView> {
    let source = spec_record(records, delegatee);
    let debited = spec_put(
        records,
        StakerView { delegation: (source.delegation - amount) as u64, ..source },
    );
    let target = spec_record(debited, delegator);
    spec_put(debited, StakerView { stake: (target.stake + amount) as u64, ..target })
}

/// The outcome of a delegation: refused with `InvalidAmount` where the amount
/// is negative, with `InsufficientStake` where the delegator's stake is less
/// than the amount.
pub open spec fn spec_delegate(
    records: Seq<StakerView>,
    delegator: Seq<char>,
    delegatee: Seq<char>,
    amount: int,
) -> Result<Seq<StakerView>, ConsensusError> {
    if amount < 0 {
        Err(ConsensusError::InvalidAmount)
    } else if spec_record(records, delegator).stake < amount {
        Err(ConsensusError::InsufficientStake)
    } else {
        Ok(spec_move_out(records, delegator, delegatee, amount as u64))
    }
}

/// The outcome of taking a delegation back: refused with `InvalidAmount`
/// where the amount is negative, with `InsufficientStake` where the
/// delegator has less than the amount delegated to the delegatee.
pub open spec fn spec_undelegate(
    records: Seq<StakerView>,
    pairs: Seq<DelegationView>,
    delegator: Seq<char>,
    delegatee: Seq<char>,
    amount: int,
) -> Result<Seq<StakerView>, ConsensusError> {
    if amount < 0 {
        Err(ConsensusError::InvalidAmount)
    } else if spec_delegated(pairs, delegator, delegatee) < amount {
        Err(ConsensusError::InsufficientStake)
    } else {
        Ok(spec_move_back(records, delegator, delegatee, amount as u64))
    }
}

/// The table after the stake of `address` has been set to zero.  A table
/// without a record of `address` stays as it is.
pub open spec fn spec_remove_stake(
    records: Seq<StakerView>,
    address: Seq<char>,
) -> Seq<StakerView> {
    if spec_registered(records, address) {
        spec_put(records, StakerView { stake: 0, ..spec_record(records, address) })
    } else {
        records
    }
}

/// The outcome of crediting the rewards of `entries` in order.  An entry is
/// refused with `NoStakeRegistered` where the snapshot has no record of its
/// address, and with `InvalidAmount` where the accrued rewards would exceed
/// `u64::MAX`; the first refusal is the outcome of the whole list.
pub open spec fn spec_distribute(
    records: Seq<StakerView>,
    snapshot: Seq<StakerView>,
    entries: Seq<(Seq<char>, u64)>,
) -> Result<Seq<StakerView>, ConsensusError>
    decreases entries.len(),
{
    if entries.len() == 0 {
        Ok(records)
    } else {
        let (address, amount) = entries.first();
        let record = spec_record(records, address);
        if !spec_registered(snapshot, address) {
            Err(ConsensusError::NoStakeRegistered)
        } else if record.rewards + amount > u64::MAX {
            Err(ConsensusError::InvalidAmount)
        } else {
            spec_distribute(
                spec_put(
                    records,
                    StakerView { rewards: (record.rewards + amount) as u64, ..record },
                ),
                snapshot,
                entries.drop_first(),
            )
        }
    }
}

/// Replacing the record at `i` changes the total by the difference of the
/// two weights.
pub proof fn lemma_total_update(records: Seq<StakerView>, i: int, record: StakerView)
    requires
        0 <= i < records.len(),
    ensures
        spec_total_weight(records.update(i, record)) == spec_total_weight(records) - spec_weight(
            records[i],
        ) + spec_weight(record),
    decreases records.len(),
{
    let updated = records.update(i, record);
    if i == records.len() - 1 {
        assert(updated.drop_last() =~= records.drop_last());
    } else {
        assert(updated.drop_last() =~= records.drop_last().update(i, record));
        lemma_total_update(records.drop_last(), i, record);
    }
}

/// No weight exceeds the total.
pub proof fn lemma_weight_within_total(records: Seq<StakerView>, i: int)
    requires
        0 <= i < records.len(),
    ensures
        spec_weight(records[i]) <= spec_total_weight(records),
    decreases records.len(),
{
    if i < records.len() - 1 {
        lemma_weight_within_total(records.drop_last(), i);
    }
}

/// The total of a prefix of the table is within the total of the table.
pub proof fn lemma_total_prefix(records: Seq<StakerView>, n: int)
    requires
        0 <= n <= records.len(),
    ensures
        spec_total_weight(records.take(n)) <= spec_total_weight(records),
    decreases records.len(),
{
    if n == records.len() {
        assert(records.take(n) =~= records);
    } else {
        assert(records.drop_last().take(n) =~= records.take(n));
        lemma_total_prefix(records.drop_last(), n);
    }
}

/// The weight of any address is within the total.
pub proof fn lemma_record_within_total(records: Seq<StakerView>, address: Seq<char>)
    ensures
        spec_weight(spec_record(records, address)) <= spec_total_weight(records),
{
    lemma_key_index_valid(spec_staker_addresses(records), address);
    match key_index(spec_staker_addresses(records), address) {
        Some(i) => {
            lemma_weight_within_total(records, i);
        },
        None => {},
    }
}

/// Putting a record keeps the table well formed, makes the record the one of
/// its address, leaves every other address as it was, and changes the total
/// by the difference of the new weight and the old.
pub proof fn lemma_put(records: Seq<StakerView>, record: StakerView, address: Seq<char>)
    requires
        spec_table_wf(records),
    ensures
        spec_table_wf(spec_put(records, record)),
        spec_registered(spec_put(records, record), address) == (address == record.address
            || spec_registered(records, address)),
        spec_record(spec_put(records, record), address) == if address == record.address {
            record
        } else {
            spec_record(records, address)
        },
        spec_total_weight(spec_put(records, record)) == spec_total_weight(records) - spec_weight(
            spec_record(records, record.address),
        ) + spec_weight(record),
{
    let keys = spec_staker_addresses(records);
    let after = spec_put(records, record);
    lemma_key_index_valid(keys, record.address);
    match key_index(keys, record.address) {
        Some(i) => {
            assert(spec_staker_addresses(after) =~= keys);
            lemma_total_update(records, i, record);
        },
        None => {
            assert(spec_staker_addresses(after) =~= keys.push(record.address));
            lemma_key_index_push(keys, record.address, address);
            lemma_key_index_valid(keys, address);
            assert(after.drop_last() =~= records);
        },
    }
}

/// A delegation that is carried out leaves the total network stake as it was
/// and keeps the table well formed.
pub proof fn lemma_move_out_keeps_total(
    records: Seq<StakerView>,
    delegator: Seq<char>,
    delegatee: Seq<char>,
    amount: u64,
)
    requires
        spec_table_wf(records),
        spec_total_weight(records) <= u64::MAX,
        amount <= spec_record(records, delegator).stake,
    ensures
        spec_table_wf(spec_move_out(records, delegator, delegatee, amount)),
        spec_total_weight(spec_move_out(records, delegator, delegatee, amount))
            == spec_total_weight(
            records,
        ),
{
    let source = spec_record(records, delegator);
    let lowered = StakerView { stake: (source.stake - amount) as u64, ..source };
    let debited = spec_put(records, lowered);
    lemma_key_index_valid(spec_staker_addresses(records), delegator);
    lemma_put(records, lowered, delegatee);
    let target = spec_record(debited, delegatee);
    lemma_record_within_total(debited, delegatee);
    lemma_key_index_valid(spec_staker_addresses(debited), delegatee);
    let raised = StakerView { delegation: (target.delegation + amount) as u64, ..target };
    lemma_put(debited, raised, delegatee);
}

/// Taking a delegation back leaves the total network stake as it was and
/// keeps the table well formed.
pub proof fn lemma_move_back_keeps_total(
    records: Seq<StakerView>,
    delegator: Seq<char>,
    delegatee: Seq<char>,
    amount: u64,
)
    requires
        spec_table_wf(records),
        spec_total_weight(records) <= u64::MAX,
        amount <= spec_record(records, delegatee).delegation,
    ensures
        spec_table_wf(spec_move_back(records, delegator, delegatee, amount)),
        spec_total_weight(spec_move_back(records, delegator, delegatee, amount))
            == spec_total_weight(records),
{
    let source = spec_record(records, delegatee);
    let lowered = StakerView { delegation: (source.delegation - amount) as u64, ..source };
    let debited = spec_put(records, lowered);
    lemma_key_index_valid(spec_staker_addresses(records), delegatee);
    lemma_put(records, lowered, delegator);
    let target = spec_record(debited, delegator);
    lemma_record_within_total(debited, delegator);
    lemma_key_index_valid(spec_staker_addresses(debited), delegator);
    let raised = StakerView { stake: (target.stake + amount) as u64, ..target };
    lemma_put(debited, raised, delegator);
}

/// Delegating an amount and taking the same amount back restores every
/// record and the amount of the pair.
pub proof fn lemma_delegation_round_trip(
    records: Seq<StakerView>,
    pairs: Seq<DelegationView>,
    delegator: Seq<char>,
    delegatee: Seq<char>,
    amount: u64,
    address: Seq<char>,
)
    requires
        spec_table_wf(records),
        spec_pairs_wf(pairs),
        spec_backed(records, pairs),
        spec_total_weight(records) <= u64::MAX,
        spec_delegate(records, delegator, delegatee, amount as int) is Ok,
    ensures
        spec_undelegate(
            spec_move_out(records, delegator, delegatee, amount),
            spec_pair_raised(pairs, delegator, delegatee, amount),
            delegator,
            delegatee,
            amount as int,
        ) is Ok,
        spec_record(
            spec_move_back(
                spec_move_out(records, delegator, delegatee, amount),
                delegator,
                delegatee,
                amount,
            ),
            address,
        ) == spec_record(records, address),
        spec_delegated(
            spec_pair_lowered(
                spec_pair_raised(pairs, delegator, delegatee, amount),
                delegator,
                delegatee,
                amount,
            ),
            delegator,
            delegatee,
        ) == spec_delegated(pairs, delegator, delegatee),
{
    let source = spec_record(records, delegator);
    let lowered = StakerView { stake: (source.stake - amount) as u64, ..source };
    let debited = spec_put(records, lowered);
    lemma_key_index_valid(spec_staker_addresses(records), delegator);
    lemma_key_index_valid(spec_staker_addresses(records), delegatee);
    lemma_key_index_valid(spec_staker_addresses(records), address);
    lemma_put(records, lowered, delegator);
    lemma_put(records, lowered, delegatee);
    lemma_put(records, lowered, address);
    let target = spec_record(debited, delegatee);
    lemma_record_within_total(debited, delegatee);
    let raised = StakerView { delegation: (target.delegation + amount) as u64, ..target };
    let out = spec_put(debited, raised);
    lemma_put(debited, raised, delegator);
    lemma_put(debited, raised, delegatee);
    lemma_put(debited, raised, address);
    lemma_move_out_keeps_total(records, delegator, delegatee, amount);
    lemma_delegated_within(pairs, delegator, delegatee);
    let held = spec_delegated(pairs, delegator, delegatee);
    let up = DelegationView { delegator, delegatee, amount: (held + amount) as u64 };
    lemma_pair_put(pairs, up, delegator, delegatee);
    let pairs_up = spec_pair_put(pairs, up);
    let down = DelegationView { delegator, delegatee, amount: held };
    lemma_pair_put(pairs_up, down, delegator, delegatee);
    let back_source = spec_record(out, delegatee);
    let back_lowered = StakerView {
        delegation: (back_source.delegation - amount) as u64,
        ..back_source
    };
    let back_debited = spec_put(out, back_lowered);
    lemma_put(out, back_lowered, delegator);
    lemma_put(out, back_lowered, delegatee);
    lemma_put(out, back_lowered, address);
    let back_target = spec_record(back_debited, delegator);
    let back_raised = StakerView { stake: (back_target.stake + amount) as u64, ..back_target };
    lemma_put(back_debited, back_raised, delegator);
    lemma_put(back_debited, back_raised, delegatee);
    lemma_put(back_debited, back_raised, address);
}

/// Crediting rewards changes no weight: where the rewards are credited, the
/// table stays well formed, every address keeps its stake and its
/// delegated-in stake, and the total stays as it was.
pub proof fn lemma_distribute_keeps_weights(
    records: Seq<StakerView>,
    snapshot: Seq<StakerView>,
    entries: Seq<(Seq<char>, u64)>,
    address: Seq<char>,
)
    requires
        spec_table_wf(records),
        spec_distribute(records, snapshot, entries) is Ok,
    ensures
        spec_table_wf(spec_distribute(records, snapshot, entries).unwrap()),
        spec_record(spec_distribute(records, snapshot, entries).unwrap(), address).stake
            == spec_record(records, address).stake,
        spec_record(spec_distribute(records, snapshot, entries).unwrap(), address).delegation
            == spec_record(records, address).delegation,
        spec_total_weight(spec_distribute(records, snapshot, entries).unwrap())
            == spec_total_weight(records),
    decreases entries.len(),
{
    if entries.len() > 0 {
        let (credited, amount) = entries.first();
        let record = spec_record(records, credited);
        let raised = StakerView { rewards: (record.rewards + amount) as u64, ..record };
        lemma_key_index_valid(spec_staker_addresses(records), credited);
        lemma_put(records, raised, address);
        lemma_distribute_keeps_weights(
            spec_put(records, raised),
            snapshot,
            entries.drop_first(),
            address,
        );
    }
}

/// Finds the record of `address` in a table without repeated addresses.
fn find_staker(stakers: &Vec<Staker>, address: &String) -> (found: Option<usize>)
    requires
        spec_table_wf(stakers_view(stakers@)),
    ensures
        found matches Some(i) ==> i < stakers.len() && key_index(
            spec_staker_addresses(stakers_view(stakers@)),
            address@,
        ) == Some(i as int),
        found is None ==> key_index(
            spec_staker_addresses(stakers_view(stakers@)),
            address@,
        ) is None,
{
    let ghost keys = spec_staker_addresses(stakers_view(stakers@));
    let mut i: usize = 0;
    while i < stakers.len()
        invariant
            i <= stakers.len(),
            keys == spec_staker_addresses(stakers_view(stakers@)),
            keys.no_duplicates(),
            forall|k: int| 0 <= k < i ==> keys[k] != address@,
        decreases stakers.len() - i,
    {
        if stakers[i].address == *address {
            proof {
                lemma_key_index_found(keys, address@, i as int);
            }
            return Some(i);
        }
        i += 1;
    }
    proof {
        lemma_key_index_absent(keys, address@);
    }
    None
}

/// A copy of the record of `address`, or a record without stake where the
/// table has none.
fn record_of(stakers: &Vec<Staker>, address: &String) -> (record: Staker)
    requires
        spec_table_wf(stakers_view(stakers@)),
    ensures
        record@ == spec_record(stakers_view(stakers@), address@),
{
    match find_staker(stakers, address) {
        Some(i) => Staker {
            address: address.clone(),
            stake: stakers[i].stake,
            delegation: stakers[i].delegation,
            rewards: stakers[i].rewards,
        },
        None => Staker { address: address.clone(), stake: 0, delegation: 0, rewards: 0 },
    }
}

/// Puts `record` into the table in the place of the earlier record of its
/// address, or at the end.
fn put_staker(stakers: &mut Vec<Staker>, record: Staker)
    requires
        spec_table_wf(stakers_view(old(stakers)@)),
    ensures
        stakers_view(final(stakers)@) == spec_put(stakers_view(old(stakers)@), record@),
        spec_table_wf(stakers_view(final(stakers)@)),
{
    proof {
        lemma_put(stakers_view(stakers@), record@, record@.address);
    }
    match find_staker(stakers, &record.address) {
        Some(i) => {
            stakers[i] = record;
            assert(
                stakers_view(stakers@) =~= stakers_view(old(stakers)@).update(i as int, record@)
            );
        },
        None => {
            stakers.push(record);
            assert(stakers_view(stakers@) =~= stakers_view(old(stakers)@).push(record@));
        },
    }
}

/// A fresh table with the same records.
fn duplicate_stakers(stakers: &Vec<Staker>) -> (copy: Vec<Staker>)
    ensures
        stakers_view(copy@) == stakers_view(stakers@),
{
    let mut copy: Vec<Staker> = Vec::new();
    let mut i: usize = 0;
    while i < stakers.len()
        invariant
            i <= stakers.len(),
            copy.len() == i,
            forall|k: int| 0 <= k < i ==> copy@[k]@ == stakers@[k]@,
        decreases stakers.len() - i,
    {
        let s = &stakers[i];
        copy.push(
            Staker {
                address: s.address.clone(),
                stake: s.stake,
                delegation: s.delegation,
                rewards: s.rewards,
            },
        );
        i += 1;
    }
    assert(stakers_view(copy@) =~= stakers_view(stakers@));
    copy
}

/// A point-in-time copy of the stake table and the total network stake.
pub struct StakeSnapshot {
    stakers: Vec<Staker>,
    total_staked: u64,
}

impl View for StakeSnapshot {
    type V = Seq<StakerView>;

    closed spec fn view(&self) -> Seq<StakerView> {
        stakers_view(self.stakers@)
    }
}

impl StakeSnapshot {
    /// The total network stake at the time of the snapshot.
    pub closed spec fn spec_total_staked(&self) -> u64 {
        self.total_staked
    }

    /// No address occurs twice, and the total is the sum of the weights.
    pub open spec fn wf(&self) -> bool {
        spec_table_wf(self@) && self.spec_total_staked() == spec_total_weight(self@)
    }

    /// The voting weight of `address` at the time of the snapshot: its own
    /// stake plus delegated-in stake, zero for an address without a record.
    pub fn get_stake(&self, address: &String) -> (weight: u64)
        requires
            self.wf(),
        ensures
            weight == spec_weight(spec_record(self@, address@)),
            weight <= self.spec_total_staked(),
    {
        proof {
            lemma_record_within_total(self@, address@);
        }
        let record = record_of(&self.stakers, address);
        record.stake + record.delegation
    }

    /// The total network stake at the time of the snapshot.
    pub fn get_total_stake(&self) -> (total: u64)
        ensures
            total == self.spec_total_staked(),
    {
        self.total_staked
    }

    /// Whether the snapshot holds a record of `address`.
    pub fn contains(&self, address: &String) -> (registered: bool)
        requires
            self.wf(),
        ensures
            registered == spec_registered(self@, address@),
    {
        find_staker(&self.stakers, address).is_some()
    }
}

/// Handles staking operations.
pub struct StakeManager {
    stakers: Vec<Staker>,
    delegations: Vec<Delegation>,
    total_staked: u64,
    reward_rate: u64,
}

impl View for StakeManager {
    type V = Seq<StakerView>;

    closed spec fn view(&self) -> Seq<StakerView> {
        stakers_view(self.stakers@)
    }
}

impl StakeManager {
    /// The total network stake.
    pub closed spec fn spec_total_staked(&self) -> u64 {
        self.total_staked
    }

    /// The reward rate in force.
    pub closed spec fn spec_reward_rate(&self) -> u64 {
        self.reward_rate
    }

    /// The delegations: for every pair of a delegator and a delegatee what
    /// the one has delegated to the other and not taken back.
    pub closed spec fn spec_pairs(&self) -> Seq<DelegationView> {
        delegations_view(self.delegations@)
    }

    /// No address occurs twice, the total is the sum of the weights, no
    /// pair of delegator and delegatee occurs twice, and the delegated-in
    /// stake of every address is the sum of what its delegators have
    /// delegated to it.
    pub open spec fn wf(&self) -> bool {
        &&& spec_table_wf(self@)
        &&& self.spec_total_staked() == spec_total_weight(self@)
        &&& spec_pairs_wf(self.spec_pairs())
        &&& spec_backed(self@, self.spec_pairs())
    }

    /// Initializes a new StakeManager without any record.
    pub fn new(reward_rate: u64) -> (manager: StakeManager)
        ensures
            manager@ == Seq::<StakerView>::empty(),
            manager.spec_pairs() == Seq::<DelegationView>::empty(),
            manager.spec_total_staked() == 0,
            manager.spec_reward_rate() == reward_rate,
            manager.wf(),
    {
        let manager = StakeManager {
            stakers: Vec::new(),
            delegations: Vec::new(),
            total_staked: 0,
            reward_rate,
        };
        assert(manager@ =~= Seq::<StakerView>::empty());
        assert(manager.spec_pairs() =~= Seq::<DelegationView>::empty());
        assert(spec_staker_addresses(manager@) =~= Seq::<Seq<char>>::empty());
        manager
    }

    /// Adds or updates a staker's stake and brings the total up to date.
    /// Fails with `InvalidAmount`, changing nothing, where the stake is
    /// negative or the total network stake would exceed `u64::MAX`.
    pub fn set_stake(
        &mut self,
        address: String,
        stake: i128,
    ) -> (result: Result<(), ConsensusError>)
        requires
            old(self).wf(),
        ensures
            match spec_set_stake(old(self)@, address@, stake as int) {
                Ok(records) => {
                    &&& result is Ok
                    &&& final(self)@ == records
                    &&& final(self).spec_total_staked() == spec_total_after_set(
                        old(self)@,
                        address@,
                        stake as int,
                    )
                },
                Err(e) => {
                    &&& result == Err::<(), ConsensusError>(e)
                    &&& final(self)@ == old(self)@
                    &&& final(self).spec_total_staked() == old(self).spec_total_staked()
                },
            },
            final(self).spec_pairs() == old(self).spec_pairs(),
            final(self).spec_reward_rate() == old(self).spec_reward_rate(),
            final(self).wf(),
    {
        if stake < 0 || stake > u64::MAX as i128 {
            proof {
                lemma_record_within_total(self@, address@);
            }
            return Err(ConsensusError::InvalidAmount);
        }
        let amount: u64 = stake as u64;
        let current = record_of(&self.stakers, &address);
        proof {
            lemma_record_within_total(self@, address@);
            lemma_put(self@, StakerView { stake: amount, ..current@ }, address@);
            lemma_backed_put(self@, self.spec_pairs(), StakerView { stake: amount, ..current@ });
        }
        let others: u64 = self.total_staked - current.stake;
        if amount > u64::MAX - others {
            return Err(ConsensusError::InvalidAmount);
        }
        put_staker(
            &mut self.stakers,
            Staker {
                address,
                stake: amount,
                delegation: current.delegation,
                rewards: current.rewards,
            },
        );
        self.total_staked = others + amount;
        Ok(())
    }

    /// Delegates stake to another staker: the amount leaves the delegator's
    /// stake and joins the delegatee's delegated-in stake, and is recorded
    /// for the pair.  The total network stake is not changed.  Fails with
    /// `InvalidAmount` where the amount is negative and with
    /// `InsufficientStake` where the delegator's stake is less than the
    /// amount; a failure changes nothing.
    pub fn delegate_stake(
        &mut self,
        delegator: String,
        delegatee: String,
        amount: i128,
    ) -> (result: Result<(), ConsensusError>)
        requires
            old(self).wf(),
        ensures
            match spec_delegate(old(self)@, delegator@, delegatee@, amount as int) {
                Ok(records) => {
                    &&& result is Ok
                    &&& final(self)@ == records
                    &&& final(self).spec_pairs() == spec_pair_raised(
                        old(self).spec_pairs(),
                        delegator@,
                        delegatee@,
                        amount as u64,
                    )
                },
                Err(e) => {
                    &&& result == Err::<(), ConsensusError>(e)
                    &&& final(self)@ == old(self)@
                    &&& final(self).spec_pairs() == old(self).spec_pairs()
                },
            },
            final(self).spec_total_staked() == old(self).spec_total_staked(),
            final(self).spec_reward_rate() == old(self).spec_reward_rate(),
            final(self).wf(),
    {
        if amount < 0 {
            return Err(ConsensusError::InvalidAmount);
        }
        let source = record_of(&self.stakers, &delegator);
        if (source.stake as i128) < amount {
            return Err(ConsensusError::InsufficientStake);
        }
        let moved: u64 = amount as u64;
        let held = delegated_of(&self.delegations, &delegator, &delegatee);
        let ghost lowered = StakerView { stake: (source.stake - moved) as u64, ..source@ };
        proof {
            lemma_move_out_keeps_total(self@, delegator@, delegatee@, moved);
            lemma_put(self@, lowered, delegatee@);
            lemma_backed_put(self@, self.spec_pairs(), lowered);
        }
        put_staker(
            &mut self.stakers,
            Staker {
                address: delegator.clone(),
                stake: source.stake - moved,
                delegation: source.delegation,
                rewards: source.rewards,
            },
        );
        let target = record_of(&self.stakers, &delegatee);
        proof {
            lemma_record_within_total(stakers_view(self.stakers@), delegatee@);
            lemma_delegated_within(self.spec_pairs(), delegator@, delegatee@);
            assert(target.delegation == spec_delegated_to(self.spec_pairs(), delegatee@));
            lemma_backed_shift(
                stakers_view(self.stakers@),
                self.spec_pairs(),
                StakerView { delegation: (target.delegation + moved) as u64, ..target@ },
                DelegationView {
                    delegator: delegator@,
                    delegatee: delegatee@,
                    amount: (held + moved) as u64,
                },
            );
        }
        put_pair(
            &mut self.delegations,
            Delegation {
                delegator,
                delegatee: delegatee.clone(),
                amount: held + moved,
            },
        );
        put_staker(
            &mut self.stakers,
            Staker {
                address: delegatee,
                stake: target.stake,
                delegation: target.delegation + moved,
                rewards: target.rewards,
            },
        );
        Ok(())
    }

    /// Handles undelegation of stake: the amount leaves the delegatee's
    /// delegated-in stake and returns to the delegator's stake.  The total
    /// network stake is not changed.  Fails with `InvalidAmount` where the
    /// amount is negative and with `InsufficientStake` where the delegator
    /// has less than the amount delegated to the delegatee; a failure
    /// changes nothing.
    pub fn undelegate_stake(
        &mut self,
        delegator: String,
        delegatee: String,
        amount: i128,
    ) -> (result: Result<(), ConsensusError>)
        requires
            old(self).wf(),
        ensures
            match spec_undelegate(
                old(self)@,
                old(self).spec_pairs(),
                delegator@,
                delegatee@,
                amount as int,
            ) {
                Ok(records) => {
                    &&& result is Ok
                    &&& final(self)@ == records
                    &&& final(self).spec_pairs() == spec_pair_lowered(
                        old(self).spec_pairs(),
                        delegator@,
                        delegatee@,
                        amount as u64,
                    )
                },
                Err(e) => {
                    &&& result == Err::<(), ConsensusError>(e)
                    &&& final(self)@ == old(self)@
                    &&& final(self).spec_pairs() == old(self).spec_pairs()
                },
            },
            final(self).spec_total_staked() == old(self).spec_total_staked(),
            final(self).spec_reward_rate() == old(self).spec_reward_rate(),
            final(self).wf(),
    {
        if amount < 0 {
            return Err(ConsensusError::InvalidAmount);
        }
        let held = delegated_of(&self.delegations, &delegator, &delegatee);
        if (held as i128) < amount {
            return Err(ConsensusError::InsufficientStake);
        }
        let moved: u64 = amount as u64;
        let source = record_of(&self.stakers, &delegatee);
        let ghost lowered = StakerView {
            delegation: (source.delegation - moved) as u64,
            ..source@
        };
        proof {
            lemma_delegated_within(self.spec_pairs(), delegator@, delegatee@);
            assert(source.delegation == spec_delegated_to(self.spec_pairs(), delegatee@));
            lemma_move_back_keeps_total(self@, delegator@, delegatee@, moved);
            lemma_put(self@, lowered, delegator@);
            lemma_backed_shift(
                self@,
                self.spec_pairs(),
                lowered,
                DelegationView {
                    delegator: delegator@,
                    delegatee: delegatee@,
                    amount: (held - moved) as u64,
                },
            );
            lemma_pair_put(
                self.spec_pairs(),
                DelegationView {
                    delegator: delegator@,
                    delegatee: delegatee@,
                    amount: (held - moved) as u64,
                },
                delegator@,
                delegatee@,
            );
        }
        put_pair(
            &mut self.delegations,
            Delegation {
                delegator: delegator.clone(),
                delegatee: delegatee.clone(),
                amount: held - moved,
            },
        );
        put_staker(
            &mut self.stakers,
            Staker {
                address: delegatee,
                stake: source.stake,
                delegation: source.delegation - moved,
                rewards: source.rewards,
            },
        );
        let target = record_of(&self.stakers, &delegator);
        proof {
            lemma_record_within_total(stakers_view(self.stakers@), delegator@);
            lemma_backed_put(
                stakers_view(self.stakers@),
                self.spec_pairs(),
                StakerView { stake: (target.stake + moved) as u64, ..target@ },
            );
        }
        put_staker(
            &mut self.stakers,
            Staker {
                address: delegator,
                stake: target.stake + moved,
                delegation: target.delegation,
                rewards: target.rewards,
            },
        );
        Ok(())
    }

    /// Sets the stake of `address` to zero and lowers the total by it.  What
    /// others have delegated to the address, and its rewards, stay.  The
    /// roster that is derived from this table evicts the address together
    /// with this call, in `ValidatorSet::remove_validator`.
    pub fn remove_stake(&mut self, address: &String)
        requires
            old(self).wf(),
        ensures
            final(self)@ == spec_remove_stake(old(self)@, address@),
            final(self).spec_total_staked() == old(self).spec_total_staked() - spec_record(
                old(self)@,
                address@,
            ).stake,
            final(self).spec_pairs() == old(self).spec_pairs(),
            final(self).spec_reward_rate() == old(self).spec_reward_rate(),
            final(self).wf(),
    {
        match find_staker(&self.stakers, address) {
            None => {},
            Some(i) => {
                let current = record_of(&self.stakers, address);
                proof {
                    lemma_record_within_total(self@, address@);
                    lemma_put(self@, StakerView { stake: 0, ..current@ }, address@);
                    lemma_backed_put(self@, self.spec_pairs(), StakerView { stake: 0, ..current@ });
                }
                self.total_staked = self.total_staked - current.stake;
                put_staker(
                    &mut self.stakers,
                    Staker {
                        address: current.address,
                        stake: 0,
                        delegation: current.delegation,
                        rewards: current.rewards,
                    },
                );
            },
        }
    }

    /// Retrieves the stake for a given address: `None` for an address
    /// without a record.
    pub fn get_stake(&self, address: &String) -> (stake: Option<u64>)
        requires
            self.wf(),
        ensures
            stake == if spec_registered(self@, address@) {
                Some(spec_record(self@, address@).stake)
            } else {
                None
            },
    {
        match find_staker(&self.stakers, address) {
            Some(i) => Some(self.stakers[i].stake),
            None => None,
        }
    }

    /// Retrieves the voting weight of an address: its own stake plus what
    /// others have delegated to it.
    pub fn get_weight(&self, address: &String) -> (weight: u64)
        requires
            self.wf(),
        ensures
            weight == spec_weight(spec_record(self@, address@)),
    {
        proof {
            lemma_record_within_total(self@, address@);
        }
        let record = record_of(&self.stakers, address);
        record.stake + record.delegation
    }

    /// Retrieves the rewards accrued by an address.
    pub fn get_rewards(&self, address: &String) -> (rewards: u64)
        requires
            self.wf(),
        ensures
            rewards == spec_record(self@, address@).rewards,
    {
        record_of(&self.stakers, address).rewards
    }

    /// Retrieves the stake that others have delegated to an address.
    pub fn get_delegation(&self, address: &String) -> (delegation: u64)
        requires
            self.wf(),
        ensures
            delegation == spec_record(self@, address@).delegation,
    {
        record_of(&self.stakers, address).delegation
    }

    /// Retrieves what `delegator` has delegated to `delegatee` and not taken
    /// back.
    pub fn get_delegated(&self, delegator: &String, delegatee: &String) -> (amount: u64)
        requires
            self.wf(),
        ensures
            amount == spec_delegated(self.spec_pairs(), delegator@, delegatee@),
    {
        delegated_of(&self.delegations, delegator, delegatee)
    }

    /// Retrieves the total staked amount in the network.
    pub fn get_total_staked(&self) -> (total: u64)
        ensures
            total == self.spec_total_staked(),
    {
        self.total_staked
    }

    /// Calculates the total stake in the network from the records: the sum
    /// of all stakes and delegated-in stakes.  It is the total that the
    /// manager keeps.
    pub fn calculate_total_stake(&self) -> (total: u64)
        requires
            self.wf(),
        ensures
            total == spec_total_weight(self@),
            total == self.spec_total_staked(),
    {
        let ghost all = self@;
        let mut total: u64 = 0;
        let mut i: usize = 0;
        assert(all.take(0) =~= Seq::<StakerView>::empty());
        while i < self.stakers.len()
            invariant
                i <= self.stakers.len(),
                all == self@,
                self.wf(),
                total == spec_total_weight(all.take(i as int)),
            decreases self.stakers.len() - i,
        {
            proof {
                let next = all.take(i + 1);
                assert(next.drop_last() =~= all.take(i as int));
                assert(next.last() == self.stakers@[i as int]@);
                lemma_total_prefix(all, i + 1);
            }
            total = total + self.stakers[i].stake + self.stakers[i].delegation;
            i += 1;
        }
        assert(all.take(i as int) =~= all);
        total
    }

    /// Retrieves the reward rate in force.
    pub fn get_reward_rate(&self) -> (rate: u64)
        ensures
            rate == self.spec_reward_rate(),
    {
        self.reward_rate
    }

    /// Updates the reward rate.
    pub fn update_reward_rate(&mut self, new_rate: u64)
        ensures
            final(self).spec_reward_rate() == new_rate,
            final(self)@ == old(self)@,
            final(self).spec_total_staked() == old(self).spec_total_staked(),
            final(self).spec_pairs() == old(self).spec_pairs(),
    {
        self.reward_rate = new_rate;
    }

    /// Copies the stake table and the total network stake.
    pub fn snapshot(&self) -> (snapshot: StakeSnapshot)
        requires
            self.wf(),
        ensures
            snapshot@ == self@,
            snapshot.spec_total_staked() == self.spec_total_staked(),
            snapshot.wf(),
    {
        StakeSnapshot { stakers: duplicate_stakers(&self.stakers), total_staked: self.total_staked }
    }

    /// Credits the rewards listed, all or none.  Only addresses that the
    /// snapshot knows can be credited; the stake table as it is now is not
    /// consulted for that.
    pub fn distribute_rewards(
        &mut self,
        snapshot: &StakeSnapshot,
        rewards: &Vec<(String, u64)>,
    ) -> (result: Result<(), ConsensusError>)
        requires
            old(self).wf(),
            snapshot.wf(),
        ensures
            match spec_distribute(old(self)@, snapshot@, rewards_view(rewards@)) {
                Ok(records) => result is Ok && final(self)@ == records,
                Err(e) => result == Err::<(), ConsensusError>(e) && final(self)@ == old(self)@,
            },
            final(self).spec_total_staked() == old(self).spec_total_staked(),
            final(self).spec_pairs() == old(self).spec_pairs(),
            final(self).spec_reward_rate() == old(self).spec_reward_rate(),
            final(self).wf(),
    {
        let ghost entries = rewards_view(rewards@);
        let mut scratch = duplicate_stakers(&self.stakers);
        let mut i: usize = 0;
        assert(entries.skip(0) =~= entries);
        while i < rewards.len()
            invariant
                i <= rewards.len(),
                entries == rewards_view(rewards@),
                snapshot.wf(),
                spec_table_wf(stakers_view(scratch@)),
                spec_backed(stakers_view(scratch@), self.spec_pairs()),
                spec_total_weight(stakers_view(scratch@)) == spec_total_weight(old(self)@),
                spec_distribute(old(self)@, snapshot@, entries) == spec_distribute(
                    stakers_view(scratch@),
                    snapshot@,
                    entries.skip(i as int),
                ),
                *self == *old(self),
                self.wf(),
            decreases rewards.len() - i,
        {
            let ghost rest = entries.skip(i as int);
            proof {
                assert(rest.first() == (rewards@[i as int].0@, rewards@[i as int].1));
                assert(rest.drop_first() =~= entries.skip(i + 1));
            }
            let address = &rewards[i].0;
            let amount = rewards[i].1;
            if !snapshot.contains(address) {
                return Err(ConsensusError::NoStakeRegistered);
            }
            let record = record_of(&scratch, address);
            if amount > u64::MAX - record.rewards {
                return Err(ConsensusError::InvalidAmount);
            }
            proof {
                lemma_put(
                    stakers_view(scratch@),
                    StakerView { rewards: (record.rewards + amount) as u64, ..record@ },
                    address@,
                );
                lemma_backed_put(
                    stakers_view(scratch@),
                    self.spec_pairs(),
                    StakerView { rewards: (record.rewards + amount) as u64, ..record@ },
                );
            }
            put_staker(
                &mut scratch,
                Staker {
                    address: record.address,
                    stake: record.stake,
                    delegation: record.delegation,
                    rewards: record.rewards + amount,
                },
            );
            i += 1;
        }
        assert(entries.skip(i as int) =~= Seq::<(Seq<char>, u64)>::empty());
        self.stakers = scratch;
        Ok(())
    }
}

} // verus!
