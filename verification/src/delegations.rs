//! The record of delegations: for every pair of a delegator and a delegatee
//! the amount that the one has delegated to the other and not taken back.
//!
//! The delegated-in stake of an address is the sum of what the pairs with
//! that delegatee hold.  A delegator can take back only what its own pair
//! holds.

use vstd::prelude::*;
use crate::keyed::{key_index, lemma_key_index_absent, lemma_key_index_found, lemma_key_index_push,
    lemma_key_index_valid};
use crate::stake_manager::{lemma_put, spec_put, spec_record, spec_table_wf, StakerView};

verus! {

/// What one address has delegated to another.
#[derive(Debug, Clone, PartialEq, Eq)]
pub struct Delegation {
    /// The address whose stake is delegated.
    pub delegator: String,
    /// The address that holds the stake as delegated-in stake.
    pub delegatee: String,
    /// What the delegator has delegated to the delegatee and not taken back.
    pub amount: u64,
}

/// What a [`Delegation`] holds, as plain mathematical values.
pub ghost struct DelegationView {
    pub delegator: Seq<char>,
    pub delegatee: Seq<char>,
    pub amount: u64,
}

impl View for Delegation {
    type V = DelegationView;

    open spec fn view(&self) -> DelegationView {
        DelegationView {
            delegator: self.delegator@,
            delegatee: self.delegatee@,
            amount: self.amount,
        }
    }
}

/// The views of a sequence of delegations, in the same order.
pub open spec fn delegations_view(delegations: Seq<Delegation>) -> Seq<DelegationView> {
    Seq::new(delegations.len(), |i: int| delegations[i]@)
}

/// The pairs of delegator and delegatee of a list of delegations, in list
/// order.
pub open spec fn spec_pair_keys(pairs: Seq<DelegationView>) -> Seq<(Seq<char>, Seq<char>)> {
    Seq::new(pairs.len(), |i: int| (pairs[i].delegator, pairs[i].delegatee))
}

/// A list of delegations is well formed when no pair occurs twice.
pub open spec fn spec_pairs_wf(pairs: Seq<DelegationView>) -> bool {
    spec_pair_keys(pairs).no_duplicates()
}

/// What `delegator` has delegated to `delegatee`: zero where the list holds
/// no such pair.
pub open spec fn spec_delegated(
    pairs: Seq<DelegationView>,
    delegator: Seq<char>,
    delegatee: Seq<char>,
) -> u64 {
    match key_index(spec_pair_keys(pairs), (delegator, delegatee)) {
        Some(i) => pairs[i].amount,
        None => 0,
    }
}

/// What `pair` adds to the delegated-in stake of `delegatee`.
pub open spec fn spec_share(pair: DelegationView, delegatee: Seq<char>) -> nat {
    if pair.delegatee == delegatee {
        pair.amount as nat
    } else {
        0
    }
}

/// What all delegators together have delegated to `delegatee`.
pub open spec fn spec_delegated_to(pairs: Seq<DelegationView>, delegatee: Seq<char>) -> nat
    decreases pairs.len(),
{
    if pairs.len() == 0 {
        0
    } else {
        spec_delegated_to(pairs.drop_last(), delegatee) + spec_share(pairs.last(), delegatee)
    }
}

/// The list in which `pair` stands for its delegator and delegatee: in the
/// place of the earlier delegation of that pair, or at the end.
pub open spec fn spec_pair_put(
    pairs: Seq<DelegationView>,
    pair: DelegationView,
) -> Seq<DelegationView> {
    match key_index(spec_pair_keys(pairs), (pair.delegator, pair.delegatee)) {
        Some(i) => pairs.update(i, pair),
        None => pairs.push(pair),
    }
}

/// The list after `delegator` has delegated `amount` more to `delegatee`.
pub open spec fn spec_pair_raised(
    pairs: Seq<DelegationView>,
    delegator: Seq<char>,
    delegatee: Seq<char>,
    amount: u64,
) -> Seq<DelegationView> {
    spec_pair_put(
        pairs,
        DelegationView {
            delegator,
            delegatee,
            amount: (spec_delegated(pairs, delegator, delegatee) + amount) as u64,
        },
    )
}

/// The list after `delegator` has taken `amount` back from `delegatee`.
pub open spec fn spec_pair_lowered(
    pairs: Seq<DelegationView>,
    delegator: Seq<char>,
    delegatee: Seq<char>,
    amount: u64,
) -> Seq<DelegationView> {
    spec_pair_put(
        pairs,
        DelegationView {
            delegator,
            delegatee,
            amount: (spec_delegated(pairs, delegator, delegatee) - amount) as u64,
        },
    )
}

/// Whether the delegated-in stake of every address in `records` is the sum
/// of what the pairs with that delegatee hold.
pub open spec fn spec_backed(records: Seq<StakerView>, pairs: Seq<DelegationView>) -> bool {
    forall|address: Seq<char>|
        spec_record(records, address).delegation == #[trigger] spec_delegated_to(pairs, address)
}

/// Replacing the delegation at `i` changes the sum of a delegatee by the
/// difference of the two shares.
pub proof fn lemma_sum_update(
    pairs: Seq<DelegationView>,
    i: int,
    pair: DelegationView,
    delegatee: Seq<char>,
)
    requires
        0 <= i < pairs.len(),
    ensures
        spec_delegated_to(pairs.update(i, pair), delegatee) == spec_delegated_to(pairs, delegatee)
            - spec_share(pairs[i], delegatee) + spec_share(pair, delegatee),
    decreases pairs.len(),
{
    let updated = pairs.update(i, pair);
    if i == pairs.len() - 1 {
        assert(updated.drop_last() =~= pairs.drop_last());
    } else {
        assert(updated.drop_last() =~= pairs.drop_last().update(i, pair));
        lemma_sum_update(pairs.drop_last(), i, pair, delegatee);
    }
}

/// No share exceeds the sum of its delegatee.
pub proof fn lemma_share_within(pairs: Seq<DelegationView>, i: int, delegatee: Seq<char>)
    requires
        0 <= i < pairs.len(),
    ensures
        spec_share(pairs[i], delegatee) <= spec_delegated_to(pairs, delegatee),
    decreases pairs.len(),
{
    if i < pairs.len() - 1 {
        lemma_share_within(pairs.drop_last(), i, delegatee);
    }
}

/// What a delegator has delegated to a delegatee is within what the
/// delegatee holds as delegated-in stake.
pub proof fn lemma_delegated_within(
    pairs: Seq<DelegationView>,
    delegator: Seq<char>,
    delegatee: Seq<char>,
)
    ensures
        spec_delegated(pairs, delegator, delegatee) <= spec_delegated_to(pairs, delegatee),
{
    lemma_key_index_valid(spec_pair_keys(pairs), (delegator, delegatee));
    match key_index(spec_pair_keys(pairs), (delegator, delegatee)) {
        Some(i) => {
            assert(spec_pair_keys(pairs)[i] == (pairs[i].delegator, pairs[i].delegatee));
            lemma_share_within(pairs, i, delegatee);
        },
        None => {},
    }
}

/// Putting a delegation keeps the list well formed, makes the amount that
/// of its pair, leaves every other pair as it was, and changes the sum of
/// its delegatee by the difference of the new amount and the old.
pub proof fn lemma_pair_put(
    pairs: Seq<DelegationView>,
    pair: DelegationView,
    delegator: Seq<char>,
    delegatee: Seq<char>,
)
    requires
        spec_pairs_wf(pairs),
    ensures
        spec_pairs_wf(spec_pair_put(pairs, pair)),
        spec_delegated(spec_pair_put(pairs, pair), delegator, delegatee) == if delegator
            == pair.delegator && delegatee == pair.delegatee {
            pair.amount
        } else {
            spec_delegated(pairs, delegator, delegatee)
        },
        spec_delegated_to(spec_pair_put(pairs, pair), delegatee) == spec_delegated_to(
            pairs,
            delegatee,
        ) - (if pair.delegatee == delegatee {
            spec_delegated(pairs, pair.delegator, pair.delegatee) as int
        } else {
            0
        }) + spec_share(pair, delegatee),
{
    let keys = spec_pair_keys(pairs);
    let key = (pair.delegator, pair.delegatee);
    let after = spec_pair_put(pairs, pair);
    lemma_key_index_valid(keys, key);
    lemma_key_index_valid(keys, (delegator, delegatee));
    match key_index(keys, key) {
        Some(i) => {
            assert(keys[i] == (pairs[i].delegator, pairs[i].delegatee));
            assert(spec_pair_keys(after) =~= keys);
            lemma_sum_update(pairs, i, pair, delegatee);
        },
        None => {
            assert(spec_pair_keys(after) =~= keys.push(key));
            lemma_key_index_push(keys, key, (delegator, delegatee));
            assert(after.drop_last() =~= pairs);
        },
    }
}

/// A record that keeps its delegated-in stake can be put without touching
/// the pairs.
pub proof fn lemma_backed_put(
    records: Seq<StakerView>,
    pairs: Seq<DelegationView>,
    record: StakerView,
)
    requires
        spec_table_wf(records),
        spec_backed(records, pairs),
        record.delegation == spec_record(records, record.address).delegation,
    ensures
        spec_backed(spec_put(records, record), pairs),
{
    assert forall|address: Seq<char>|
        spec_record(spec_put(records, record), address).delegation == #[trigger] spec_delegated_to(
            pairs,
            address,
        ) by {
        lemma_put(records, record, address);
    }
}

/// A record whose delegated-in stake changes by as much as the amount of
/// one of its pairs can be put together with that pair.
pub proof fn lemma_backed_shift(
    records: Seq<StakerView>,
    pairs: Seq<DelegationView>,
    record: StakerView,
    pair: DelegationView,
)
    requires
        spec_table_wf(records),
        spec_pairs_wf(pairs),
        spec_backed(records, pairs),
        record.address == pair.delegatee,
        record.delegation - spec_record(records, record.address).delegation == pair.amount
            - spec_delegated(pairs, pair.delegator, pair.delegatee),
    ensures
        spec_backed(spec_put(records, record), spec_pair_put(pairs, pair)),
{
    assert forall|address: Seq<char>|
        spec_record(spec_put(records, record), address).delegation == #[trigger] spec_delegated_to(
            spec_pair_put(pairs, pair),
            address,
        ) by {
        lemma_put(records, record, address);
        lemma_pair_put(pairs, pair, pair.delegator, address);
        assert(spec_record(records, address).delegation == spec_delegated_to(pairs, address));
    }
}

/// Finds the delegation of a pair in a list without repeated pairs.
pub fn find_pair(
    delegations: &Vec<Delegation>,
    delegator: &String,
    delegatee: &String,
) -> (found: Option<usize>)
    requires
        spec_pairs_wf(delegations_view(delegations@)),
    ensures
        found matches Some(i) ==> i < delegations.len() && key_index(
            spec_pair_keys(delegations_view(delegations@)),
            (delegator@, delegatee@),
        ) == Some(i as int),
        found is None ==> key_index(
            spec_pair_keys(delegations_view(delegations@)),
            (delegator@, delegatee@),
        ) is None,
{
    let ghost keys = spec_pair_keys(delegations_view(delegations@));
    let mut i: usize = 0;
    while i < delegations.len()
        invariant
            i <= delegations.len(),
            keys == spec_pair_keys(delegations_view(delegations@)),
            keys.no_duplicates(),
            forall|k: int| 0 <= k < i ==> keys[k] != (delegator@, delegatee@),
        decreases delegations.len() - i,
    {
        if delegations[i].delegator == *delegator && delegations[i].delegatee == *delegatee {
            proof {
                lemma_key_index_found(keys, (delegator@, delegatee@), i as int);
            }
            return Some(i);
        }
        i += 1;
    }
    proof {
        lemma_key_index_absent(keys, (delegator@, delegatee@));
    }
    None
}

/// What `delegator` has delegated to `delegatee`.
pub fn delegated_of(
    delegations: &Vec<Delegation>,
    delegator: &String,
    delegatee: &String,
) -> (amount: u64)
    requires
        spec_pairs_wf(delegations_view(delegations@)),
    ensures
        amount == spec_delegated(delegations_view(delegations@), delegator@, delegatee@),
{
    match find_pair(delegations, delegator, delegatee) {
        Some(i) => delegations[i].amount,
        None => 0,
    }
}

/// Puts `pair` into the list in the place of the earlier delegation of its
/// delegator and delegatee, or at the end.
pub fn put_pair(delegations: &mut Vec<Delegation>, pair: Delegation)
    requires
        spec_pairs_wf(delegations_view(old(delegations)@)),
    ensures
        delegations_view(final(delegations)@) == spec_pair_put(
            delegations_view(old(delegations)@),
            pair@,
        ),
        spec_pairs_wf(delegations_view(final(delegations)@)),
{
    proof {
        lemma_pair_put(delegations_view(delegations@), pair@, pair@.delegator, pair@.delegatee);
    }
    match find_pair(delegations, &pair.delegator, &pair.delegatee) {
        Some(i) => {
            delegations[i] = pair;
            assert(delegations_view(delegations@) =~= delegations_view(old(delegations)@).update(
                i as int,
                pair@,
            ));
        },
        None => {
            delegations.push(pair);
            assert(delegations_view(delegations@) =~= delegations_view(old(delegations)@).push(
                pair@,
            ));
        },
    }
}

} // verus!
