//! Stake-weighted draws.
//!
//! A draw hashes a seed together with a counter, reduces the digest modulo
//! the total stake of the pool, and picks the validator in whose share of
//! the total the result falls.  A validator is therefore drawn with a
//! probability proportional to its stake, and every node that holds the
//! same seed and the same pool draws the same validator.

use vstd::prelude::*;
use crate::bytes::{append_u64, copy_bytes, leading_u128, spec_encode_u64, spec_leading_u128};
use crate::crypto::{sha256, sha256_digest};
use crate::validator_set::{spec_validator_ids, validators_view, Validator, ValidatorView};

verus! {

/// The sum of the stakes of `pool`.
pub open spec fn spec_pool_stake(pool: Seq<ValidatorView>) -> nat
    decreases pool.len(),
{
    if pool.len() == 0 {
        0
    } else {
        pool.first().stake as nat + spec_pool_stake(pool.drop_first())
    }
}

/// The position in `pool` of the validator in whose share `ticket` falls:
/// the first position at which the stakes up to and including it add up to
/// more than `ticket`.  It is the length of the pool where the ticket is not
/// below the total stake.
pub open spec fn spec_pick(pool: Seq<ValidatorView>, ticket: nat) -> int
    decreases pool.len(),
{
    if pool.len() == 0 {
        0
    } else if ticket < pool.first().stake {
        0
    } else {
        1 + spec_pick(pool.drop_first(), (ticket - pool.first().stake) as nat)
    }
}

/// The number drawn from `seed` at `counter`: the leading sixteen bytes of
/// the SHA-256 digest of the seed followed by the counter.
pub open spec fn spec_ticket(seed: Seq<u8>, counter: u64) -> u128 {
    spec_leading_u128(sha256(seed + spec_encode_u64(counter)))
}

/// The position in `pool` of the validator drawn from `seed` at `counter`;
/// `None` where the pool holds no stake.
pub open spec fn spec_draw(seed: Seq<u8>, pool: Seq<ValidatorView>, counter: u64) -> Option<int> {
    if spec_pool_stake(pool) == 0 {
        None
    } else {
        Some(spec_pick(pool, spec_ticket(seed, counter) as nat % spec_pool_stake(pool)))
    }
}

/// Up to `count` validators drawn from `pool` without replacement, in the
/// order in which they are drawn; the draws are numbered from `counter`.
/// Drawing ends early where the rest of the pool holds no stake.
pub open spec fn spec_sample(
    seed: Seq<u8>,
    pool: Seq<ValidatorView>,
    count: nat,
    counter: u64,
) -> Seq<ValidatorView>
    decreases count,
{
    if count == 0 {
        Seq::empty()
    } else {
        match spec_draw(seed, pool, counter) {
            None => Seq::empty(),
            Some(i) => seq![pool[i]] + spec_sample(
                seed,
                pool.remove(i),
                (count - 1) as nat,
                (counter + 1) as u64,
            ),
        }
    }
}

/// A ticket below the total stake falls in the share of a validator of the
/// pool, and that validator holds stake.
pub proof fn lemma_pick_in_pool(pool: Seq<ValidatorView>, ticket: nat)
    requires
        ticket < spec_pool_stake(pool),
    ensures
        0 <= spec_pick(pool, ticket) < pool.len(),
        pool[spec_pick(pool, ticket)].stake > 0,
    decreases pool.len(),
{
    if pool.len() > 0 && ticket >= pool.first().stake {
        lemma_pick_in_pool(pool.drop_first(), (ticket - pool.first().stake) as nat);
    }
}

/// A draw from a pool that holds stake yields a position of the pool.
pub proof fn lemma_draw_in_pool(seed: Seq<u8>, pool: Seq<ValidatorView>, counter: u64)
    ensures
        spec_draw(seed, pool, counter) matches Some(i) ==> 0 <= i < pool.len() && pool[i].stake > 0,
        spec_draw(seed, pool, counter) is None <==> spec_pool_stake(pool) == 0,
{
    let total = spec_pool_stake(pool);
    if total > 0 {
        let ticket = spec_ticket(seed, counter) as nat % total;
        assert(ticket < total) by (nonlinear_arith)
            requires
                total > 0,
                ticket == spec_ticket(seed, counter) as nat % total,
        ;
        lemma_pick_in_pool(pool, ticket);
    }
}

/// Every sampled validator is a validator of the pool, and no more than
/// `count` are sampled.
pub proof fn lemma_sample_from_pool(
    seed: Seq<u8>,
    pool: Seq<ValidatorView>,
    count: nat,
    counter: u64,
)
    ensures
        spec_sample(seed, pool, count, counter).len() <= count,
        spec_sample(seed, pool, count, counter).len() <= pool.len(),
        forall|k: int|
            0 <= k < spec_sample(seed, pool, count, counter).len() ==> pool.contains(
                #[trigger] spec_sample(seed, pool, count, counter)[k],
            ),
    decreases count,
{
    if count > 0 {
        lemma_draw_in_pool(seed, pool, counter);
        match spec_draw(seed, pool, counter) {
            None => {},
            Some(i) => {
                let rest = pool.remove(i);
                let tail = spec_sample(seed, rest, (count - 1) as nat, (counter + 1) as u64);
                lemma_sample_from_pool(seed, rest, (count - 1) as nat, (counter + 1) as u64);
                let all = seq![pool[i]] + tail;
                assert forall|k: int| 0 <= k < all.len() implies pool.contains(
                    #[trigger] all[k],
                ) by {
                    if k == 0 {
                        assert(pool[i] == all[0]);
                    } else {
                        assert(all[k] == tail[k - 1]);
                        assert(rest.contains(tail[k - 1]));
                        let j = choose|j: int| 0 <= j < rest.len() && rest[j] == tail[k - 1];
                        assert(rest[j] == pool[if j < i { j } else { j + 1 }]);
                    }
                }
            },
        }
    }
}

/// A validator is drawn by exactly as many tickets as it holds stake: the
/// ticket picks the validator at `i` if and only if it lies in the `i`-th
/// share, which begins where the stakes before `i` end and is as long as the
/// stake at `i`.  With tickets spread evenly, a validator is therefore
/// drawn in proportion to its stake.
pub proof fn lemma_pick_share(pool: Seq<ValidatorView>, ticket: nat, i: int)
    requires
        0 <= i < pool.len(),
    ensures
        spec_pick(pool, ticket) == i <==> spec_pool_stake(pool.take(i)) <= ticket < spec_pool_stake(
            pool.take(i),
        ) + pool[i].stake,
    decreases pool.len(),
{
    let first = pool.first().stake as nat;
    let rest = pool.drop_first();
    if i == 0 {
        assert(pool.take(0) =~= Seq::<ValidatorView>::empty());
        if ticket >= first {
            lemma_pick_nonnegative(rest, (ticket - first) as nat);
        }
    } else {
        assert(pool.take(i).first() == pool.first());
        assert(pool.take(i).drop_first() =~= rest.take(i - 1));
        assert(rest[i - 1] == pool[i]);
        if ticket >= first {
            lemma_pick_share(rest, (ticket - first) as nat, i - 1);
        }
    }
}

/// A pick is never a negative position.
pub proof fn lemma_pick_nonnegative(pool: Seq<ValidatorView>, ticket: nat)
    ensures
        0 <= spec_pick(pool, ticket),
    decreases pool.len(),
{
    if pool.len() > 0 && ticket >= pool.first().stake {
        lemma_pick_nonnegative(pool.drop_first(), (ticket - pool.first().stake) as nat);
    }
}

/// Sampling is without replacement: from a pool in which no identifier
/// occurs twice, no validator is sampled twice.
pub proof fn lemma_sample_distinct(
    seed: Seq<u8>,
    pool: Seq<ValidatorView>,
    count: nat,
    counter: u64,
)
    requires
        spec_validator_ids(pool).no_duplicates(),
    ensures
        spec_validator_ids(spec_sample(seed, pool, count, counter)).no_duplicates(),
    decreases count,
{
    if count > 0 {
        lemma_draw_in_pool(seed, pool, counter);
        match spec_draw(seed, pool, counter) {
            None => {},
            Some(i) => {
                let rest = pool.remove(i);
                let tail = spec_sample(seed, rest, (count - 1) as nat, (counter + 1) as u64);
                let all = seq![pool[i]] + tail;
                let keys = spec_validator_ids(pool);
                assert forall|a: int, b: int|
                    0 <= a < rest.len() && 0 <= b < rest.len() && a != b implies spec_validator_ids(
                    rest,
                )[a] != spec_validator_ids(rest)[b] by {
                    let sa = if a < i { a } else { a + 1 };
                    let sb = if b < i { b } else { b + 1 };
                    assert(keys[sa] != keys[sb]);
                }
                lemma_sample_distinct(seed, rest, (count - 1) as nat, (counter + 1) as u64);
                lemma_sample_from_pool(seed, rest, (count - 1) as nat, (counter + 1) as u64);
                let ids = spec_validator_ids(all);
                assert forall|a: int, b: int|
                    0 <= a < ids.len() && 0 <= b < ids.len() && a != b implies ids[a] != ids[b] by {
                    if a > 0 && b > 0 {
                        assert(spec_validator_ids(tail)[a - 1] != spec_validator_ids(tail)[b - 1]);
                    } else {
                        let other = if a == 0 { b } else { a };
                        assert(rest.contains(tail[other - 1]));
                        let j = choose|j: int| 0 <= j < rest.len() && rest[j] == tail[other - 1];
                        let src = if j < i { j } else { j + 1 };
                        assert(keys[src] != keys[i]);
                    }
                }
            },
        }
    }
}

/// The total stake of `pool`.
pub fn pool_stake(pool: &Vec<Validator>) -> (total: u128)
    ensures
        total == spec_pool_stake(validators_view(pool@)),
{
    let ghost all = validators_view(pool@);
    let mut total: u128 = 0;
    let mut i: usize = 0;
    assert(all.skip(0) =~= all);
    while i < pool.len()
        invariant
            i <= pool.len(),
            all == validators_view(pool@),
            total + spec_pool_stake(all.skip(i as int)) == spec_pool_stake(all),
            total <= i * u64::MAX,
        decreases pool.len() - i,
    {
        proof {
            let rest = all.skip(i as int);
            assert(rest.first() == pool@[i as int]@);
            assert(rest.drop_first() =~= all.skip(i + 1));
            assert(i * u64::MAX + u64::MAX == (i + 1) * u64::MAX) by (nonlinear_arith);
            assert((i + 1) * u64::MAX <= usize::MAX * u64::MAX) by (nonlinear_arith)
                requires
                    i + 1 <= usize::MAX,
            ;
        }
        total = total + pool[i].stake as u128;
        i += 1;
    }
    assert(all.skip(i as int) =~= Seq::<ValidatorView>::empty());
    total
}

/// The position in `pool` of the validator in whose share `ticket` falls.
pub fn pick(pool: &Vec<Validator>, ticket: u128) -> (position: usize)
    requires
        ticket < spec_pool_stake(validators_view(pool@)),
    ensures
        position == spec_pick(validators_view(pool@), ticket as nat),
        position < pool.len(),
{
    let ghost all = validators_view(pool@);
    let mut left: u128 = ticket;
    let mut i: usize = 0;
    assert(all.skip(0) =~= all);
    proof {
        lemma_pick_in_pool(all, ticket as nat);
    }
    while i < pool.len()
        invariant
            i <= pool.len(),
            all == validators_view(pool@),
            left < spec_pool_stake(all.skip(i as int)),
            spec_pick(all, ticket as nat) == i + spec_pick(all.skip(i as int), left as nat),
            spec_pick(all, ticket as nat) < pool.len(),
        decreases pool.len() - i,
    {
        proof {
            let rest = all.skip(i as int);
            assert(rest.first() == pool@[i as int]@);
            assert(rest.drop_first() =~= all.skip(i + 1));
        }
        let stake: u128 = pool[i].stake as u128;
        if left < stake {
            return i;
        }
        left = left - stake;
        i += 1;
    }
    proof {
        assert(all.skip(i as int) =~= Seq::<ValidatorView>::empty());
    }
    i
}

/// Draws a validator of `pool` from `seed` at `counter`; yields its
/// position, or `None` where the pool holds no stake.
pub fn draw(seed: &Vec<u8>, pool: &Vec<Validator>, counter: u64) -> (position: Option<usize>)
    ensures
        match spec_draw(seed@, validators_view(pool@), counter) {
            None => position is None,
            Some(i) => position == Some(i as usize) && 0 <= i < pool.len(),
        },
{
    let total = pool_stake(pool);
    if total == 0 {
        return None;
    }
    let mut preimage = copy_bytes(seed);
    append_u64(&mut preimage, counter);
    let digest = sha256_digest(&preimage);
    let ticket = leading_u128(&digest) % total;
    proof {
        lemma_draw_in_pool(seed@, validators_view(pool@), counter);
    }
    Some(pick(pool, ticket))
}

} // verus!
