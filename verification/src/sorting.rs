//! A canonical order of validators: by identifier, byte by byte in UTF-8.
//!
//! Draws are made from pools in this order, so that what is drawn depends
//! on which validators a pool holds and not on the order in which they
//! were added to it.

use vstd::prelude::*;
use vstd::utf8::{encode_utf8, encode_utf8_decode_utf8};
use crate::validator_set::{spec_validator_ids, validators_view, Validator, ValidatorView};

verus! {

/// Whether `a` comes before `b` in the lexicographic order of byte strings:
/// at the first position where they differ `a` holds the smaller byte, or
/// `a` ends there and `b` goes on.
pub open spec fn spec_lex_less(a: Seq<u8>, b: Seq<u8>) -> bool
    decreases a.len(),
{
    if b.len() == 0 {
        false
    } else if a.len() == 0 {
        true
    } else if a.first() != b.first() {
        a.first() < b.first()
    } else {
        spec_lex_less(a.drop_first(), b.drop_first())
    }
}

/// Whether the identifier `a` comes before the identifier `b`: by their
/// UTF-8 bytes.
pub open spec fn spec_id_less(a: Seq<char>, b: Seq<char>) -> bool {
    spec_lex_less(encode_utf8(a), encode_utf8(b))
}

/// Whether the validators of `s` stand in strictly rising order of their
/// identifiers.
pub open spec fn spec_sorted(s: Seq<ValidatorView>) -> bool {
    forall|i: int, j: int| 0 <= i < j < s.len() ==> spec_id_less(
        #[trigger] s[i].id,
        #[trigger] s[j].id,
    )
}

/// The sequence `sorted` with `v` put in before the first validator that
/// does not come before it.
pub open spec fn spec_insert_sorted(
    sorted: Seq<ValidatorView>,
    v: ValidatorView,
) -> Seq<ValidatorView>
    decreases sorted.len(),
{
    if sorted.len() == 0 {
        seq![v]
    } else if spec_id_less(sorted.first().id, v.id) {
        seq![sorted.first()] + spec_insert_sorted(sorted.drop_first(), v)
    } else {
        seq![v] + sorted
    }
}

/// The validators of `s` in the order of their identifiers.
pub open spec fn spec_sort(s: Seq<ValidatorView>) -> Seq<ValidatorView>
    decreases s.len(),
{
    if s.len() == 0 {
        Seq::empty()
    } else {
        spec_insert_sorted(spec_sort(s.drop_last()), s.last())
    }
}

/// Whether two sequences hold the same validators, in whatever order.
pub open spec fn spec_same_members(a: Seq<ValidatorView>, b: Seq<ValidatorView>) -> bool {
    forall|v: ValidatorView| a.contains(v) <==> b.contains(v)
}

/// No byte string comes before itself.
pub proof fn lemma_lex_irreflexive(a: Seq<u8>)
    ensures
        !spec_lex_less(a, a),
    decreases a.len(),
{
    if a.len() > 0 {
        lemma_lex_irreflexive(a.drop_first());
    }
}

/// What comes before a byte string comes before everything behind it.
pub proof fn lemma_lex_transitive(a: Seq<u8>, b: Seq<u8>, c: Seq<u8>)
    requires
        spec_lex_less(a, b),
        spec_lex_less(b, c),
    ensures
        spec_lex_less(a, c),
    decreases a.len(),
{
    if a.len() > 0 && a.first() == b.first() && b.first() == c.first() {
        lemma_lex_transitive(a.drop_first(), b.drop_first(), c.drop_first());
    }
}

/// Of two different byte strings one comes before the other.
pub proof fn lemma_lex_total(a: Seq<u8>, b: Seq<u8>)
    ensures
        a == b || spec_lex_less(a, b) || spec_lex_less(b, a),
    decreases a.len(),
{
    if a.len() == 0 || b.len() == 0 {
        if a.len() == 0 && b.len() == 0 {
            assert(a =~= b);
        }
    } else if a.first() == b.first() {
        lemma_lex_total(a.drop_first(), b.drop_first());
        if a.drop_first() == b.drop_first() {
            assert(a =~= seq![a.first()] + a.drop_first());
            assert(b =~= seq![b.first()] + b.drop_first());
        }
    }
}

/// Of two different identifiers one comes before the other, and no
/// identifier comes before itself.
pub proof fn lemma_id_total(a: Seq<char>, b: Seq<char>)
    ensures
        !spec_id_less(a, a),
        a == b || spec_id_less(a, b) || spec_id_less(b, a),
{
    lemma_lex_irreflexive(encode_utf8(a));
    lemma_lex_total(encode_utf8(a), encode_utf8(b));
    encode_utf8_decode_utf8(a);
    encode_utf8_decode_utf8(b);
}

/// The order of identifiers is transitive.
pub proof fn lemma_id_transitive(a: Seq<char>, b: Seq<char>, c: Seq<char>)
    requires
        spec_id_less(a, b),
        spec_id_less(b, c),
    ensures
        spec_id_less(a, c),
{
    lemma_lex_transitive(encode_utf8(a), encode_utf8(b), encode_utf8(c));
}

/// A sequence with one validator put in front holds that validator and
/// those of the sequence.
pub proof fn lemma_cons_contains(head: ValidatorView, tail: Seq<ValidatorView>, v: ValidatorView)
    ensures
        (seq![head] + tail).contains(v) <==> v == head || tail.contains(v),
{
    let all = seq![head] + tail;
    if all.contains(v) {
        let k = choose|k: int| 0 <= k < all.len() && all[k] == v;
        if k > 0 {
            assert(tail[k - 1] == v);
        }
    }
    if v == head {
        assert(all[0] == v);
    }
    if tail.contains(v) {
        let k = choose|k: int| 0 <= k < tail.len() && tail[k] == v;
        assert(all[k + 1] == v);
    }
}

/// Putting a validator in adds it and nothing else.
pub proof fn lemma_insert_members(sorted: Seq<ValidatorView>, v: ValidatorView, x: ValidatorView)
    ensures
        spec_insert_sorted(sorted, v).len() == sorted.len() + 1,
        spec_insert_sorted(sorted, v).contains(x) <==> x == v || sorted.contains(x),
    decreases sorted.len(),
{
    if sorted.len() == 0 {
        assert(sorted =~= Seq::empty());
        lemma_cons_contains(v, sorted, x);
        assert(seq![v] + sorted =~= seq![v]);
    } else {
        let first = sorted.first();
        let rest = sorted.drop_first();
        assert(sorted =~= seq![first] + rest);
        lemma_cons_contains(first, rest, x);
        if spec_id_less(first.id, v.id) {
            lemma_insert_members(rest, v, x);
            lemma_cons_contains(first, spec_insert_sorted(rest, v), x);
        } else {
            lemma_cons_contains(v, sorted, x);
        }
    }
}

/// Putting a validator with a new identifier into a sorted sequence leaves
/// it sorted.
pub proof fn lemma_insert_keeps_sorted(sorted: Seq<ValidatorView>, v: ValidatorView)
    requires
        spec_sorted(sorted),
        forall|k: int| 0 <= k < sorted.len() ==> (#[trigger] sorted[k]).id != v.id,
    ensures
        spec_sorted(spec_insert_sorted(sorted, v)),
    decreases sorted.len(),
{
    let out = spec_insert_sorted(sorted, v);
    if sorted.len() == 0 {
    } else {
        let first = sorted.first();
        let rest = sorted.drop_first();
        if spec_id_less(first.id, v.id) {
            let inner = spec_insert_sorted(rest, v);
            assert(spec_sorted(rest)) by {
                assert forall|i: int, j: int| 0 <= i < j < rest.len() implies spec_id_less(
                    #[trigger] rest[i].id,
                    #[trigger] rest[j].id,
                ) by {
                    assert(spec_id_less(sorted[i + 1].id, sorted[j + 1].id));
                }
            }
            assert forall|k: int| 0 <= k < rest.len() implies (#[trigger] rest[k]).id != v.id by {
                assert(sorted[k + 1].id != v.id);
            }
            lemma_insert_keeps_sorted(rest, v);
            assert forall|i: int, j: int| 0 <= i < j < out.len() implies spec_id_less(
                #[trigger] out[i].id,
                #[trigger] out[j].id,
            ) by {
                if i == 0 {
                    let e = inner[j - 1];
                    assert(out[j] == e);
                    lemma_insert_members(rest, v, e);
                    assert(inner.contains(e));
                    if e != v {
                        let k = choose|k: int| 0 <= k < rest.len() && rest[k] == e;
                        assert(spec_id_less(sorted[0].id, sorted[k + 1].id));
                    }
                } else {
                    assert(out[i] == inner[i - 1] && out[j] == inner[j - 1]);
                    assert(spec_id_less(inner[i - 1].id, inner[j - 1].id));
                }
            }
        } else {
            lemma_id_total(first.id, v.id);
            assert(first.id != v.id);
            assert forall|i: int, j: int| 0 <= i < j < out.len() implies spec_id_less(
                #[trigger] out[i].id,
                #[trigger] out[j].id,
            ) by {
                if i == 0 {
                    assert(out[j] == sorted[j - 1]);
                    if j > 1 {
                        assert(spec_id_less(sorted[0].id, sorted[j - 1].id));
                        lemma_id_transitive(v.id, first.id, sorted[j - 1].id);
                    }
                } else {
                    assert(out[i] == sorted[i - 1] && out[j] == sorted[j - 1]);
                    assert(spec_id_less(sorted[i - 1].id, sorted[j - 1].id));
                }
            }
        }
    }
}

/// Sorting changes the order only: the sorted sequence holds the same
/// validators, and as many.
pub proof fn lemma_sort_members(s: Seq<ValidatorView>, x: ValidatorView)
    ensures
        spec_sort(s).len() == s.len(),
        spec_sort(s).contains(x) <==> s.contains(x),
    decreases s.len(),
{
    if s.len() > 0 {
        let front = s.drop_last();
        lemma_sort_members(front, x);
        lemma_insert_members(spec_sort(front), s.last(), x);
        if s.contains(x) {
            let k = choose|k: int| 0 <= k < s.len() && s[k] == x;
            if k < s.len() - 1 {
                assert(front[k] == x);
            }
        }
        if front.contains(x) {
            let k = choose|k: int| 0 <= k < front.len() && front[k] == x;
            assert(s[k] == x);
        }
        if x == s.last() {
            assert(s[s.len() - 1] == x);
        }
    }
}

/// A sequence in which no identifier occurs twice is sorted into strictly
/// rising order.
pub proof fn lemma_sort_sorted(s: Seq<ValidatorView>)
    requires
        spec_validator_ids(s).no_duplicates(),
    ensures
        spec_sorted(spec_sort(s)),
        spec_validator_ids(spec_sort(s)).no_duplicates(),
    decreases s.len(),
{
    let keys = spec_validator_ids(s);
    if s.len() > 0 {
        let front = s.drop_last();
        assert forall|a: int, b: int|
            0 <= a < front.len() && 0 <= b < front.len() && a != b implies spec_validator_ids(
            front,
        )[a] != spec_validator_ids(front)[b] by {
            assert(keys[a] != keys[b]);
        }
        lemma_sort_sorted(front);
        let inner = spec_sort(front);
        assert forall|k: int| 0 <= k < inner.len() implies (#[trigger] inner[k]).id
            != s.last().id by {
            lemma_sort_members(front, inner[k]);
            assert(inner.contains(inner[k]));
            let j = choose|j: int| 0 <= j < front.len() && front[j] == inner[k];
            assert(keys[j] != keys[s.len() - 1]);
        }
        lemma_insert_keeps_sorted(inner, s.last());
    }
    lemma_sorted_distinct(spec_sort(s));
}

/// In a sorted sequence no identifier occurs twice.
pub proof fn lemma_sorted_distinct(s: Seq<ValidatorView>)
    requires
        spec_sorted(s),
    ensures
        spec_validator_ids(s).no_duplicates(),
{
    let keys = spec_validator_ids(s);
    assert forall|i: int, j: int| 0 <= i < keys.len() && 0 <= j < keys.len() && i != j implies keys[i]
        != keys[j] by {
        lemma_id_total(s[i].id, s[j].id);
        if i < j {
            assert(spec_id_less(s[i].id, s[j].id));
        } else {
            assert(spec_id_less(s[j].id, s[i].id));
        }
    }
}

/// Two sorted sequences that hold the same validators are the same
/// sequence.
pub proof fn lemma_sorted_unique(a: Seq<ValidatorView>, b: Seq<ValidatorView>)
    requires
        spec_sorted(a),
        spec_sorted(b),
        spec_same_members(a, b),
    ensures
        a == b,
    decreases a.len(),
{
    if a.len() == 0 {
        if b.len() > 0 {
            assert(b.contains(b[0]));
            assert(a.contains(b[0]));
        }
        assert(a =~= b);
    } else {
        assert(a.contains(a[0]));
        assert(b.contains(a[0]));
        let k = choose|k: int| 0 <= k < b.len() && b[k] == a[0];
        assert(b.contains(b[0]));
        assert(a.contains(b[0]));
        let m = choose|m: int| 0 <= m < a.len() && a[m] == b[0];
        if k > 0 {
            assert(spec_id_less(b[0].id, b[k].id));
            lemma_id_total(a[0].id, a[0].id);
            if m > 0 {
                assert(spec_id_less(a[0].id, a[m].id));
                lemma_id_transitive(a[0].id, a[m].id, a[0].id);
            }
        }
        assert(a[0] == b[0]);
        let ra = a.drop_first();
        let rb = b.drop_first();
        assert(spec_sorted(ra)) by {
            assert forall|i: int, j: int| 0 <= i < j < ra.len() implies spec_id_less(
                #[trigger] ra[i].id,
                #[trigger] ra[j].id,
            ) by {
                assert(spec_id_less(a[i + 1].id, a[j + 1].id));
            }
        }
        assert(spec_sorted(rb)) by {
            assert forall|i: int, j: int| 0 <= i < j < rb.len() implies spec_id_less(
                #[trigger] rb[i].id,
                #[trigger] rb[j].id,
            ) by {
                assert(spec_id_less(b[i + 1].id, b[j + 1].id));
            }
        }
        assert forall|v: ValidatorView| ra.contains(v) <==> rb.contains(v) by {
            lemma_id_total(a[0].id, a[0].id);
            if ra.contains(v) {
                let i = choose|i: int| 0 <= i < ra.len() && ra[i] == v;
                assert(a[i + 1] == v);
                assert(spec_id_less(a[0].id, a[i + 1].id));
                assert(a.contains(v));
                assert(b.contains(v));
                let j = choose|j: int| 0 <= j < b.len() && b[j] == v;
                assert(j > 0);
                assert(rb[j - 1] == v);
            }
            if rb.contains(v) {
                let i = choose|i: int| 0 <= i < rb.len() && rb[i] == v;
                assert(b[i + 1] == v);
                assert(spec_id_less(b[0].id, b[i + 1].id));
                assert(b.contains(v));
                assert(a.contains(v));
                let j = choose|j: int| 0 <= j < a.len() && a[j] == v;
                assert(j > 0);
                assert(ra[j - 1] == v);
            }
        }
        lemma_sorted_unique(ra, rb);
        assert(a =~= seq![a[0]] + ra);
        assert(b =~= seq![b[0]] + rb);
    }
}

/// Sorting is canonical: two sequences that hold the same validators, each
/// identifier once, are sorted into the same sequence.
pub proof fn lemma_sort_canonical(a: Seq<ValidatorView>, b: Seq<ValidatorView>)
    requires
        spec_validator_ids(a).no_duplicates(),
        spec_validator_ids(b).no_duplicates(),
        spec_same_members(a, b),
    ensures
        spec_sort(a) == spec_sort(b),
{
    lemma_sort_sorted(a);
    lemma_sort_sorted(b);
    assert forall|v: ValidatorView| spec_sort(a).contains(v) <==> spec_sort(b).contains(v) by {
        lemma_sort_members(a, v);
        lemma_sort_members(b, v);
    }
    lemma_sorted_unique(spec_sort(a), spec_sort(b));
}

/// Putting a validator in is inserting it at the first position whose
/// validator does not come before it.
pub proof fn lemma_insert_at(s: Seq<ValidatorView>, v: ValidatorView, at: int)
    requires
        0 <= at <= s.len(),
        forall|k: int| 0 <= k < at ==> spec_id_less((#[trigger] s[k]).id, v.id),
        at == s.len() || !spec_id_less(s[at].id, v.id),
    ensures
        spec_insert_sorted(s, v) == s.insert(at, v),
    decreases at,
{
    if at == 0 {
        if s.len() == 0 {
            assert(s.insert(0, v) =~= seq![v]);
        } else {
            assert(s.insert(0, v) =~= seq![v] + s);
        }
    } else {
        let rest = s.drop_first();
        assert(spec_id_less(s[0].id, v.id));
        assert forall|k: int| 0 <= k < at - 1 implies spec_id_less(
            (#[trigger] rest[k]).id,
            v.id,
        ) by {
            assert(spec_id_less(s[k + 1].id, v.id));
        }
        if at < s.len() {
            assert(rest[at - 1] == s[at]);
        }
        lemma_insert_at(rest, v, at - 1);
        assert(s.insert(at, v) =~= seq![s.first()] + rest.insert(at - 1, v));
    }
}

/// Whether the byte string `a` comes before the byte string `b`.
pub fn bytes_less(a: &[u8], b: &[u8]) -> (less: bool)
    ensures
        less == spec_lex_less(a@, b@),
{
    let mut i: usize = 0;
    assert(a@.skip(0) =~= a@ && b@.skip(0) =~= b@);
    while i < a.len() && i < b.len()
        invariant
            i <= a.len(),
            i <= b.len(),
            spec_lex_less(a@, b@) == spec_lex_less(a@.skip(i as int), b@.skip(i as int)),
        decreases a.len() - i,
    {
        proof {
            let ra = a@.skip(i as int);
            let rb = b@.skip(i as int);
            assert(ra.first() == a@[i as int] && rb.first() == b@[i as int]);
            assert(ra.drop_first() =~= a@.skip(i + 1));
            assert(rb.drop_first() =~= b@.skip(i + 1));
        }
        if a[i] != b[i] {
            return a[i] < b[i];
        }
        i += 1;
    }
    i < b.len()
}

/// Whether the identifier `a` comes before the identifier `b`.
pub fn id_less(a: &String, b: &String) -> (less: bool)
    ensures
        less == spec_id_less(a@, b@),
{
    bytes_less(a.as_str().as_bytes(), b.as_str().as_bytes())
}

/// Puts `v` into `sorted` before the first validator that does not come
/// before it.
pub fn insert_sorted(sorted: &mut Vec<Validator>, v: Validator)
    ensures
        validators_view(final(sorted)@) == spec_insert_sorted(validators_view(old(sorted)@), v@),
{
    let ghost before = validators_view(sorted@);
    let mut at: usize = 0;
    while at < sorted.len() && id_less(&sorted[at].id, &v.id)
        invariant
            at <= sorted.len(),
            before == validators_view(sorted@),
            forall|k: int| 0 <= k < at ==> spec_id_less((#[trigger] before[k]).id, v@.id),
        decreases sorted.len() - at,
    {
        at += 1;
    }
    proof {
        lemma_insert_at(before, v@, at as int);
    }
    sorted.insert(at, v);
    assert(validators_view(sorted@) =~= before.insert(at as int, v@));
}

/// The validators of `pool` in the order of their identifiers.
pub fn sort_by_id(pool: &Vec<Validator>) -> (sorted: Vec<Validator>)
    ensures
        validators_view(sorted@) == spec_sort(validators_view(pool@)),
{
    let ghost all = validators_view(pool@);
    let mut sorted: Vec<Validator> = Vec::new();
    let mut i: usize = 0;
    assert(all.take(0) =~= Seq::<ValidatorView>::empty());
    assert(validators_view(sorted@) =~= Seq::<ValidatorView>::empty());
    while i < pool.len()
        invariant
            i <= pool.len(),
            all == validators_view(pool@),
            validators_view(sorted@) == spec_sort(all.take(i as int)),
        decreases pool.len() - i,
    {
        proof {
            let next = all.take(i + 1);
            assert(next.drop_last() =~= all.take(i as int));
            assert(next.last() == pool@[i as int]@);
        }
        insert_sorted(&mut sorted, pool[i].duplicate());
        i += 1;
    }
    assert(all.take(i as int) =~= all);
    sorted
}

} // verus!
