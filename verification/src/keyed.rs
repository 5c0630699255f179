//! Sequences of keys without repetition: where a key stands, and how that
//! changes when the sequence is extended or an entry is taken out.
//!
//! The ledgers of this crate are vectors of records, each found by a key of
//! its own.  Their contracts speak of positions through `key_index`.

use vstd::prelude::*;

verus! {

/// The position of `k` in `keys`, if it occurs.
pub open spec fn key_index<K>(keys: Seq<K>, k: K) -> Option<int> {
    if keys.contains(k) {
        Some(keys.index_of(k))
    } else {
        None
    }
}

/// Where `key_index` finds a key, the key stands there.
pub proof fn lemma_key_index_valid<K>(keys: Seq<K>, k: K)
    ensures
        key_index(keys, k) matches Some(i) ==> 0 <= i < keys.len() && keys[i] == k,
        key_index(keys, k) is None ==> forall|j: int| 0 <= j < keys.len() ==> keys[j] != k,
{
}

/// In a sequence without repetition, a key found at `i` has index `i`.
pub proof fn lemma_key_index_found<K>(keys: Seq<K>, k: K, i: int)
    requires
        keys.no_duplicates(),
        0 <= i < keys.len(),
        keys[i] == k,
    ensures
        key_index(keys, k) == Some(i),
{
    assert(keys.contains(k));
}

/// A key that stands nowhere has no index.
pub proof fn lemma_key_index_absent<K>(keys: Seq<K>, k: K)
    requires
        forall|j: int| 0 <= j < keys.len() ==> keys[j] != k,
    ensures
        key_index(keys, k) is None,
{
}

/// Appending a new key keeps the sequence free of repetition, gives the new
/// key the last position and leaves every other key where it stood.
pub proof fn lemma_key_index_push<K>(keys: Seq<K>, added: K, k: K)
    requires
        keys.no_duplicates(),
        key_index(keys, added) is None,
    ensures
        keys.push(added).no_duplicates(),
        key_index(keys.push(added), k) == if k == added {
            Some(keys.len() as int)
        } else {
            key_index(keys, k)
        },
{
    let extended = keys.push(added);
    assert(extended.no_duplicates()) by {
        assert forall|i: int, j: int|
            0 <= i < extended.len() && 0 <= j < extended.len() && i != j implies extended[i]
            != extended[j] by {
            if i < keys.len() && j < keys.len() {
            } else if i < keys.len() {
                assert(keys[i] != added);
            } else {
                assert(keys[j] != added);
            }
        }
    }
    if k == added {
        lemma_key_index_found(extended, k, keys.len() as int);
    } else {
        match key_index(keys, k) {
            Some(i) => {
                assert(extended[i] == k);
                lemma_key_index_found(extended, k, i);
            },
            None => {
                assert forall|j: int| 0 <= j < extended.len() implies extended[j] != k by {
                    if j < keys.len() {
                        assert(keys[j] != k);
                    }
                }
                lemma_key_index_absent(extended, k);
            },
        }
    }
}

/// Inserting a new key at `at` keeps the sequence free of repetition, gives
/// the new key the position `at` and moves every key from there on one
/// position to the back.
pub proof fn lemma_key_index_insert<K>(keys: Seq<K>, at: int, added: K, k: K)
    requires
        keys.no_duplicates(),
        key_index(keys, added) is None,
        0 <= at <= keys.len(),
    ensures
        keys.insert(at, added).no_duplicates(),
        key_index(keys.insert(at, added), k) == if k == added {
            Some(at)
        } else {
            match key_index(keys, k) {
                None => None,
                Some(i) => if i < at {
                    Some(i)
                } else {
                    Some(i + 1)
                },
            }
        },
{
    let longer = keys.insert(at, added);
    assert forall|j: int| 0 <= j < longer.len() implies longer[j] == if j < at {
        keys[j]
    } else if j == at {
        added
    } else {
        keys[j - 1]
    } by {}
    assert forall|i: int, j: int|
        0 <= i < longer.len() && 0 <= j < longer.len() && i != j implies longer[i] != longer[j] by {
        let si = if i < at { i } else { i - 1 };
        let sj = if j < at { j } else { j - 1 };
        if i == at {
            assert(keys[sj] != added);
        } else if j == at {
            assert(keys[si] != added);
        } else {
            assert(keys[si] != keys[sj]);
        }
    }
    if k == added {
        lemma_key_index_found(longer, k, at);
    } else {
        match key_index(keys, k) {
            None => {
                assert forall|j: int| 0 <= j < longer.len() implies longer[j] != k by {
                    if j != at {
                        let sj = if j < at { j } else { j - 1 };
                        assert(keys[sj] != k);
                    }
                }
                lemma_key_index_absent(longer, k);
            },
            Some(i) => {
                if i < at {
                    lemma_key_index_found(longer, k, i);
                } else {
                    lemma_key_index_found(longer, k, i + 1);
                }
            },
        }
    }
}

/// Taking out the entry at `at` keeps the sequence free of repetition,
/// leaves the key that stood there without an index, and moves every key
/// behind it one position to the front.
pub proof fn lemma_key_index_remove<K>(keys: Seq<K>, at: int, k: K)
    requires
        keys.no_duplicates(),
        0 <= at < keys.len(),
    ensures
        keys.remove(at).no_duplicates(),
        key_index(keys.remove(at), k) == match key_index(keys, k) {
            None => None,
            Some(i) => if i == at {
                None
            } else if i < at {
                Some(i)
            } else {
                Some(i - 1)
            },
        },
{
    let shorter = keys.remove(at);
    assert forall|j: int| 0 <= j < shorter.len() implies shorter[j] == keys[if j < at {
        j
    } else {
        j + 1
    }] by {}
    assert(shorter.no_duplicates());
    match key_index(keys, k) {
        None => {
            lemma_key_index_absent(shorter, k);
        },
        Some(i) => {
            if i == at {
                assert forall|j: int| 0 <= j < shorter.len() implies shorter[j] != k by {
                    let src = if j < at { j } else { j + 1 };
                    assert(keys[src] != keys[at]);
                }
                lemma_key_index_absent(shorter, k);
            } else if i < at {
                lemma_key_index_found(shorter, k, i);
            } else {
                lemma_key_index_found(shorter, k, i - 1);
            }
        },
    }
}

} // verus!
