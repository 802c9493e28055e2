//! Finding the first entry with a given key in a list.

use vstd::prelude::*;

verus! {

/// `i` is the first position of `key` in `keys`.
pub open spec fn is_first<K>(keys: Seq<K>, key: K, i: int) -> bool {
    &&& 0 <= i < keys.len()
    &&& keys[i] == key
    &&& forall|k: int| 0 <= k < i ==> keys[k] != key
}

/// The first position of `key` in `keys`, if it occurs at all.
pub open spec fn first_index<K>(keys: Seq<K>, key: K) -> Option<int> {
    if exists|i: int| is_first(keys, key, i) {
        Some(choose|i: int| is_first(keys, key, i))
    } else {
        None
    }
}

/// The first position as an executable search reports it.
pub open spec fn found_at<K>(keys: Seq<K>, key: K, found: Option<usize>) -> bool {
    match found {
        Some(i) => first_index(keys, key) == Some(i as int),
        None => first_index(keys, key) is None,
    }
}

/// There is only one first position.
pub proof fn lemma_first_index<K>(keys: Seq<K>, key: K, i: int)
    requires
        is_first(keys, key, i),
    ensures
        first_index(keys, key) == Some(i),
{
    let j = choose|j: int| is_first(keys, key, j);
    if j < i {
        assert(keys[j] != key);
    } else if i < j {
        assert(keys[i] != key);
    }
}

/// A key that occurs nowhere has no first position, and the other way
/// round.
pub proof fn lemma_first_index_none<K>(keys: Seq<K>, key: K)
    ensures
        first_index(keys, key) is None <==> !keys.contains(key),
        first_index(keys, key) matches Some(i) ==> is_first(keys, key, i),
{
    if keys.contains(key) {
        lemma_first_exists(keys, key, keys.len() as int);
    } else if exists|i: int| is_first(keys, key, i) {
        let i = choose|i: int| is_first(keys, key, i);
        assert(keys.contains(key));
    }
}

proof fn lemma_first_exists<K>(keys: Seq<K>, key: K, n: int)
    requires
        0 <= n <= keys.len(),
        exists|k: int| 0 <= k < n && keys[k] == key,
    ensures
        exists|i: int| is_first(keys, key, i),
    decreases n,
{
    if exists|k: int| 0 <= k < n - 1 && keys[k] == key {
        lemma_first_exists(keys, key, n - 1);
    } else {
        assert(is_first(keys, key, n - 1));
    }
}

} // verus!
