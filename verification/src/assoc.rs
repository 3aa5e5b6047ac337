//! Sequences of key-value pairs read as maps, and what the usual edits of
//! such a sequence do to the map.

use vstd::prelude::*;

verus! {

/// Whether no key occurs twice in `pairs`.
pub open spec fn distinct_keys<K, V>(pairs: Seq<(K, V)>) -> bool {
    forall|i: int, j: int| 0 <= i < j < pairs.len() ==> pairs[i].0 != pairs[j].0
}

/// Whether `key` occurs in `pairs`.
pub open spec fn has_key<K, V>(pairs: Seq<(K, V)>, key: K) -> bool {
    exists|i: int| 0 <= i < pairs.len() && #[trigger] pairs[i].0 == key
}

/// A position of `key` in `pairs`, where it occurs.
pub open spec fn index_of<K, V>(pairs: Seq<(K, V)>, key: K) -> int {
    choose|i: int| 0 <= i < pairs.len() && #[trigger] pairs[i].0 == key
}

/// The map that takes each key of `pairs` to the value beside it.
pub open spec fn as_map<K, V>(pairs: Seq<(K, V)>) -> Map<K, V> {
    Map::new(|key: K| has_key(pairs, key), |key: K| pairs[index_of(pairs, key)].1)
}

/// With distinct keys, the map holds each pair of the sequence.
pub proof fn lemma_pair_in_map<K, V>(pairs: Seq<(K, V)>, i: int)
    requires
        distinct_keys(pairs),
        0 <= i < pairs.len(),
    ensures
        has_key(pairs, pairs[i].0),
        index_of(pairs, pairs[i].0) == i,
        as_map(pairs).dom().contains(pairs[i].0),
        as_map(pairs)[pairs[i].0] == pairs[i].1,
{
    assert(pairs[i].0 == pairs[i].0);
}

/// A key that no pair has is not in the map.
pub proof fn lemma_key_absent<K, V>(pairs: Seq<(K, V)>, key: K)
    requires
        forall|i: int| 0 <= i < pairs.len() ==> #[trigger] pairs[i].0 != key,
    ensures
        !has_key(pairs, key),
        !as_map(pairs).dom().contains(key),
{
}

/// The empty sequence is the empty map.
pub proof fn lemma_empty_map<K, V>()
    ensures
        distinct_keys(Seq::<(K, V)>::empty()),
        as_map(Seq::<(K, V)>::empty()) == Map::<K, V>::empty(),
{
    assert(as_map(Seq::<(K, V)>::empty()) =~= Map::<K, V>::empty());
}

/// Appending a pair with a new key inserts it into the map.
pub proof fn lemma_push_pair<K, V>(pairs: Seq<(K, V)>, key: K, value: V)
    requires
        distinct_keys(pairs),
        !has_key(pairs, key),
    ensures
        distinct_keys(pairs.push((key, value))),
        as_map(pairs.push((key, value))) == as_map(pairs).insert(key, value),
{
    let grown = pairs.push((key, value));
    assert forall|i: int, j: int| 0 <= i < j < grown.len() implies grown[i].0 != grown[j].0 by {
        if j == pairs.len() {
            assert(pairs[i].0 == grown[i].0);
        }
    }
    assert forall|k: K| has_key(grown, k) == (k == key || has_key(pairs, k)) by {
        if has_key(grown, k) {
            let i = index_of(grown, k);
            if i < pairs.len() {
                assert(pairs[i].0 == k);
            }
        }
        if k == key {
            assert(grown[pairs.len() as int].0 == k);
        }
        if has_key(pairs, k) {
            let i = index_of(pairs, k);
            assert(grown[i].0 == k);
        }
    }
    assert forall|k: K| has_key(grown, k) implies #[trigger] as_map(grown)[k] == as_map(
        pairs,
    ).insert(key, value)[k] by {
        if k == key {
            lemma_pair_in_map(grown, pairs.len() as int);
        } else {
            let i = index_of(pairs, k);
            assert(grown[i] == pairs[i]);
            lemma_pair_in_map(grown, i);
        }
    }
    assert(as_map(grown) =~= as_map(pairs).insert(key, value));
}

/// Taking out the pair at `i` removes its key from the map.
pub proof fn lemma_remove_pair<K, V>(pairs: Seq<(K, V)>, i: int)
    requires
        distinct_keys(pairs),
        0 <= i < pairs.len(),
    ensures
        distinct_keys(pairs.remove(i)),
        as_map(pairs.remove(i)) == as_map(pairs).remove(pairs[i].0),
{
    let key = pairs[i].0;
    let rest = pairs.remove(i);
    assert forall|a: int, b: int| 0 <= a < b < rest.len() implies rest[a].0 != rest[b].0 by {
        let a0 = if a < i { a } else { a + 1 };
        let b0 = if b < i { b } else { b + 1 };
        assert(rest[a] == pairs[a0]);
        assert(rest[b] == pairs[b0]);
    }
    assert forall|k: K| has_key(rest, k) == (k != key && has_key(pairs, k)) by {
        if has_key(rest, k) {
            let j = index_of(rest, k);
            let j0 = if j < i { j } else { j + 1 };
            assert(rest[j] == pairs[j0]);
            assert(pairs[j0].0 == k);
        }
        if k != key && has_key(pairs, k) {
            let j = index_of(pairs, k);
            let j1 = if j < i { j } else { j - 1 };
            assert(rest[j1] == pairs[j]);
            assert(rest[j1].0 == k);
        }
    }
    assert forall|k: K| has_key(rest, k) implies #[trigger] as_map(rest)[k] == as_map(
        pairs,
    ).remove(key)[k] by {
        let j = index_of(pairs, k);
        let j1 = if j < i { j } else { j - 1 };
        assert(rest[j1] == pairs[j]);
        lemma_pair_in_map(rest, j1);
        lemma_pair_in_map(pairs, j);
    }
    assert(as_map(rest) =~= as_map(pairs).remove(key));
}

} // verus!
