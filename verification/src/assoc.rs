//! Association lists as maps: the mathematical model of a keyed collection
//! that is kept as a list of entries.

use vstd::prelude::*;

verus! {

/// The map that a list of keys and a list of values of the same length stand
/// for: `keys[i]` maps to `vals[i]`. Where a key occurs twice the later entry
/// counts; lists of different lengths stand for the empty map.
pub open spec fn assoc_map<K, V>(keys: Seq<K>, vals: Seq<V>) -> Map<K, V>
    decreases keys.len(),
{
    if keys.len() == 0 || keys.len() != vals.len() {
        Map::empty()
    } else {
        assoc_map(keys.drop_last(), vals.drop_last()).insert(keys.last(), vals.last())
    }
}

/// Appending an entry to the list inserts it into the map.
pub proof fn lemma_assoc_push<K, V>(keys: Seq<K>, vals: Seq<V>, k: K, v: V)
    requires
        keys.len() == vals.len(),
    ensures
        assoc_map(keys.push(k), vals.push(v)) == assoc_map(keys, vals).insert(k, v),
{
    assert(keys.push(k).drop_last() =~= keys);
    assert(vals.push(v).drop_last() =~= vals);
}

/// A list without repeated keys stays so when a key that it lacks is appended.
pub proof fn lemma_push_fresh_key<K>(keys: Seq<K>, k: K)
    requires
        keys.no_duplicates(),
        !keys.contains(k),
    ensures
        keys.push(k).no_duplicates(),
{
    assert forall|i: int, j: int|
        0 <= i < keys.push(k).len() && 0 <= j < keys.push(k).len() && i != j implies keys.push(
        k,
    )[i] != keys.push(k)[j] by {
        if i < keys.len() {
            assert(keys.contains(keys[i]));
        }
        if j < keys.len() {
            assert(keys.contains(keys[j]));
        }
    }
}

/// The keys of the map are the keys of the list.
pub proof fn lemma_assoc_dom<K, V>(keys: Seq<K>, vals: Seq<V>)
    requires
        keys.len() == vals.len(),
    ensures
        forall|k: K| #[trigger] assoc_map(keys, vals).contains_key(k) <==> keys.contains(k),
        assoc_map(keys, vals).dom().finite(),
    decreases keys.len(),
{
    if keys.len() > 0 {
        lemma_assoc_dom(keys.drop_last(), vals.drop_last());
        assert forall|k: K| #[trigger]
            assoc_map(keys, vals).contains_key(k) <==> keys.contains(k) by {
            if keys.contains(k) {
                let i = choose|i: int| 0 <= i < keys.len() && keys[i] == k;
                if i < keys.len() - 1 {
                    assert(keys.drop_last()[i] == k);
                }
            }
            if keys.drop_last().contains(k) {
                let i = choose|i: int| 0 <= i < keys.drop_last().len() && keys.drop_last()[i] == k;
                assert(keys[i] == k);
            }
        }
    }
}

/// Where no key occurs twice, each entry of the list is an entry of the map.
pub proof fn lemma_assoc_at<K, V>(keys: Seq<K>, vals: Seq<V>, i: int)
    requires
        keys.len() == vals.len(),
        keys.no_duplicates(),
        0 <= i < keys.len(),
    ensures
        assoc_map(keys, vals).contains_key(keys[i]),
        assoc_map(keys, vals)[keys[i]] == vals[i],
    decreases keys.len(),
{
    if i < keys.len() - 1 {
        lemma_assoc_at(keys.drop_last(), vals.drop_last(), i);
    }
}

/// Where no key occurs twice, replacing the value of one entry of the list
/// replaces the value of its key in the map.
pub proof fn lemma_assoc_update<K, V>(keys: Seq<K>, vals: Seq<V>, i: int, v: V)
    requires
        keys.len() == vals.len(),
        keys.no_duplicates(),
        0 <= i < keys.len(),
    ensures
        assoc_map(keys, vals.update(i, v)) == assoc_map(keys, vals).insert(keys[i], v),
    decreases keys.len(),
{
    let rest_keys = keys.drop_last();
    let rest_vals = vals.drop_last();
    if i < keys.len() - 1 {
        lemma_assoc_update(rest_keys, rest_vals, i, v);
        assert(vals.update(i, v).drop_last() =~= rest_vals.update(i, v));
        assert(assoc_map(keys, vals.update(i, v)) =~= assoc_map(keys, vals).insert(keys[i], v));
    } else {
        assert(vals.update(i, v).drop_last() =~= rest_vals);
        assert(assoc_map(keys, vals.update(i, v)) =~= assoc_map(keys, vals).insert(keys[i], v));
    }
}

/// The map of the first `i + 1` entries is that of the first `i` with entry
/// `i` inserted.
pub proof fn lemma_assoc_take_succ<K, V>(keys: Seq<K>, vals: Seq<V>, i: int)
    requires
        keys.len() == vals.len(),
        0 <= i < keys.len(),
    ensures
        assoc_map(keys.take(i + 1), vals.take(i + 1)) == assoc_map(
            keys.take(i),
            vals.take(i),
        ).insert(keys[i], vals[i]),
{
    assert(keys.take(i + 1).drop_last() =~= keys.take(i));
    assert(vals.take(i + 1).drop_last() =~= vals.take(i));
}

} // verus!
