//! Lookup by string key over a sequence of entries.
//!
//! The entries of a table are kept in insertion order, and no key occurs
//! twice. The key index of such a table is the map from each key to the entry
//! at the key's position.

use vstd::prelude::*;

verus! {

/// The map that sends each of `keys` to the value at the same position.
pub open spec fn keyed<V>(keys: Seq<Seq<char>>, vals: Seq<V>) -> Map<Seq<char>, V> {
    Map::new(|k: Seq<char>| keys.contains(k), |k: Seq<char>| vals[keys.index_of(k)])
}

/// With distinct keys, the key at a position leads to the value at that
/// position.
pub proof fn lemma_keyed_at<V>(keys: Seq<Seq<char>>, vals: Seq<V>, i: int)
    requires
        keys.no_duplicates(),
        0 <= i < keys.len(),
    ensures
        keyed(keys, vals).contains_key(keys[i]),
        keyed(keys, vals)[keys[i]] == vals[i],
        keys.index_of(keys[i]) == i,
{
    let j = keys.index_of(keys[i]);
    assert(0 <= j < keys.len() && keys[j] == keys[i]);
}

/// Appending an entry under a fresh key inserts it into the key index.
pub proof fn lemma_keyed_push<V>(keys: Seq<Seq<char>>, vals: Seq<V>, k: Seq<char>, v: V)
    requires
        keys.no_duplicates(),
        keys.len() == vals.len(),
        !keys.contains(k),
    ensures
        keys.push(k).no_duplicates(),
        keyed(keys.push(k), vals.push(v)) == keyed(keys, vals).insert(k, v),
{
    let keys2 = keys.push(k);
    let vals2 = vals.push(v);
    assert forall|i: int, j: int|
        0 <= i < keys2.len() && 0 <= j < keys2.len() && i != j implies keys2[i] != keys2[j] by {
        if i < keys.len() && j < keys.len() {
            assert(keys[i] != keys[j]);
        } else if i < keys.len() {
            assert(keys[i] == keys2[i]);
        } else {
            assert(keys[j] == keys2[j]);
        }
    }
    assert forall|q: Seq<char>| keys2.contains(q) <==> (q == k || keys.contains(q)) by {
        if keys2.contains(q) {
            let i = choose|i: int| 0 <= i < keys2.len() && keys2[i] == q;
            if i < keys.len() {
                assert(keys[i] == q);
            }
        }
        if keys.contains(q) {
            let i = choose|i: int| 0 <= i < keys.len() && keys[i] == q;
            assert(keys2[i] == q);
        }
        if q == k {
            assert(keys2[keys.len() as int] == q);
        }
    }
    let grown = keyed(keys, vals).insert(k, v);
    assert forall|q: Seq<char>| keys2.contains(q) implies #[trigger] keyed(keys2, vals2)[q]
        == grown[q] by {
        let i = keys2.index_of(q);
        assert(0 <= i < keys2.len() && keys2[i] == q);
        if q == k {
            assert(keys2[keys.len() as int] == k);
            assert(i == keys.len());
        } else {
            assert(keys[i] == q);
            lemma_keyed_at(keys, vals, i);
        }
    }
    assert(keyed(keys2, vals2) =~= keyed(keys, vals).insert(k, v));
}

/// Replacing the value at a position replaces what the key at that position
/// leads to.
pub proof fn lemma_keyed_update<V>(keys: Seq<Seq<char>>, vals: Seq<V>, i: int, v: V)
    requires
        keys.no_duplicates(),
        keys.len() == vals.len(),
        0 <= i < keys.len(),
    ensures
        keyed(keys, vals.update(i, v)) == keyed(keys, vals).insert(keys[i], v),
{
    let vals2 = vals.update(i, v);
    assert forall|q: Seq<char>| keys.contains(q) implies #[trigger] keyed(keys, vals2)[q] == keyed(
        keys,
        vals,
    ).insert(keys[i], v)[q] by {
        let j = keys.index_of(q);
        assert(0 <= j < keys.len() && keys[j] == q);
    }
    assert(keys.contains(keys[i]));
    assert(keyed(keys, vals2) =~= keyed(keys, vals).insert(keys[i], v));
}

} // verus!
