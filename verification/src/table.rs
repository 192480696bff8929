use vstd::prelude::*;

verus! {

/// The map from each key to the value at the same position.
pub open spec fn keyed<K, V>(keys: Seq<K>, values: Seq<V>) -> Map<K, V> {
    Map::new(|k: K| keys.contains(k), |k: K| values[keys.index_of(k)])
}

/// With distinct keys, the value of the key at `i` is the value at `i`.
pub proof fn lemma_keyed_index<K, V>(keys: Seq<K>, values: Seq<V>, i: int)
    requires
        keys.no_duplicates(),
        0 <= i < keys.len(),
    ensures
        keyed(keys, values).contains_key(keys[i]),
        keyed(keys, values)[keys[i]] == values[i],
{
    assert(keys.contains(keys[i]));
    let j = keys.index_of(keys[i]);
    assert(keys[j] == keys[i]);
}

/// A key that is not among the keys has no value.
pub proof fn lemma_keyed_absent<K, V>(keys: Seq<K>, values: Seq<V>, k: K)
    requires
        !keys.contains(k),
    ensures
        !keyed(keys, values).contains_key(k),
{
}

/// Replacing the value at `i` replaces the value of the key at `i`.
pub proof fn lemma_keyed_update<K, V>(keys: Seq<K>, values: Seq<V>, i: int, v: V)
    requires
        keys.no_duplicates(),
        0 <= i < keys.len(),
        keys.len() == values.len(),
    ensures
        keyed(keys, values.update(i, v)) == keyed(keys, values).insert(keys[i], v),
{
    let a = keyed(keys, values.update(i, v));
    let b = keyed(keys, values).insert(keys[i], v);
    assert(keys.contains(keys[i]));
    assert forall|k: K| #[trigger] a.contains_key(k) <==> b.contains_key(k) by {}
    assert forall|k: K| a.contains_key(k) implies #[trigger] a[k] == b[k] by {
        let j = keys.index_of(k);
        assert(keys[j] == k);
        if k == keys[i] {
            assert(j == i);
        } else {
            assert(j != i);
            lemma_keyed_index(keys, values, j);
        }
    }
    assert(a =~= b);
}

/// Appending a new key with a value adds that entry.
pub proof fn lemma_keyed_push<K, V>(keys: Seq<K>, values: Seq<V>, k: K, v: V)
    requires
        keys.no_duplicates(),
        !keys.contains(k),
        keys.len() == values.len(),
    ensures
        keys.push(k).no_duplicates(),
        keyed(keys.push(k), values.push(v)) == keyed(keys, values).insert(k, v),
{
    let ks = keys.push(k);
    let vs = values.push(v);
    assert forall|i: int, j: int|
        0 <= i < ks.len() && 0 <= j < ks.len() && i != j implies ks[i] != ks[j] by {
        if i == keys.len() {
            assert(keys.contains(ks[j]));
        } else if j == keys.len() {
            assert(keys.contains(ks[i]));
        }
    }
    let a = keyed(ks, vs);
    let b = keyed(keys, values).insert(k, v);
    assert(ks[keys.len() as int] == k);
    assert forall|x: K| #[trigger] a.contains_key(x) <==> b.contains_key(x) by {
        if keys.contains(x) {
            let j = choose|j: int| 0 <= j < keys.len() && keys[j] == x;
            assert(ks[j] == x);
        }
        if ks.contains(x) && x != k {
            let j = choose|j: int| 0 <= j < ks.len() && ks[j] == x;
            assert(keys[j] == x);
        }
    }
    assert forall|x: K| a.contains_key(x) implies #[trigger] a[x] == b[x] by {
        let j = ks.index_of(x);
        assert(ks[j] == x);
        if x == k {
            lemma_keyed_index(ks, vs, keys.len() as int);
        } else {
            assert(j < keys.len());
            lemma_keyed_index(ks, vs, j);
            lemma_keyed_index(keys, values, j);
        }
    }
    assert(a =~= b);
}

/// Removing the entry at `i` removes the key at `i`.
pub proof fn lemma_keyed_remove<K, V>(keys: Seq<K>, values: Seq<V>, i: int)
    requires
        keys.no_duplicates(),
        0 <= i < keys.len(),
        keys.len() == values.len(),
    ensures
        keys.remove(i).no_duplicates(),
        keyed(keys.remove(i), values.remove(i)) == keyed(keys, values).remove(keys[i]),
{
    let ks = keys.remove(i);
    let vs = values.remove(i);
    assert forall|p: int, q: int|
        0 <= p < ks.len() && 0 <= q < ks.len() && p != q implies ks[p] != ks[q] by {
        let p0 = if p < i { p } else { p + 1 };
        let q0 = if q < i { q } else { q + 1 };
        assert(ks[p] == keys[p0]);
        assert(ks[q] == keys[q0]);
    }
    let a = keyed(ks, vs);
    let b = keyed(keys, values).remove(keys[i]);
    assert forall|x: K| #[trigger] a.contains_key(x) <==> b.contains_key(x) by {
        if ks.contains(x) {
            let p = choose|p: int| 0 <= p < ks.len() && ks[p] == x;
            let p0 = if p < i { p } else { p + 1 };
            assert(keys[p0] == x);
            assert(keys.contains(x));
        }
        if keys.contains(x) && x != keys[i] {
            let p = choose|p: int| 0 <= p < keys.len() && keys[p] == x;
            assert(p != i);
            let p1 = if p < i { p } else { p - 1 };
            assert(ks[p1] == x);
        }
    }
    assert forall|x: K| a.contains_key(x) implies #[trigger] a[x] == b[x] by {
        let p = ks.index_of(x);
        assert(ks[p] == x);
        lemma_keyed_index(ks, vs, p);
        let p0 = if p < i { p } else { p + 1 };
        assert(keys[p0] == x);
        lemma_keyed_index(keys, values, p0);
    }
    assert(a =~= b);
}


/// With distinct keys, the map has one entry per key.
pub proof fn lemma_keyed_len<K, V>(keys: Seq<K>, values: Seq<V>)
    requires
        keys.no_duplicates(),
    ensures
        keyed(keys, values).len() == keys.len(),
        keyed(keys, values).dom().finite(),
{
    assert(keyed(keys, values).dom() =~= keys.to_set());
    keys.unique_seq_to_set();
    vstd::seq_lib::seq_to_set_is_finite(keys);
}
} // verus!
