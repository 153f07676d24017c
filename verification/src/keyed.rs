//! Sequences read as maps: each item stored under its key, keys unique.
use vstd::prelude::*;

verus! {

/// Whether some item of `items` has key `k`.
pub open spec fn has_key<K, V>(items: Seq<V>, key: spec_fn(V) -> K, k: K) -> bool {
    exists|i: int| 0 <= i < items.len() && key(#[trigger] items[i]) == k
}

/// The items of `items`, each under its key.
pub open spec fn keyed_map<K, V>(items: Seq<V>, key: spec_fn(V) -> K) -> Map<K, V> {
    Map::new(
        |k: K| has_key(items, key, k),
        |k: K| items[choose|i: int| 0 <= i < items.len() && key(#[trigger] items[i]) == k],
    )
}

/// Whether no two items of `items` share a key.
pub open spec fn unique_keys<K, V>(items: Seq<V>, key: spec_fn(V) -> K) -> bool {
    forall|i: int, j: int|
        0 <= i < items.len() && 0 <= j < items.len() && i != j ==> key(#[trigger] items[i]) != key(
            #[trigger] items[j],
        )
}

/// The entries of `m` whose values satisfy `keep`.
pub open spec fn retained<K, V>(m: Map<K, V>, keep: spec_fn(V) -> bool) -> Map<K, V> {
    Map::new(|k: K| m.contains_key(k) && keep(m[k]), |k: K| m[k])
}

/// Each item is found under its key.
pub proof fn lemma_keyed_index<K, V>(items: Seq<V>, key: spec_fn(V) -> K)
    requires
        unique_keys(items, key),
    ensures
        forall|i: int|
            0 <= i < items.len() ==> keyed_map(items, key).contains_key(key(#[trigger] items[i]))
                && keyed_map(items, key)[key(items[i])] == items[i],
{
    assert forall|i: int| 0 <= i < items.len() implies keyed_map(items, key).contains_key(
        key(#[trigger] items[i]),
    ) && keyed_map(items, key)[key(items[i])] == items[i] by {
        let k = key(items[i]);
        assert(has_key(items, key, k));
        let j = choose|j: int| 0 <= j < items.len() && key(#[trigger] items[j]) == k;
        assert(j == i);
    }
}

/// Adding an item under a new key adds one entry.
pub proof fn lemma_keyed_push<K, V>(items: Seq<V>, key: spec_fn(V) -> K, v: V)
    requires
        unique_keys(items, key),
        !has_key(items, key, key(v)),
    ensures
        unique_keys(items.push(v), key),
        keyed_map(items.push(v), key) == keyed_map(items, key).insert(key(v), v),
{
    let after = items.push(v);
    assert forall|i: int, j: int|
        0 <= i < after.len() && 0 <= j < after.len() && i != j implies key(#[trigger] after[i]) != key(
        #[trigger] after[j],
    ) by {
        if i < items.len() && j < items.len() {
            assert(after[i] == items[i] && after[j] == items[j]);
        } else if i < items.len() {
            assert(after[i] == items[i]);
        } else {
            assert(after[j] == items[j]);
        }
    }
    lemma_keyed_index(items, key);
    lemma_keyed_index(after, key);
    let m = keyed_map(items, key).insert(key(v), v);
    assert forall|k: K| #[trigger] keyed_map(after, key).contains_key(k) <==> m.contains_key(k) by {
        if has_key(after, key, k) {
            let i = choose|i: int| 0 <= i < after.len() && key(#[trigger] after[i]) == k;
            if i < items.len() {
                assert(after[i] == items[i]);
            }
        }
        if has_key(items, key, k) {
            let i = choose|i: int| 0 <= i < items.len() && key(#[trigger] items[i]) == k;
            assert(after[i] == items[i]);
        }
        if k == key(v) {
            assert(after[items.len() as int] == v);
        }
    }
    assert forall|k: K| #[trigger] keyed_map(after, key).contains_key(k) implies keyed_map(
        after,
        key,
    )[k] == m[k] by {
        let i = choose|i: int| 0 <= i < after.len() && key(#[trigger] after[i]) == k;
        if i < items.len() {
            assert(after[i] == items[i]);
        }
    }
    assert(keyed_map(after, key) =~= m);
}

/// Replacing an item by one with the same key replaces its entry.
pub proof fn lemma_keyed_update<K, V>(items: Seq<V>, key: spec_fn(V) -> K, i: int, v: V)
    requires
        unique_keys(items, key),
        0 <= i < items.len(),
        key(v) == key(items[i]),
    ensures
        unique_keys(items.update(i, v), key),
        keyed_map(items.update(i, v), key) == keyed_map(items, key).insert(key(v), v),
{
    let after = items.update(i, v);
    assert forall|a: int, b: int|
        0 <= a < after.len() && 0 <= b < after.len() && a != b implies key(#[trigger] after[a]) != key(
        #[trigger] after[b],
    ) by {
        assert(key(after[a]) == key(items[a]));
        assert(key(after[b]) == key(items[b]));
    }
    lemma_keyed_index(items, key);
    lemma_keyed_index(after, key);
    let m = keyed_map(items, key).insert(key(v), v);
    assert forall|k: K| #[trigger] keyed_map(after, key).contains_key(k) <==> m.contains_key(k) by {
        if has_key(after, key, k) {
            let j = choose|j: int| 0 <= j < after.len() && key(#[trigger] after[j]) == k;
            assert(key(items[j]) == k);
        }
        if has_key(items, key, k) {
            let j = choose|j: int| 0 <= j < items.len() && key(#[trigger] items[j]) == k;
            assert(key(after[j]) == k);
        }
        if k == key(v) {
            assert(after[i] == v);
        }
    }
    assert forall|k: K| #[trigger] keyed_map(after, key).contains_key(k) implies keyed_map(
        after,
        key,
    )[k] == m[k] by {
        let j = choose|j: int| 0 <= j < after.len() && key(#[trigger] after[j]) == k;
        assert(key(items[j]) == k);
        if j != i {
            assert(after[j] == items[j]);
        }
    }
    assert(keyed_map(after, key) =~= m);
}

/// There are as many entries as items.
pub proof fn lemma_keyed_len<K, V>(items: Seq<V>, key: spec_fn(V) -> K)
    requires
        unique_keys(items, key),
    ensures
        keyed_map(items, key).dom().finite(),
        keyed_map(items, key).len() == items.len(),
    decreases items.len(),
{
    if items.len() == 0 {
        assert(keyed_map(items, key) =~= Map::empty());
    } else {
        let rest = items.drop_last();
        assert forall|i: int, j: int|
            0 <= i < rest.len() && 0 <= j < rest.len() && i != j implies key(#[trigger] rest[i])
            != key(#[trigger] rest[j]) by {
            assert(rest[i] == items[i] && rest[j] == items[j]);
        }
        lemma_keyed_len(rest, key);
        if has_key(rest, key, key(items.last())) {
            let i = choose|i: int| 0 <= i < rest.len() && key(#[trigger] rest[i]) == key(items.last());
            assert(rest[i] == items[i]);
            assert(items.last() == items[items.len() - 1]);
        }
        lemma_keyed_push(rest, key, items.last());
        assert(rest.push(items.last()) =~= items);
    }
}

/// A prefix of items with unique keys has unique keys.
pub proof fn lemma_unique_prefix<K, V>(items: Seq<V>, key: spec_fn(V) -> K, n: int)
    requires
        unique_keys(items, key),
        0 <= n <= items.len(),
    ensures
        unique_keys(items.subrange(0, n), key),
{
    let p = items.subrange(0, n);
    assert forall|i: int, j: int|
        0 <= i < p.len() && 0 <= j < p.len() && i != j implies key(#[trigger] p[i]) != key(
        #[trigger] p[j],
    ) by {
        assert(p[i] == items[i] && p[j] == items[j]);
    }
}

/// One step of keeping the items that satisfy `keep`: `kept` holds those of
/// `prefix`, and `v` comes next.
pub proof fn lemma_keyed_retain_step<K, V>(
    prefix: Seq<V>,
    v: V,
    kept: Seq<V>,
    key: spec_fn(V) -> K,
    keep: spec_fn(V) -> bool,
)
    requires
        unique_keys(prefix.push(v), key),
        unique_keys(kept, key),
        keyed_map(kept, key) == retained(keyed_map(prefix, key), keep),
    ensures
        keep(v) ==> unique_keys(kept.push(v), key) && keyed_map(kept.push(v), key) == retained(
            keyed_map(prefix.push(v), key),
            keep,
        ),
        !keep(v) ==> keyed_map(kept, key) == retained(keyed_map(prefix.push(v), key), keep),
{
    let all = prefix.push(v);
    assert forall|i: int, j: int|
        0 <= i < prefix.len() && 0 <= j < prefix.len() && i != j implies key(#[trigger] prefix[i])
        != key(#[trigger] prefix[j]) by {
        assert(prefix[i] == all[i] && prefix[j] == all[j]);
    }
    assert(!has_key(prefix, key, key(v))) by {
        if has_key(prefix, key, key(v)) {
            let i = choose|i: int| 0 <= i < prefix.len() && key(#[trigger] prefix[i]) == key(v);
            assert(all[i] == prefix[i]);
            assert(all[prefix.len() as int] == v);
        }
    }
    lemma_keyed_push(prefix, key, v);
    let m = keyed_map(prefix, key);
    if keep(v) {
        assert(!has_key(kept, key, key(v))) by {
            if has_key(kept, key, key(v)) {
                let i = choose|i: int| 0 <= i < kept.len() && key(#[trigger] kept[i]) == key(v);
                assert(keyed_map(kept, key).contains_key(key(v)));
            }
        }
        lemma_keyed_push(kept, key, v);
        assert(retained(m.insert(key(v), v), keep) =~= retained(m, keep).insert(key(v), v));
    } else {
        assert(retained(m.insert(key(v), v), keep) =~= retained(m, keep));
    }
}

} // verus!
