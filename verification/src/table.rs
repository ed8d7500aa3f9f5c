//! Keyed tables held as sequences of (key, value) pairs in which no key
//! appears twice, and the map such a sequence stands for.

use vstd::prelude::*;

verus! {

/// Whether the keys of `s` are pairwise distinct.
pub open spec fn keys_unique<K, V>(s: Seq<(K, V)>) -> bool {
    forall|i: int, j: int| 0 <= i < s.len() && 0 <= j < s.len() && i != j ==> s[i].0 != s[j].0
}

/// Whether `k` is the key of some entry of `s`.
pub open spec fn has_key<K, V>(s: Seq<(K, V)>, k: K) -> bool {
    exists|i: int| 0 <= i < s.len() && s[i].0 == k
}

/// The map from keys to values that `s` holds.
pub open spec fn seq_to_map<K, V>(s: Seq<(K, V)>) -> Map<K, V> {
    Map::new(
        |k: K| has_key(s, k),
        |k: K| s[choose|i: int| 0 <= i < s.len() && s[i].0 == k].1,
    )
}

/// The entry at position `i` is what the map view holds for its key.
pub proof fn lemma_map_index<K, V>(s: Seq<(K, V)>, i: int)
    requires
        keys_unique(s),
        0 <= i < s.len(),
    ensures
        seq_to_map(s).contains_key(s[i].0),
        seq_to_map(s)[s[i].0] == s[i].1,
{
    assert(has_key(s, s[i].0));
    let j = choose|j: int| 0 <= j < s.len() && s[j].0 == s[i].0;
    assert(j == i);
}

/// Replacing the value of an entry replaces it in the map view.
pub proof fn lemma_map_update<K, V>(s: Seq<(K, V)>, i: int, k: K, r: V)
    requires
        keys_unique(s),
        0 <= i < s.len(),
        s[i].0 == k,
    ensures
        keys_unique(s.update(i, (k, r))),
        seq_to_map(s.update(i, (k, r))) == seq_to_map(s).insert(k, r),
{
    let t = s.update(i, (k, r));
    assert forall|x: K| has_key(t, x) <==> has_key(s, x) || x == k by {
        if has_key(s, x) {
            let j = choose|j: int| 0 <= j < s.len() && s[j].0 == x;
            assert(t[j].0 == x);
        }
        if has_key(t, x) {
            let j = choose|j: int| 0 <= j < t.len() && t[j].0 == x;
            assert(s[j].0 == x);
        }
        if x == k {
            assert(t[i].0 == x);
        }
    }
    assert forall|x: K| #[trigger] has_key(t, x) implies seq_to_map(t)[x] == seq_to_map(s).insert(k, r)[x] by {
        let j = choose|j: int| 0 <= j < t.len() && t[j].0 == x;
        if x == k {
            assert(j == i);
        } else {
            assert(has_key(s, x));
            let j2 = choose|j2: int| 0 <= j2 < s.len() && s[j2].0 == x;
            assert(j2 == j);
        }
    }
    assert(seq_to_map(t) =~= seq_to_map(s).insert(k, r));
}

/// Appending an entry with a new key adds it to the map view.
pub proof fn lemma_map_push<K, V>(s: Seq<(K, V)>, k: K, r: V)
    requires
        keys_unique(s),
        !has_key(s, k),
    ensures
        keys_unique(s.push((k, r))),
        seq_to_map(s.push((k, r))) == seq_to_map(s).insert(k, r),
{
    let t = s.push((k, r));
    assert forall|x: K| has_key(t, x) <==> has_key(s, x) || x == k by {
        if has_key(s, x) {
            let j = choose|j: int| 0 <= j < s.len() && s[j].0 == x;
            assert(t[j].0 == x);
        }
        if x == k {
            assert(t[s.len() as int].0 == x);
        }
        if has_key(t, x) && x != k {
            let j = choose|j: int| 0 <= j < t.len() && t[j].0 == x;
            assert(s[j].0 == x);
        }
    }
    assert forall|x: K| #[trigger] has_key(t, x) implies seq_to_map(t)[x] == seq_to_map(s).insert(k, r)[x] by {
        let j = choose|j: int| 0 <= j < t.len() && t[j].0 == x;
        if x == k {
            assert(j == s.len());
        } else {
            assert(has_key(s, x));
            let j2 = choose|j2: int| 0 <= j2 < s.len() && s[j2].0 == x;
            assert(j2 == j);
        }
    }
    assert(seq_to_map(t) =~= seq_to_map(s).insert(k, r));
}

/// Removing an entry removes its key from the map view.
pub proof fn lemma_map_remove<K, V>(s: Seq<(K, V)>, i: int)
    requires
        keys_unique(s),
        0 <= i < s.len(),
    ensures
        keys_unique(s.remove(i)),
        seq_to_map(s.remove(i)) == seq_to_map(s).remove(s[i].0),
{
    let t = s.remove(i);
    let k = s[i].0;
    assert forall|a: int, b: int| 0 <= a < t.len() && 0 <= b < t.len() && a != b implies t[a].0 != t[b].0 by {
        let a2 = if a < i { a } else { a + 1 };
        let b2 = if b < i { b } else { b + 1 };
        assert(t[a] == s[a2]);
        assert(t[b] == s[b2]);
    }
    assert forall|x: K| has_key(t, x) <==> has_key(s, x) && x != k by {
        if has_key(t, x) {
            let j = choose|j: int| 0 <= j < t.len() && t[j].0 == x;
            let j2 = if j < i { j } else { j + 1 };
            assert(s[j2].0 == x);
        }
        if has_key(s, x) && x != k {
            let j = choose|j: int| 0 <= j < s.len() && s[j].0 == x;
            assert(j != i);
            let j2 = if j < i { j } else { j - 1 };
            assert(t[j2].0 == x);
        }
    }
    assert forall|x: K| #[trigger] has_key(t, x) implies seq_to_map(t)[x] == seq_to_map(s)[x] by {
        let j = choose|j: int| 0 <= j < t.len() && t[j].0 == x;
        let j2 = if j < i { j } else { j + 1 };
        assert(s[j2].0 == x);
        let j3 = choose|j3: int| 0 <= j3 < s.len() && s[j3].0 == x;
        assert(j3 == j2);
    }
    assert(seq_to_map(t) =~= seq_to_map(s).remove(k));
}

} // verus!
