//! Association lists: a `Vec` of key/value pairs with at most one pair per key,
//! read as a map. The handlers keep their keyed state this way, and the
//! lemmas here say what setting, adding and removing a pair do to the map.
use vstd::prelude::*;

verus! {

/// At most one pair per key.
pub open spec fn keys_unique<K, V>(s: Seq<(K, V)>) -> bool {
    forall|i: int, j: int|
        0 <= i < s.len() && 0 <= j < s.len() && #[trigger] s[i].0 == #[trigger] s[j].0 ==> i == j
}

/// Whether a key has a pair.
pub open spec fn has_key<K, V>(s: Seq<(K, V)>, k: K) -> bool {
    exists|i: int| 0 <= i < s.len() && #[trigger] s[i].0 == k
}

/// The pairs as a map, each value read through `f`.
pub open spec fn assoc_view<K, V, W>(s: Seq<(K, V)>, f: spec_fn(V) -> W) -> Map<K, W> {
    Map::new(
        |k: K| has_key(s, k),
        |k: K| f(s[choose|i: int| 0 <= i < s.len() && #[trigger] s[i].0 == k].1),
    )
}

/// Replacing the pair of a key sets the key's value.
pub proof fn lemma_assoc_update<K, V, W>(s: Seq<(K, V)>, i: int, e: (K, V), f: spec_fn(V) -> W)
    requires
        keys_unique(s),
        0 <= i < s.len(),
        s[i].0 == e.0,
    ensures
        keys_unique(s.update(i, e)),
        assoc_view(s.update(i, e), f) == assoc_view(s, f).insert(e.0, f(e.1)),
{
    let t = s.update(i, e);
    assert forall|a: int, b: int|
        0 <= a < t.len() && 0 <= b < t.len() && #[trigger] t[a].0 == #[trigger] t[b].0 implies a
        == b by {
        assert(t[a].0 == s[a].0 && t[b].0 == s[b].0);
    }
    assert forall|k: K| has_key(t, k) == has_key(s, k) by {
        if has_key(t, k) {
            let j = choose|j: int| 0 <= j < t.len() && #[trigger] t[j].0 == k;
            assert(s[j].0 == k);
        }
        if has_key(s, k) {
            let j = choose|j: int| 0 <= j < s.len() && #[trigger] s[j].0 == k;
            assert(t[j].0 == k);
        }
    }
    assert(has_key(t, e.0)) by {
        assert(t[i].0 == e.0);
    }
    assert forall|k: K| #[trigger] assoc_view(t, f).contains_key(k) implies assoc_view(t, f)[k]
        == assoc_view(s, f).insert(e.0, f(e.1))[k] by {
        let j = choose|j: int| 0 <= j < t.len() && #[trigger] t[j].0 == k;
        assert(t[j].0 == k);
        if k == e.0 {
            assert(t[i].0 == k);
            assert(j == i);
        } else {
            assert(j != i);
            assert(s[j].0 == k);
            let j2 = choose|j2: int| 0 <= j2 < s.len() && #[trigger] s[j2].0 == k;
            assert(s[j2].0 == k);
            assert(j2 == j);
        }
    }
    assert(assoc_view(t, f) =~= assoc_view(s, f).insert(e.0, f(e.1)));
}

/// Adding a pair for a new key sets the key's value.
pub proof fn lemma_assoc_push<K, V, W>(s: Seq<(K, V)>, e: (K, V), f: spec_fn(V) -> W)
    requires
        keys_unique(s),
        !has_key(s, e.0),
    ensures
        keys_unique(s.push(e)),
        assoc_view(s.push(e), f) == assoc_view(s, f).insert(e.0, f(e.1)),
{
    let t = s.push(e);
    let n = s.len() as int;
    assert forall|a: int, b: int|
        0 <= a < t.len() && 0 <= b < t.len() && #[trigger] t[a].0 == #[trigger] t[b].0 implies a
        == b by {
        if a < n && b < n {
            assert(t[a].0 == s[a].0 && t[b].0 == s[b].0);
        } else if a < n {
            assert(s[a].0 == e.0);
        } else if b < n {
            assert(s[b].0 == e.0);
        }
    }
    assert forall|k: K| has_key(t, k) == (has_key(s, k) || k == e.0) by {
        if has_key(t, k) {
            let j = choose|j: int| 0 <= j < t.len() && #[trigger] t[j].0 == k;
            if j < n {
                assert(s[j].0 == k);
            }
        }
        if has_key(s, k) {
            let j = choose|j: int| 0 <= j < s.len() && #[trigger] s[j].0 == k;
            assert(t[j].0 == k);
        }
        if k == e.0 {
            assert(t[n].0 == k);
        }
    }
    assert forall|k: K| #[trigger] assoc_view(t, f).contains_key(k) implies assoc_view(t, f)[k]
        == assoc_view(s, f).insert(e.0, f(e.1))[k] by {
        let j = choose|j: int| 0 <= j < t.len() && #[trigger] t[j].0 == k;
        assert(t[j].0 == k);
        if k == e.0 {
            assert(t[n].0 == k);
            assert(j == n);
        } else {
            assert(j < n);
            assert(s[j].0 == k);
            let j2 = choose|j2: int| 0 <= j2 < s.len() && #[trigger] s[j2].0 == k;
            assert(s[j2].0 == k);
            assert(j2 == j);
        }
    }
    assert(assoc_view(t, f) =~= assoc_view(s, f).insert(e.0, f(e.1)));
}

/// Removing the pair at an index removes its key.
pub proof fn lemma_assoc_remove<K, V, W>(s: Seq<(K, V)>, i: int, f: spec_fn(V) -> W)
    requires
        keys_unique(s),
        0 <= i < s.len(),
    ensures
        keys_unique(s.remove(i)),
        assoc_view(s.remove(i), f) == assoc_view(s, f).remove(s[i].0),
{
    let t = s.remove(i);
    let key = s[i].0;
    assert forall|a: int| 0 <= a < t.len() implies #[trigger] t[a] == s[if a < i {
        a
    } else {
        a + 1
    }] by {}
    assert forall|a: int, b: int|
        0 <= a < t.len() && 0 <= b < t.len() && #[trigger] t[a].0 == #[trigger] t[b].0 implies a
        == b by {
        let a1 = if a < i { a } else { a + 1 };
        let b1 = if b < i { b } else { b + 1 };
        assert(t[a] == s[a1] && t[b] == s[b1]);
    }
    assert forall|k: K| has_key(t, k) == (has_key(s, k) && k != key) by {
        if has_key(t, k) {
            let j = choose|j: int| 0 <= j < t.len() && #[trigger] t[j].0 == k;
            let j1 = if j < i { j } else { j + 1 };
            assert(t[j] == s[j1]);
            assert(s[j1].0 == k);
            assert(j1 != i);
        }
        if has_key(s, k) && k != key {
            let j = choose|j: int| 0 <= j < s.len() && #[trigger] s[j].0 == k;
            assert(j != i);
            if j < i {
                assert(t[j] == s[j]);
                assert(t[j].0 == k);
            } else {
                assert(t[j - 1] == s[j]);
                assert(t[j - 1].0 == k);
            }
        }
    }
    assert forall|k: K| #[trigger] assoc_view(t, f).contains_key(k) implies assoc_view(t, f)[k]
        == assoc_view(s, f).remove(key)[k] by {
        let j = choose|j: int| 0 <= j < t.len() && #[trigger] t[j].0 == k;
        let j1 = if j < i { j } else { j + 1 };
        assert(t[j] == s[j1]);
        assert(s[j1].0 == k);
        let j2 = choose|j2: int| 0 <= j2 < s.len() && #[trigger] s[j2].0 == k;
        assert(s[j2].0 == k);
        assert(j2 == j1);
    }
    assert(assoc_view(t, f) =~= assoc_view(s, f).remove(key));
}

/// Removing a key that has no pair leaves the map as it is.
pub proof fn lemma_assoc_absent<K, V, W>(s: Seq<(K, V)>, k: K, f: spec_fn(V) -> W)
    requires
        !has_key(s, k),
    ensures
        assoc_view(s, f).remove(k) == assoc_view(s, f),
{
    assert(assoc_view(s, f).remove(k) =~= assoc_view(s, f));
}

} // verus!
