//! Keyed tables kept as sequences of `(key, value)` pairs in which no key occurs
//! twice, and the map such a table stands for.
use vstd::prelude::*;

verus! {

/// No key occurs twice.
pub open spec fn keys_unique<K, V>(s: Seq<(K, V)>) -> bool {
    forall|i: int, j: int| 0 <= i < s.len() && 0 <= j < s.len() && i != j ==> (#[trigger] s[i]).0 != (#[trigger] s[j]).0
}

/// The map that the table stands for.
pub open spec fn to_map<K, V>(s: Seq<(K, V)>) -> Map<K, V>
    decreases s.len(),
{
    if s.len() == 0 {
        Map::empty()
    } else {
        to_map(s.drop_last()).insert(s.last().0, s.last().1)
    }
}

/// The index of the pair that holds `k`, if any.
pub open spec fn index_of<K, V>(s: Seq<(K, V)>, k: K) -> int
    decreases s.len(),
{
    if s.len() == 0 {
        -1
    } else if s.last().0 == k {
        s.len() - 1
    } else {
        index_of(s.drop_last(), k)
    }
}

/// A key is in the map exactly when a pair holds it, and maps to that pair's value.
pub proof fn lemma_to_map<K, V>(s: Seq<(K, V)>)
    requires
        keys_unique(s),
    ensures
        forall|i: int| 0 <= i < s.len() ==> #[trigger] to_map(s).contains_key(s[i].0) && to_map(s)[s[i].0] == s[i].1,
        forall|k: K| #[trigger] to_map(s).contains_key(k) ==> exists|i: int| 0 <= i < s.len() && s[i].0 == k,
        to_map(s).dom().finite(),
        to_map(s).len() == s.len(),
    decreases s.len(),
{
    if s.len() > 0 {
        let d = s.drop_last();
        assert(keys_unique(d)) by {
            assert forall|i: int, j: int| 0 <= i < d.len() && 0 <= j < d.len() && i != j implies (#[trigger] d[i]).0 != (#[trigger] d[j]).0 by {
                assert(d[i] == s[i] && d[j] == s[j]);
            }
        }
        lemma_to_map(d);
        assert(!to_map(d).contains_key(s.last().0)) by {
            if to_map(d).contains_key(s.last().0) {
                let i = choose|i: int| 0 <= i < d.len() && d[i].0 == s.last().0;
                assert(s[i] == d[i]);
                assert(s[i].0 == s[s.len() - 1].0);
            }
        }
        assert forall|i: int| 0 <= i < s.len() implies #[trigger] to_map(s).contains_key(s[i].0) && to_map(s)[s[i].0] == s[i].1 by {
            if i < s.len() - 1 {
                assert(s[i] == d[i]);
                assert(s[i].0 != s[s.len() - 1].0);
            }
        }
        assert forall|k: K| #[trigger] to_map(s).contains_key(k) implies exists|i: int| 0 <= i < s.len() && s[i].0 == k by {
            if k != s.last().0 {
                assert(to_map(d).contains_key(k));
                let i = choose|i: int| 0 <= i < d.len() && d[i].0 == k;
                assert(s[i] == d[i]);
            } else {
                assert(s[s.len() - 1].0 == k);
            }
        }
    }
}

/// `index_of` finds the pair that holds a key, or gives -1 when none does.
pub proof fn lemma_index_of<K, V>(s: Seq<(K, V)>, k: K)
    requires
        keys_unique(s),
    ensures
        -1 <= index_of(s, k) < s.len(),
        index_of(s, k) >= 0 ==> s[index_of(s, k)].0 == k,
        index_of(s, k) >= 0 <==> to_map(s).contains_key(k),
    decreases s.len(),
{
    lemma_to_map(s);
    if s.len() > 0 {
        let d = s.drop_last();
        assert(keys_unique(d)) by {
            assert forall|i: int, j: int| 0 <= i < d.len() && 0 <= j < d.len() && i != j implies (#[trigger] d[i]).0 != (#[trigger] d[j]).0 by {
                assert(d[i] == s[i] && d[j] == s[j]);
            }
        }
        lemma_index_of(d, k);
        lemma_to_map(d);
        if s.last().0 != k && index_of(d, k) >= 0 {
            assert(d[index_of(d, k)] == s[index_of(d, k)]);
        }
    }
}

/// Appending a pair whose key is new keeps the keys unique and adds it to the map.
pub proof fn lemma_push<K, V>(s: Seq<(K, V)>, k: K, v: V)
    requires
        keys_unique(s),
        !to_map(s).contains_key(k),
    ensures
        keys_unique(s.push((k, v))),
        to_map(s.push((k, v))) == to_map(s).insert(k, v),
{
    lemma_to_map(s);
    let t = s.push((k, v));
    assert(t.drop_last() =~= s);
    assert forall|i: int, j: int| 0 <= i < t.len() && 0 <= j < t.len() && i != j implies (#[trigger] t[i]).0 != (#[trigger] t[j]).0 by {
        if i < s.len() && j < s.len() {
            assert(t[i] == s[i] && t[j] == s[j]);
        } else if i < s.len() {
            assert(t[i] == s[i]);
            assert(to_map(s).contains_key(s[i].0));
        } else {
            assert(t[j] == s[j]);
            assert(to_map(s).contains_key(s[j].0));
        }
    }
}

/// Replacing the value of one pair keeps the keys unique and updates the map there.
pub proof fn lemma_update<K, V>(s: Seq<(K, V)>, i: int, v: V)
    requires
        keys_unique(s),
        0 <= i < s.len(),
    ensures
        keys_unique(s.update(i, (s[i].0, v))),
        to_map(s.update(i, (s[i].0, v))) == to_map(s).insert(s[i].0, v),
    decreases s.len(),
{
    let t = s.update(i, (s[i].0, v));
    assert forall|a: int, b: int| 0 <= a < t.len() && 0 <= b < t.len() && a != b implies (#[trigger] t[a]).0 != (#[trigger] t[b]).0 by {
        assert(t[a].0 == s[a].0 && t[b].0 == s[b].0);
    }
    let d = s.drop_last();
    if i == s.len() - 1 {
        assert(t.drop_last() =~= d);
        assert(to_map(t) =~= to_map(s).insert(s[i].0, v));
    } else {
        assert(keys_unique(d)) by {
            assert forall|a: int, b: int| 0 <= a < d.len() && 0 <= b < d.len() && a != b implies (#[trigger] d[a]).0 != (#[trigger] d[b]).0 by {
                assert(d[a] == s[a] && d[b] == s[b]);
            }
        }
        lemma_update(d, i, v);
        assert(t.drop_last() =~= d.update(i, (d[i].0, v)));
        assert(s[i].0 != s[s.len() - 1].0);
        assert(to_map(t) =~= to_map(s).insert(s[i].0, v));
    }
}

/// Removing one pair keeps the keys unique and removes its key from the map.
pub proof fn lemma_remove<K, V>(s: Seq<(K, V)>, i: int)
    requires
        keys_unique(s),
        0 <= i < s.len(),
    ensures
        keys_unique(s.remove(i)),
        to_map(s.remove(i)) == to_map(s).remove(s[i].0),
    decreases s.len(),
{
    let t = s.remove(i);
    assert forall|a: int, b: int| 0 <= a < t.len() && 0 <= b < t.len() && a != b implies (#[trigger] t[a]).0 != (#[trigger] t[b]).0 by {
        let a2 = if a < i { a } else { a + 1 };
        let b2 = if b < i { b } else { b + 1 };
        assert(t[a] == s[a2] && t[b] == s[b2]);
    }
    let d = s.drop_last();
    assert(keys_unique(d)) by {
        assert forall|a: int, b: int| 0 <= a < d.len() && 0 <= b < d.len() && a != b implies (#[trigger] d[a]).0 != (#[trigger] d[b]).0 by {
            assert(d[a] == s[a] && d[b] == s[b]);
        }
    }
    lemma_to_map(d);
    if i == s.len() - 1 {
        assert(t =~= d);
        assert(!to_map(d).contains_key(s[i].0)) by {
            if to_map(d).contains_key(s[i].0) {
                let j = choose|j: int| 0 <= j < d.len() && d[j].0 == s[i].0;
                assert(d[j] == s[j]);
            }
        }
        assert(to_map(t) =~= to_map(s).remove(s[i].0));
    } else {
        lemma_remove(d, i);
        assert(t.drop_last() =~= d.remove(i));
        assert(t.last() == s.last());
        assert(s[i].0 != s[s.len() - 1].0);
        assert(to_map(t) =~= to_map(s).remove(s[i].0));
    }
}


/// Maps each key of `m` through `g`, keeping the keys.
pub open spec fn map_entries<K, V>(m: Map<K, V>, g: spec_fn(K, V) -> V) -> Map<K, V> {
    Map::new(|k: K| m.contains_key(k), |k: K| g(k, m[k]))
}

/// A table whose pairs keep their keys and have each value passed through `g` stands
/// for the map with each value passed through `g`.
pub proof fn lemma_to_map_pointwise<K, V>(s: Seq<(K, V)>, t: Seq<(K, V)>, g: spec_fn(K, V) -> V)
    requires
        keys_unique(s),
        s.len() == t.len(),
        forall|i: int| 0 <= i < s.len() ==> (#[trigger] t[i]) == (s[i].0, g(s[i].0, s[i].1)),
    ensures
        keys_unique(t),
        to_map(t) == map_entries(to_map(s), g),
    decreases s.len(),
{
    assert forall|a: int, b: int| 0 <= a < t.len() && 0 <= b < t.len() && a != b implies (#[trigger] t[a]).0 != (#[trigger] t[b]).0 by {
        assert(t[a].0 == s[a].0 && t[b].0 == s[b].0);
    }
    if s.len() == 0 {
        assert(to_map(t) =~= map_entries(to_map(s), g));
    } else {
        let ds = s.drop_last();
        let dt = t.drop_last();
        assert(keys_unique(ds)) by {
            assert forall|a: int, b: int| 0 <= a < ds.len() && 0 <= b < ds.len() && a != b implies (#[trigger] ds[a]).0 != (#[trigger] ds[b]).0 by {
                assert(ds[a] == s[a] && ds[b] == s[b]);
            }
        }
        assert forall|i: int| 0 <= i < ds.len() implies (#[trigger] dt[i]) == (ds[i].0, g(ds[i].0, ds[i].1)) by {
            assert(dt[i] == t[i] && ds[i] == s[i]);
        }
        lemma_to_map_pointwise(ds, dt, g);
        assert(t[t.len() - 1] == (s[s.len() - 1].0, g(s[s.len() - 1].0, s[s.len() - 1].1)));
        assert(to_map(t) =~= map_entries(to_map(s), g));
    }
}

/// The index of the first element of `s` that satisfies `p`, or -1.
pub open spec fn first_index<T>(s: Seq<T>, p: spec_fn(T) -> bool) -> int
    decreases s.len(),
{
    if s.len() == 0 {
        -1
    } else if p(s[0]) {
        0
    } else {
        let r = first_index(s.drop_first(), p);
        if r < 0 { -1 } else { r + 1 }
    }
}

/// `first_index` gives the first satisfying element, or -1 when none satisfies `p`.
pub proof fn lemma_first_index<T>(s: Seq<T>, p: spec_fn(T) -> bool)
    ensures
        -1 <= first_index(s, p) < s.len(),
        first_index(s, p) >= 0 ==> p(s[first_index(s, p)]),
        forall|k: int| 0 <= k < s.len() && (k < first_index(s, p) || first_index(s, p) < 0) ==> !p(#[trigger] s[k]),
    decreases s.len(),
{
    if s.len() > 0 && !p(s[0]) {
        let d = s.drop_first();
        lemma_first_index(d, p);
        assert forall|k: int| 0 <= k < s.len() && (k < first_index(s, p) || first_index(s, p) < 0) implies !p(#[trigger] s[k]) by {
            if k > 0 {
                assert(s[k] == d[k - 1]);
            }
        }
        if first_index(d, p) >= 0 {
            assert(s[first_index(s, p)] == d[first_index(d, p)]);
        }
    }
}

/// The first satisfying element is the one that an index with no satisfying element
/// before it finds.
pub proof fn lemma_first_index_is<T>(s: Seq<T>, p: spec_fn(T) -> bool, j: int)
    requires
        0 <= j < s.len(),
        p(s[j]),
        forall|k: int| 0 <= k < j ==> !p(#[trigger] s[k]),
    ensures
        first_index(s, p) == j,
{
    lemma_first_index(s, p);
}

} // verus!
