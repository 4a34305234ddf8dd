//! Lists of entries with distinct keys, read as maps.
use vstd::prelude::*;

verus! {

/// Whether no two entries share a key.
pub open spec fn unique_keys<K, V>(v: Seq<(K, V)>) -> bool {
    forall|i: int, j: int| 0 <= i < v.len() && 0 <= j < v.len() && i != j ==> v[i].0 != v[j].0
}

/// Whether some entry has the key.
pub open spec fn has_key<K, V>(v: Seq<(K, V)>, k: K) -> bool {
    exists|i: int| 0 <= i < v.len() && v[i].0 == k
}

/// The position of an entry with the key.
pub open spec fn key_index<K, V>(v: Seq<(K, V)>, k: K) -> int {
    choose|i: int| 0 <= i < v.len() && v[i].0 == k
}

/// The entries as a map from key to value.
pub open spec fn as_map<K, V>(v: Seq<(K, V)>) -> Map<K, V> {
    Map::new(|k: K| has_key(v, k), |k: K| v[key_index(v, k)].1)
}

/// The entry at `i` is what the map holds for its key.
pub proof fn lemma_at<K, V>(v: Seq<(K, V)>, i: int)
    requires
        unique_keys(v),
        0 <= i < v.len(),
    ensures
        as_map(v).contains_key(v[i].0),
        as_map(v)[v[i].0] == v[i].1,
        key_index(v, v[i].0) == i,
{
    assert(has_key(v, v[i].0));
    let j = key_index(v, v[i].0);
    assert(v[j].0 == v[i].0);
}

/// Appending an entry with a new key adds it to the map.
pub proof fn lemma_push<K, V>(v: Seq<(K, V)>, k: K, x: V)
    requires
        unique_keys(v),
        !has_key(v, k),
    ensures
        unique_keys(v.push((k, x))),
        as_map(v.push((k, x))) =~= as_map(v).insert(k, x),
{
    let w = v.push((k, x));
    assert forall|i: int, j: int| 0 <= i < w.len() && 0 <= j < w.len() && i != j implies w[i].0 != w[j].0 by {
        if i < v.len() && j < v.len() {
            assert(w[i] == v[i] && w[j] == v[j]);
        } else if i == v.len() {
            assert(w[j] == v[j]);
        } else {
            assert(w[i] == v[i]);
        }
    }
    assert forall|key: K| as_map(w).contains_key(key) <==> as_map(v).insert(k, x).contains_key(key) by {
        if has_key(v, key) {
            let i = key_index(v, key);
            assert(w[i] == v[i]);
        }
        if has_key(w, key) && key != k {
            let i = key_index(w, key);
            assert(i < v.len());
            assert(v[i] == w[i]);
        }
        if key == k {
            assert(w[v.len() as int].0 == k);
        }
    }
    assert forall|key: K| as_map(w).contains_key(key) implies as_map(w)[key] == as_map(v).insert(k, x)[key] by {
        if key == k {
            lemma_at(w, v.len() as int);
        } else {
            let i = key_index(w, key);
            assert(i < v.len());
            assert(w[i] == v[i]);
            lemma_at(v, i);
            lemma_at(w, i);
        }
    }
}

/// Replacing the value of the entry at `i` updates its key in the map.
pub proof fn lemma_update<K, V>(v: Seq<(K, V)>, i: int, x: V)
    requires
        unique_keys(v),
        0 <= i < v.len(),
    ensures
        unique_keys(v.update(i, (v[i].0, x))),
        as_map(v.update(i, (v[i].0, x))) =~= as_map(v).insert(v[i].0, x),
{
    let w = v.update(i, (v[i].0, x));
    assert forall|a: int, b: int| 0 <= a < w.len() && 0 <= b < w.len() && a != b implies w[a].0 != w[b].0 by {
        assert(w[a].0 == v[a].0 && w[b].0 == v[b].0);
    }
    assert forall|key: K| has_key(w, key) <==> has_key(v, key) by {
        if has_key(v, key) {
            let j = key_index(v, key);
            assert(w[j].0 == v[j].0);
        }
        if has_key(w, key) {
            let j = key_index(w, key);
            assert(w[j].0 == v[j].0);
        }
    }
    assert forall|key: K| as_map(w).contains_key(key) implies as_map(w)[key] == as_map(v).insert(v[i].0, x)[key] by {
        let j = key_index(w, key);
        lemma_at(w, j);
        if j != i {
            assert(w[j] == v[j]);
            lemma_at(v, j);
        }
    }
}

/// Removing the entry at `i` removes its key from the map.
pub proof fn lemma_remove<K, V>(v: Seq<(K, V)>, i: int)
    requires
        unique_keys(v),
        0 <= i < v.len(),
    ensures
        unique_keys(v.remove(i)),
        as_map(v.remove(i)) =~= as_map(v).remove(v[i].0),
{
    let w = v.remove(i);
    let map_index = |a: int| if a < i { a } else { a + 1 };
    assert forall|a: int| 0 <= a < w.len() implies w[a] == v[map_index(a)] by {}
    assert forall|a: int, b: int| 0 <= a < w.len() && 0 <= b < w.len() && a != b implies w[a].0 != w[b].0 by {
        assert(w[a] == v[map_index(a)] && w[b] == v[map_index(b)]);
    }
    assert forall|key: K| has_key(w, key) <==> (has_key(v, key) && key != v[i].0) by {
        if has_key(w, key) {
            let a = key_index(w, key);
            assert(w[a] == v[map_index(a)]);
            assert(map_index(a) != i);
        }
        if has_key(v, key) && key != v[i].0 {
            let a = key_index(v, key);
            assert(a != i);
            let b = if a < i { a } else { a - 1 };
            assert(w[b] == v[a]);
        }
    }
    assert forall|key: K| as_map(w).contains_key(key) implies as_map(w)[key] == as_map(v).remove(v[i].0)[key] by {
        let a = key_index(w, key);
        lemma_at(w, a);
        assert(w[a] == v[map_index(a)]);
        lemma_at(v, map_index(a));
    }
}

/// Whether an entry's key satisfies `pred`.
pub open spec fn key_holds<K, V>(pred: spec_fn(K) -> bool) -> spec_fn((K, V)) -> bool {
    |e: (K, V)| pred(e.0)
}

/// The entries without their last one keep distinct keys.
pub proof fn lemma_drop_last<K, V>(s: Seq<(K, V)>)
    requires
        unique_keys(s),
        s.len() > 0,
    ensures
        unique_keys(s.drop_last()),
        !has_key(s.drop_last(), s.last().0),
        as_map(s) =~= as_map(s.drop_last()).insert(s.last().0, s.last().1),
{
    let t = s.drop_last();
    assert forall|i: int, j: int| 0 <= i < t.len() && 0 <= j < t.len() && i != j implies t[i].0 != t[j].0 by {
        assert(t[i] == s[i] && t[j] == s[j]);
    }
    if has_key(t, s.last().0) {
        let i = key_index(t, s.last().0);
        assert(t[i] == s[i]);
    }
    assert(t.push(s.last()) =~= s);
    lemma_push(t, s.last().0, s.last().1);
}

/// Keeping the entries whose keys satisfy `pred` keeps the keys distinct and
/// restricts the map to those keys.
pub proof fn lemma_filter_keys<K, V>(s: Seq<(K, V)>, pred: spec_fn(K) -> bool)
    requires
        unique_keys(s),
    ensures
        unique_keys(s.filter(key_holds::<K, V>(pred))),
        as_map(s.filter(key_holds::<K, V>(pred))) =~= as_map(s).filter_keys(pred),
    decreases s.len(),
{
    reveal(Seq::filter);
    let q = key_holds::<K, V>(pred);
    if s.len() == 0 {
        assert(as_map(s.filter(q)) =~= as_map(s).filter_keys(pred));
    } else {
        let t = s.drop_last();
        lemma_drop_last(s);
        lemma_filter_keys(t, pred);
        let r = t.filter(q);
        let x = s.last();
        if q(x) {
            if has_key(r, x.0) {
                assert(as_map(r).contains_key(x.0));
            }
            lemma_push(r, x.0, x.1);
            assert(s.filter(q) == r.push(x));
        } else {
            assert(s.filter(q) == r);
        }
        assert(as_map(s.filter(q)) =~= as_map(s).filter_keys(pred));
    }
}

/// The entries with `k` bound to `v`: in place when some entry has the
/// key, appended otherwise.
pub open spec fn with_entry<K, V>(s: Seq<(K, V)>, k: K, v: V) -> Seq<(K, V)> {
    if has_key(s, k) {
        s.update(key_index(s, k), (k, v))
    } else {
        s.push((k, v))
    }
}

/// The entries without the one that has key `k`, if any.
pub open spec fn without_entry<K, V>(s: Seq<(K, V)>, k: K) -> Seq<(K, V)> {
    if has_key(s, k) {
        s.remove(key_index(s, k))
    } else {
        s
    }
}

/// Binding a key keeps the keys distinct and binds it in the map.
pub proof fn lemma_with_entry<K, V>(s: Seq<(K, V)>, k: K, v: V)
    requires
        unique_keys(s),
    ensures
        unique_keys(with_entry(s, k, v)),
        as_map(with_entry(s, k, v)) =~= as_map(s).insert(k, v),
{
    if has_key(s, k) {
        let i = key_index(s, k);
        lemma_update(s, i, v);
    } else {
        lemma_push(s, k, v);
    }
}

/// Removing a key keeps the keys distinct and removes it from the map.
pub proof fn lemma_without_entry<K, V>(s: Seq<(K, V)>, k: K)
    requires
        unique_keys(s),
    ensures
        unique_keys(without_entry(s, k)),
        as_map(without_entry(s, k)) =~= as_map(s).remove(k),
{
    if has_key(s, k) {
        lemma_remove(s, key_index(s, k));
    } else {
        assert(as_map(s) =~= as_map(s).remove(k));
    }
}

/// With distinct keys, the map has as many keys as there are entries.
pub proof fn lemma_map_len<K, V>(s: Seq<(K, V)>)
    requires
        unique_keys(s),
    ensures
        as_map(s).dom().finite(),
        as_map(s).len() == s.len(),
    decreases s.len(),
{
    if s.len() == 0 {
        assert(as_map(s).dom() =~= Set::<K>::empty());
    } else {
        lemma_drop_last(s);
        lemma_map_len(s.drop_last());
        assert(!as_map(s.drop_last()).contains_key(s.last().0));
    }
}

} // verus!
