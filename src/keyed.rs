use vstd::prelude::*;

verus! {

/// No two entries share a name.
pub open spec fn keys_unique<V>(s: Seq<(Seq<char>, V)>) -> bool {
    forall|i: int, j: int| 0 <= i < j < s.len() ==> (#[trigger] s[i]).0 != (#[trigger] s[j]).0
}

/// Some entry is named `k`.
pub open spec fn has_key<V>(s: Seq<(Seq<char>, V)>, k: Seq<char>) -> bool {
    exists|i: int| 0 <= i < s.len() && (#[trigger] s[i]).0 == k
}

/// The map from each name to the value of its entry.
pub open spec fn keyed_map<V>(s: Seq<(Seq<char>, V)>) -> Map<Seq<char>, V> {
    Map::new(
        |k: Seq<char>| has_key(s, k),
        |k: Seq<char>| s[choose|i: int| 0 <= i < s.len() && (#[trigger] s[i]).0 == k].1,
    )
}

/// With unique names, entry `i` is what the map holds under its name.
pub proof fn lemma_keyed_at<V>(s: Seq<(Seq<char>, V)>, i: int)
    requires
        keys_unique(s),
        0 <= i < s.len(),
    ensures
        keyed_map(s).dom().contains(s[i].0),
        keyed_map(s)[s[i].0] == s[i].1,
{
    assert(has_key(s, s[i].0));
    let j = choose|j: int| 0 <= j < s.len() && (#[trigger] s[j]).0 == s[i].0;
    if j != i {
        if j < i {
            assert(s[j].0 != s[i].0);
        } else {
            assert(s[i].0 != s[j].0);
        }
    }
}

pub proof fn lemma_keyed_empty<V>(s: Seq<(Seq<char>, V)>)
    requires
        s.len() == 0,
    ensures
        keyed_map(s) == Map::<Seq<char>, V>::empty(),
        keys_unique(s),
{
    assert(keyed_map(s) =~= Map::<Seq<char>, V>::empty());
}

/// Changing the value of entry `i` changes the map at its name only.
pub proof fn lemma_keyed_update<V>(s: Seq<(Seq<char>, V)>, i: int, v: V)
    requires
        keys_unique(s),
        0 <= i < s.len(),
    ensures
        keys_unique(s.update(i, (s[i].0, v))),
        keyed_map(s.update(i, (s[i].0, v))) == keyed_map(s).insert(s[i].0, v),
{
    let t = s.update(i, (s[i].0, v));
    assert forall|a: int, b: int| 0 <= a < b < t.len() implies (#[trigger] t[a]).0 != (
    #[trigger] t[b]).0 by {
        assert(t[a].0 == s[a].0 && t[b].0 == s[b].0);
    }
    assert forall|j: int| 0 <= j < t.len() implies #[trigger] t[j].0 == s[j].0 by {}
    let m = keyed_map(s).insert(s[i].0, v);
    assert forall|k: Seq<char>| #[trigger] keyed_map(t).dom().contains(k) == m.dom().contains(k) by {
        if has_key(s, k) {
            let j = choose|j: int| 0 <= j < s.len() && (#[trigger] s[j]).0 == k;
            assert(t[j].0 == k);
        }
        if has_key(t, k) {
            let j = choose|j: int| 0 <= j < t.len() && (#[trigger] t[j]).0 == k;
            assert(s[j].0 == k);
        }
    }
    assert forall|k: Seq<char>| #[trigger] keyed_map(t).dom().contains(k) implies keyed_map(t)[k]
        == m[k] by {
        let j = choose|j: int| 0 <= j < t.len() && (#[trigger] t[j]).0 == k;
        lemma_keyed_at(t, j);
        lemma_keyed_at(s, j);
    }
    assert(keyed_map(t) =~= m);
}

/// Adding an entry under a new name adds it to the map.
pub proof fn lemma_keyed_push<V>(s: Seq<(Seq<char>, V)>, k: Seq<char>, v: V)
    requires
        keys_unique(s),
        !has_key(s, k),
    ensures
        keys_unique(s.push((k, v))),
        keyed_map(s.push((k, v))) == keyed_map(s).insert(k, v),
{
    let t = s.push((k, v));
    assert forall|a: int, b: int| 0 <= a < b < t.len() implies (#[trigger] t[a]).0 != (
    #[trigger] t[b]).0 by {
        assert(t[a] == s[a]);
        if b < s.len() {
            assert(t[b] == s[b]);
        }
    }
    let m = keyed_map(s).insert(k, v);
    assert forall|q: Seq<char>| #[trigger] keyed_map(t).dom().contains(q) == m.dom().contains(q) by {
        if q == k {
            assert(t[s.len() as int].0 == k);
        }
        if has_key(s, q) {
            let j = choose|j: int| 0 <= j < s.len() && (#[trigger] s[j]).0 == q;
            assert(t[j] == s[j]);
        }
        if has_key(t, q) {
            let j = choose|j: int| 0 <= j < t.len() && (#[trigger] t[j]).0 == q;
            if j < s.len() {
                assert(t[j] == s[j]);
            }
        }
    }
    assert forall|q: Seq<char>| #[trigger] keyed_map(t).dom().contains(q) implies keyed_map(t)[q]
        == m[q] by {
        let j = choose|j: int| 0 <= j < t.len() && (#[trigger] t[j]).0 == q;
        lemma_keyed_at(t, j);
        if j < s.len() {
            assert(t[j] == s[j]);
            lemma_keyed_at(s, j);
        }
    }
    assert(keyed_map(t) =~= m);
}

/// Removing entry `i` removes its name from the map.
pub proof fn lemma_keyed_remove<V>(s: Seq<(Seq<char>, V)>, i: int)
    requires
        keys_unique(s),
        0 <= i < s.len(),
    ensures
        keys_unique(s.remove(i)),
        keyed_map(s.remove(i)) == keyed_map(s).remove(s[i].0),
{
    let t = s.remove(i);
    assert forall|j: int| 0 <= j < t.len() implies #[trigger] t[j] == s[if j < i {
        j
    } else {
        j + 1
    }] by {}
    assert forall|a: int, b: int| 0 <= a < b < t.len() implies (#[trigger] t[a]).0 != (
    #[trigger] t[b]).0 by {
        let oa = if a < i { a } else { a + 1 };
        let ob = if b < i { b } else { b + 1 };
        assert(t[a] == s[oa] && t[b] == s[ob]);
    }
    let m = keyed_map(s).remove(s[i].0);
    assert forall|q: Seq<char>| #[trigger] keyed_map(t).dom().contains(q) == m.dom().contains(q) by {
        if has_key(s, q) && q != s[i].0 {
            let j = choose|j: int| 0 <= j < s.len() && (#[trigger] s[j]).0 == q;
            assert(j != i);
            let tj = if j < i { j } else { j - 1 };
            assert(t[tj] == s[j]);
        }
        if has_key(t, q) {
            let j = choose|j: int| 0 <= j < t.len() && (#[trigger] t[j]).0 == q;
            let oj = if j < i { j } else { j + 1 };
            assert(t[j] == s[oj]);
            assert(s[oj].0 != s[i].0);
        }
    }
    assert forall|q: Seq<char>| #[trigger] keyed_map(t).dom().contains(q) implies keyed_map(t)[q]
        == m[q] by {
        let j = choose|j: int| 0 <= j < t.len() && (#[trigger] t[j]).0 == q;
        let oj = if j < i { j } else { j + 1 };
        assert(t[j] == s[oj]);
        lemma_keyed_at(t, j);
        lemma_keyed_at(s, oj);
    }
    assert(keyed_map(t) =~= m);
}

} // verus!
