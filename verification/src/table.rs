//! A finite map kept as a sequence of key/value pairs in which no key occurs
//! twice, and the facts that relate edits of the sequence to edits of the map.

use vstd::prelude::*;

verus! {

/// No key occurs twice in `s`.
pub open spec fn keys_distinct<K, V>(s: Seq<(K, V)>) -> bool {
    forall|i: int, j: int|
        0 <= i < s.len() && 0 <= j < s.len() && i != j ==> #[trigger] s[i].0 != #[trigger] s[j].0
}

/// Some pair of `s` has the key `k`.
pub open spec fn has_key<K, V>(s: Seq<(K, V)>, k: K) -> bool {
    exists|i: int| 0 <= i < s.len() && #[trigger] s[i].0 == k
}

/// The map that `s` stands for: each key of `s` to the value paired with it.
pub open spec fn map_of<K, V>(s: Seq<(K, V)>) -> Map<K, V> {
    Map::new(
        |k: K| has_key(s, k),
        |k: K| s[choose|i: int| 0 <= i < s.len() && #[trigger] s[i].0 == k].1,
    )
}

/// Each pair of a sequence with distinct keys is an entry of its map.
pub proof fn lemma_map_of_index<K, V>(s: Seq<(K, V)>, i: int)
    requires
        keys_distinct(s),
        0 <= i < s.len(),
    ensures
        map_of(s).contains_key(s[i].0),
        map_of(s)[s[i].0] == s[i].1,
{
    let k = s[i].0;
    assert(has_key(s, k));
    let j = choose|j: int| 0 <= j < s.len() && #[trigger] s[j].0 == k;
    assert(j == i);
}

/// The empty sequence stands for the empty map.
pub proof fn lemma_map_of_empty<K, V>()
    ensures
        keys_distinct(Seq::<(K, V)>::empty()),
        map_of(Seq::<(K, V)>::empty()) == Map::<K, V>::empty(),
{
    assert(map_of(Seq::<(K, V)>::empty()) =~= Map::<K, V>::empty());
}

/// Inserting a pair with a new key anywhere adds that entry to the map.
pub proof fn lemma_map_of_insert<K, V>(s: Seq<(K, V)>, pos: int, k: K, v: V)
    requires
        keys_distinct(s),
        !has_key(s, k),
        0 <= pos <= s.len(),
    ensures
        keys_distinct(s.insert(pos, (k, v))),
        map_of(s.insert(pos, (k, v))) == map_of(s).insert(k, v),
{
    let t = s.insert(pos, (k, v));
    assert forall|i: int| 0 <= i < t.len() implies #[trigger] t[i] == (if i < pos {
        s[i]
    } else if i == pos {
        (k, v)
    } else {
        s[i - 1]
    }) by {}
    assert forall|i: int, j: int|
        0 <= i < t.len() && 0 <= j < t.len() && i != j implies #[trigger] t[i].0 != #[trigger] t[j].0 by {
        if i == pos {
            if j < pos {
                assert(s[j].0 != k);
            } else {
                assert(s[j - 1].0 != k);
            }
        } else if j == pos {
            if i < pos {
                assert(s[i].0 != k);
            } else {
                assert(s[i - 1].0 != k);
            }
        } else {
            let si = if i < pos { i } else { i - 1 };
            let sj = if j < pos { j } else { j - 1 };
            assert(s[si].0 != s[sj].0);
        }
    }
    assert forall|x: K| #[trigger] has_key(t, x) == (has_key(s, x) || x == k) by {
        if has_key(t, x) {
            let i = choose|i: int| 0 <= i < t.len() && #[trigger] t[i].0 == x;
            if i < pos {
                assert(s[i].0 == x);
            } else if i > pos {
                assert(s[i - 1].0 == x);
            }
        }
        if has_key(s, x) {
            let i = choose|i: int| 0 <= i < s.len() && #[trigger] s[i].0 == x;
            if i < pos {
                assert(t[i].0 == x);
            } else {
                assert(t[i + 1].0 == x);
            }
        }
        if x == k {
            assert(t[pos].0 == x);
        }
    }
    assert forall|x: K| #[trigger] map_of(t).contains_key(x) implies map_of(t)[x] == map_of(s).insert(k, v)[x] by {
        let i = choose|i: int| 0 <= i < t.len() && #[trigger] t[i].0 == x;
        lemma_map_of_index(t, i);
        if i < pos {
            lemma_map_of_index(s, i);
        } else if i > pos {
            lemma_map_of_index(s, i - 1);
        }
    }
    assert(map_of(t) =~= map_of(s).insert(k, v));
}

/// Appending a pair with a new key adds that entry to the map.
pub proof fn lemma_map_of_push<K, V>(s: Seq<(K, V)>, k: K, v: V)
    requires
        keys_distinct(s),
        !has_key(s, k),
    ensures
        keys_distinct(s.push((k, v))),
        map_of(s.push((k, v))) == map_of(s).insert(k, v),
{
    assert(s.insert(s.len() as int, (k, v)) =~= s.push((k, v)));
    lemma_map_of_insert(s, s.len() as int, k, v);
}

/// Replacing the value of one pair replaces the value of that entry.
pub proof fn lemma_map_of_update<K, V>(s: Seq<(K, V)>, i: int, v: V)
    requires
        keys_distinct(s),
        0 <= i < s.len(),
    ensures
        keys_distinct(s.update(i, (s[i].0, v))),
        map_of(s.update(i, (s[i].0, v))) == map_of(s).insert(s[i].0, v),
{
    let t = s.update(i, (s[i].0, v));
    assert forall|a: int, b: int|
        0 <= a < t.len() && 0 <= b < t.len() && a != b implies #[trigger] t[a].0 != #[trigger] t[b].0 by {
        assert(s[a].0 != s[b].0);
    }
    assert forall|x: K| #[trigger] has_key(t, x) == has_key(s, x) by {
        if has_key(t, x) {
            let j = choose|j: int| 0 <= j < t.len() && #[trigger] t[j].0 == x;
            assert(s[j].0 == x);
        }
        if has_key(s, x) {
            let j = choose|j: int| 0 <= j < s.len() && #[trigger] s[j].0 == x;
            assert(t[j].0 == x);
        }
    }
    assert forall|x: K| #[trigger] map_of(t).contains_key(x) implies map_of(t)[x] == map_of(s).insert(
        s[i].0,
        v,
    )[x] by {
        let j = choose|j: int| 0 <= j < t.len() && #[trigger] t[j].0 == x;
        lemma_map_of_index(t, j);
        lemma_map_of_index(s, j);
    }
    lemma_map_of_index(s, i);
    assert(map_of(t) =~= map_of(s).insert(s[i].0, v));
}

/// Removing one pair removes that entry from the map.
pub proof fn lemma_map_of_remove<K, V>(s: Seq<(K, V)>, i: int)
    requires
        keys_distinct(s),
        0 <= i < s.len(),
    ensures
        keys_distinct(s.remove(i)),
        map_of(s.remove(i)) == map_of(s).remove(s[i].0),
{
    let t = s.remove(i);
    assert forall|a: int| 0 <= a < t.len() implies #[trigger] t[a] == (if a < i {
        s[a]
    } else {
        s[a + 1]
    }) by {}
    assert forall|a: int, b: int|
        0 <= a < t.len() && 0 <= b < t.len() && a != b implies #[trigger] t[a].0 != #[trigger] t[b].0 by {
        let sa = if a < i { a } else { a + 1 };
        let sb = if b < i { b } else { b + 1 };
        assert(s[sa].0 != s[sb].0);
    }
    assert forall|x: K| #[trigger] has_key(t, x) == (has_key(s, x) && x != s[i].0) by {
        if has_key(t, x) {
            let j = choose|j: int| 0 <= j < t.len() && #[trigger] t[j].0 == x;
            let sj = if j < i { j } else { j + 1 };
            assert(s[sj].0 == x);
        }
        if has_key(s, x) && x != s[i].0 {
            let j = choose|j: int| 0 <= j < s.len() && #[trigger] s[j].0 == x;
            if j < i {
                assert(t[j].0 == x);
            } else {
                assert(t[j - 1].0 == x);
            }
        }
    }
    assert forall|x: K| #[trigger] map_of(t).contains_key(x) implies map_of(t)[x] == map_of(s).remove(
        s[i].0,
    )[x] by {
        let j = choose|j: int| 0 <= j < t.len() && #[trigger] t[j].0 == x;
        lemma_map_of_index(t, j);
        let sj = if j < i { j } else { j + 1 };
        lemma_map_of_index(s, sj);
    }
    assert(map_of(t) =~= map_of(s).remove(s[i].0));
}

/// Growing a prefix of a sequence with distinct keys by one pair adds that
/// pair's entry, whose key the shorter prefix lacks.
pub proof fn lemma_map_of_prefix<K, V>(s: Seq<(K, V)>, i: int)
    requires
        keys_distinct(s),
        0 <= i < s.len(),
    ensures
        keys_distinct(s.take(i)),
        !has_key(s.take(i), s[i].0),
        keys_distinct(s.take(i + 1)),
        map_of(s.take(i + 1)) == map_of(s.take(i)).insert(s[i].0, s[i].1),
{
    let p = s.take(i);
    assert forall|a: int, b: int|
        0 <= a < p.len() && 0 <= b < p.len() && a != b implies #[trigger] p[a].0 != #[trigger] p[b].0 by {
        assert(s[a].0 != s[b].0);
    }
    if has_key(p, s[i].0) {
        let j = choose|j: int| 0 <= j < p.len() && #[trigger] p[j].0 == s[i].0;
        assert(s[j].0 == s[i].0);
    }
    assert(s.take(i + 1) =~= p.push(s[i]));
    lemma_map_of_push(p, s[i].0, s[i].1);
}


/// The entries of `m` whose key passes `keep`, each value turned into
/// `f(key, value)`.
pub open spec fn select<K, V, W>(m: Map<K, V>, keep: spec_fn(K) -> bool, f: spec_fn(K, V) -> W) -> Map<K, W> {
    Map::new(|k: K| m.contains_key(k) && keep(k), |k: K| f(k, m[k]))
}

/// One step of a scan that selects entries of `s` in order: when the next
/// pair passes, placing its image anywhere in the output keeps the output
/// standing for the selection of the longer prefix; when it does not, the
/// output already does.
pub proof fn lemma_select_step<K, V, W>(
    s: Seq<(K, V)>,
    i: int,
    out: Seq<(K, W)>,
    pos: int,
    keep: spec_fn(K) -> bool,
    f: spec_fn(K, V) -> W,
)
    requires
        keys_distinct(s),
        0 <= i < s.len(),
        0 <= pos <= out.len(),
        keys_distinct(out),
        map_of(out) == select(map_of(s.take(i)), keep, f),
    ensures
        keep(s[i].0) ==> keys_distinct(out.insert(pos, (s[i].0, f(s[i].0, s[i].1)))),
        keep(s[i].0) ==> map_of(out.insert(pos, (s[i].0, f(s[i].0, s[i].1)))) == select(
            map_of(s.take(i + 1)),
            keep,
            f,
        ),
        !keep(s[i].0) ==> map_of(out) == select(map_of(s.take(i + 1)), keep, f),
{
    lemma_map_of_prefix(s, i);
    let k = s[i].0;
    let v = s[i].1;
    let before = map_of(s.take(i));
    let after = map_of(s.take(i + 1));
    assert(!before.contains_key(k));
    if keep(k) {
        if has_key(out, k) {
            let j = choose|j: int| 0 <= j < out.len() && #[trigger] out[j].0 == k;
            lemma_map_of_index(out, j);
        }
        lemma_map_of_insert(out, pos, k, f(k, v));
        assert(select(after, keep, f) =~= select(before, keep, f).insert(k, f(k, v)));
    } else {
        assert(select(after, keep, f) =~= select(before, keep, f));
    }
}

/// A prefix as long as the sequence is the sequence.
pub proof fn lemma_take_all<A>(s: Seq<A>)
    ensures
        s.take(s.len() as int) == s,
{
    assert(s.take(s.len() as int) =~= s);
}

/// The empty prefix stands for the empty map.
pub proof fn lemma_take_none<K, V>(s: Seq<(K, V)>)
    ensures
        keys_distinct(s.take(0)),
        map_of(s.take(0)) == Map::<K, V>::empty(),
{
    assert(s.take(0) =~= Seq::<(K, V)>::empty());
    lemma_map_of_empty::<K, V>();
}

} // verus!
