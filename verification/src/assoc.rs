//! Association lists: sequences of key/value pairs read as finite maps.

use vstd::prelude::*;

verus! {

pub open spec fn seq_has<K, V>(s: Seq<(K, V)>, k: K) -> bool {
    exists|i: int| 0 <= i < s.len() && #[trigger] s[i].0 == k
}

/// The value stored under `k`, where the keys are distinct.
pub open spec fn seq_lookup<K, V>(s: Seq<(K, V)>, k: K) -> Option<V> {
    if seq_has(s, k) {
        Some(s[choose|i: int| 0 <= i < s.len() && #[trigger] s[i].0 == k].1)
    } else {
        None
    }
}

pub open spec fn keys_distinct<K, V>(s: Seq<(K, V)>) -> bool {
    forall|i: int, j: int|
        0 <= i < s.len() && 0 <= j < s.len() && i != j ==> #[trigger] s[i].0 != #[trigger] s[j].0
}

/// The pairs of `s` that `f` keeps, in order.
pub open spec fn filt<K, V>(s: Seq<(K, V)>, f: spec_fn(K, V) -> bool) -> Seq<(K, V)>
    decreases s.len(),
{
    if s.len() == 0 {
        s
    } else {
        let rest = filt(s.drop_last(), f);
        if f(s.last().0, s.last().1) {
            rest.push(s.last())
        } else {
            rest
        }
    }
}

/// The map that an association list stands for.
pub open spec fn as_map<K, V>(s: Seq<(K, V)>) -> Map<K, V> {
    Map::new(|k: K| seq_has(s, k), |k: K| seq_lookup(s, k).unwrap())
}

pub proof fn lemma_lookup_index<K, V>(s: Seq<(K, V)>, i: int)
    requires
        keys_distinct(s),
        0 <= i < s.len(),
    ensures
        seq_has(s, s[i].0),
        seq_lookup(s, s[i].0) == Some(s[i].1),
{
    assert(s[i].0 == s[i].0);
    let j = choose|j: int| 0 <= j < s.len() && #[trigger] s[j].0 == s[i].0;
    if j != i {
        assert(s[i].0 != s[j].0);
    }
}

pub proof fn lemma_lookup_some<K, V>(s: Seq<(K, V)>, k: K) -> (i: int)
    requires
        seq_has(s, k),
        keys_distinct(s),
    ensures
        0 <= i < s.len(),
        s[i].0 == k,
        seq_lookup(s, k) == Some(s[i].1),
{
    let i = choose|i: int| 0 <= i < s.len() && #[trigger] s[i].0 == k;
    lemma_lookup_index(s, i);
    i
}

pub proof fn lemma_lookup_push<K, V>(s: Seq<(K, V)>, k: K, v: V)
    requires
        keys_distinct(s),
        !seq_has(s, k),
    ensures
        keys_distinct(s.push((k, v))),
        forall|q: K|
            #[trigger] seq_lookup(s.push((k, v)), q) == if q == k {
                Some(v)
            } else {
                seq_lookup(s, q)
            },
{
    let t = s.push((k, v));
    assert forall|i: int, j: int|
        0 <= i < t.len() && 0 <= j < t.len() && i != j implies #[trigger] t[i].0 != #[trigger] t[j].0 by {
        if i < s.len() && j < s.len() {
            assert(s[i].0 != s[j].0);
        } else if i < s.len() {
            assert(t[i].0 == s[i].0);
        } else {
            assert(t[j].0 == s[j].0);
        }
    }
    assert forall|q: K|
        #[trigger] seq_lookup(t, q) == if q == k {
            Some(v)
        } else {
            seq_lookup(s, q)
        } by {
        if q == k {
            lemma_lookup_index(t, s.len() as int);
        } else if seq_has(s, q) {
            let i = lemma_lookup_some(s, q);
            assert(t[i] == s[i]);
            lemma_lookup_index(t, i);
        } else {
            if seq_has(t, q) {
                let i = choose|i: int| 0 <= i < t.len() && #[trigger] t[i].0 == q;
                assert(i < s.len());
                assert(s[i].0 == q);
            }
        }
    }
}

pub proof fn lemma_lookup_update<K, V>(s: Seq<(K, V)>, i: int, v: V)
    requires
        keys_distinct(s),
        0 <= i < s.len(),
    ensures
        keys_distinct(s.update(i, (s[i].0, v))),
        forall|q: K|
            #[trigger] seq_lookup(s.update(i, (s[i].0, v)), q) == if q == s[i].0 {
                Some(v)
            } else {
                seq_lookup(s, q)
            },
{
    let k = s[i].0;
    let t = s.update(i, (k, v));
    assert forall|a: int, b: int|
        0 <= a < t.len() && 0 <= b < t.len() && a != b implies #[trigger] t[a].0 != #[trigger] t[b].0 by {
        assert(t[a].0 == s[a].0);
        assert(t[b].0 == s[b].0);
    }
    assert forall|q: K|
        #[trigger] seq_lookup(t, q) == if q == k {
            Some(v)
        } else {
            seq_lookup(s, q)
        } by {
        if q == k {
            lemma_lookup_index(t, i);
        } else if seq_has(s, q) {
            let j = lemma_lookup_some(s, q);
            assert(t[j] == s[j]);
            lemma_lookup_index(t, j);
        } else {
            if seq_has(t, q) {
                let j = choose|j: int| 0 <= j < t.len() && #[trigger] t[j].0 == q;
                assert(s[j].0 == q);
            }
        }
    }
}

pub proof fn lemma_filt<K, V>(s: Seq<(K, V)>, f: spec_fn(K, V) -> bool)
    requires
        keys_distinct(s),
    ensures
        keys_distinct(filt(s, f)),
        forall|q: K|
            #[trigger] seq_lookup(filt(s, f), q) == match seq_lookup(s, q) {
                Some(v) => if f(q, v) {
                    Some(v)
                } else {
                    None
                },
                None => None,
            },
    decreases s.len(),
{
    if s.len() == 0 {
        assert forall|q: K| #[trigger] seq_lookup(filt(s, f), q) == seq_lookup(s, q) by {}
    } else {
        let r = s.drop_last();
        assert(keys_distinct(r)) by {
            assert forall|i: int, j: int|
                0 <= i < r.len() && 0 <= j < r.len() && i != j implies #[trigger] r[i].0
                != #[trigger] r[j].0 by {
                assert(r[i] == s[i] && r[j] == s[j]);
            }
        }
        lemma_filt(r, f);
        let last = s.last();
        assert(!seq_has(r, last.0)) by {
            if seq_has(r, last.0) {
                let i = choose|i: int| 0 <= i < r.len() && #[trigger] r[i].0 == last.0;
                assert(s[i].0 == s[s.len() - 1].0);
            }
        }
        assert(s =~= r.push(last));
        lemma_lookup_push(r, last.0, last.1);
        if f(last.0, last.1) {
            assert(!seq_has(filt(r, f), last.0)) by {
                if seq_has(filt(r, f), last.0) {
                    let i = lemma_lookup_some(filt(r, f), last.0);
                }
            }
            lemma_lookup_push(filt(r, f), last.0, last.1);
        }
    }
}

/// Two association lists with distinct keys and the same lookups stand for the same map.
pub proof fn lemma_as_map<K, V>(s: Seq<(K, V)>, k: K)
    ensures
        as_map(s).contains_key(k) == seq_has(s, k),
        seq_has(s, k) ==> as_map(s)[k] == seq_lookup(s, k).unwrap(),
        seq_has(s, k) == (seq_lookup(s, k) is Some),
{
}

pub proof fn lemma_lookup_remove<K, V>(s: Seq<(K, V)>, i: int)
    requires
        keys_distinct(s),
        0 <= i < s.len(),
    ensures
        keys_distinct(s.remove(i)),
        forall|q: K|
            #[trigger] seq_lookup(s.remove(i), q) == if q == s[i].0 {
                None
            } else {
                seq_lookup(s, q)
            },
{
    let k = s[i].0;
    let t = s.remove(i);
    assert forall|a: int, b: int|
        0 <= a < t.len() && 0 <= b < t.len() && a != b implies #[trigger] t[a].0 != #[trigger] t[b].0 by {
        let sa = if a < i { a } else { a + 1 };
        let sb = if b < i { b } else { b + 1 };
        assert(t[a] == s[sa]);
        assert(t[b] == s[sb]);
    }
    assert forall|q: K|
        #[trigger] seq_lookup(t, q) == if q == k {
            None
        } else {
            seq_lookup(s, q)
        } by {
        if q == k {
            if seq_has(t, q) {
                let j = choose|j: int| 0 <= j < t.len() && #[trigger] t[j].0 == q;
                let sj = if j < i { j } else { j + 1 };
                assert(t[j] == s[sj]);
            }
        } else if seq_has(s, q) {
            let j = lemma_lookup_some(s, q);
            assert(j != i);
            let tj = if j < i { j } else { j - 1 };
            assert(t[tj] == s[j]);
            lemma_lookup_index(t, tj);
        } else {
            if seq_has(t, q) {
                let j = choose|j: int| 0 <= j < t.len() && #[trigger] t[j].0 == q;
                let sj = if j < i { j } else { j + 1 };
                assert(t[j] == s[sj]);
            }
        }
    }
}

} // verus!
