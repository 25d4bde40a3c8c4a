//! A mathematical model of an association list with first-match lookup,
//! replace-in-place update and removal.  Both the header map and the server's
//! connection table are verified against these functions.

use vstd::prelude::*;

verus! {

/// The value bound to key `k`: the value of the first pair whose key is `k`,
/// if any.
pub open spec fn assoc_get<K, V>(m: Seq<(K, V)>, k: K) -> Option<V>
    decreases m.len(),
{
    if m.len() == 0 {
        None
    } else if m[0].0 == k {
        Some(m[0].1)
    } else {
        assoc_get(m.skip(1), k)
    }
}

/// Binds `k` to `v`: replaces the first pair whose key is `k`, or appends a
/// new pair when no pair holds `k`.
pub open spec fn assoc_set<K, V>(m: Seq<(K, V)>, k: K, v: V) -> Seq<(K, V)>
    decreases m.len(),
{
    if m.len() == 0 {
        seq![(k, v)]
    } else if m[0].0 == k {
        seq![(k, v)] + m.skip(1)
    } else {
        seq![m[0]] + assoc_set(m.skip(1), k, v)
    }
}

/// Removes the first pair whose key is `k`, if any.
pub open spec fn assoc_remove<K, V>(m: Seq<(K, V)>, k: K) -> Seq<(K, V)>
    decreases m.len(),
{
    if m.len() == 0 {
        m
    } else if m[0].0 == k {
        m.skip(1)
    } else {
        seq![m[0]] + assoc_remove(m.skip(1), k)
    }
}

/// All keys are distinct.
pub open spec fn assoc_wf<K, V>(m: Seq<(K, V)>) -> bool {
    forall|i: int, j: int| 0 <= i < j < m.len() ==> m[i].0 != m[j].0
}

/// A key found at position `i`, with no earlier pair holding it, is what
/// `assoc_get` returns.
pub proof fn lemma_get_found<K, V>(m: Seq<(K, V)>, k: K, i: int)
    requires
        0 <= i < m.len(),
        forall|j: int| 0 <= j < i ==> m[j].0 != k,
        m[i].0 == k,
    ensures
        assoc_get(m, k) == Some(m[i].1),
    decreases i,
{
    if i > 0 {
        lemma_get_found(m.skip(1), k, i - 1);
    }
}

/// A key held by no pair is absent.
pub proof fn lemma_get_none<K, V>(m: Seq<(K, V)>, k: K)
    requires
        forall|j: int| 0 <= j < m.len() ==> m[j].0 != k,
    ensures
        assoc_get(m, k) is None,
    decreases m.len(),
{
    if m.len() > 0 {
        lemma_get_none(m.skip(1), k);
    }
}

/// Setting a key found at position `i`, with no earlier pair holding it,
/// updates that position in place.
pub proof fn lemma_set_found<K, V>(m: Seq<(K, V)>, k: K, v: V, i: int)
    requires
        0 <= i < m.len(),
        forall|j: int| 0 <= j < i ==> m[j].0 != k,
        m[i].0 == k,
    ensures
        assoc_set(m, k, v) == m.update(i, (k, v)),
    decreases i,
{
    if i == 0 {
        assert(assoc_set(m, k, v) =~= m.update(0, (k, v)));
    } else {
        lemma_set_found(m.skip(1), k, v, i - 1);
        assert(seq![m[0]] + m.skip(1).update(i - 1, (k, v)) =~= m.update(i, (k, v)));
    }
}

/// Setting a key held by no pair appends the new pair.
pub proof fn lemma_set_absent<K, V>(m: Seq<(K, V)>, k: K, v: V)
    requires
        forall|j: int| 0 <= j < m.len() ==> m[j].0 != k,
    ensures
        assoc_set(m, k, v) == m.push((k, v)),
    decreases m.len(),
{
    if m.len() == 0 {
        assert(assoc_set(m, k, v) =~= m.push((k, v)));
    } else {
        lemma_set_absent(m.skip(1), k, v);
        assert(seq![m[0]] + m.skip(1).push((k, v)) =~= m.push((k, v)));
    }
}

/// Removing a key found at position `i`, with no earlier pair holding it,
/// removes that position.
pub proof fn lemma_remove_found<K, V>(m: Seq<(K, V)>, k: K, i: int)
    requires
        0 <= i < m.len(),
        forall|j: int| 0 <= j < i ==> m[j].0 != k,
        m[i].0 == k,
    ensures
        assoc_remove(m, k) == m.remove(i),
    decreases i,
{
    if i == 0 {
        assert(assoc_remove(m, k) =~= m.remove(0));
    } else {
        lemma_remove_found(m.skip(1), k, i - 1);
        assert(seq![m[0]] + m.skip(1).remove(i - 1) =~= m.remove(i));
    }
}

/// Removing a key held by no pair changes nothing.
pub proof fn lemma_remove_absent<K, V>(m: Seq<(K, V)>, k: K)
    requires
        forall|j: int| 0 <= j < m.len() ==> m[j].0 != k,
    ensures
        assoc_remove(m, k) == m,
    decreases m.len(),
{
    if m.len() > 0 {
        lemma_remove_absent(m.skip(1), k);
        assert(seq![m[0]] + m.skip(1) =~= m);
    }
}

/// How a lookup reads through a preceding `assoc_set`: the set key answers
/// with the new value, every other key answers as before.
pub proof fn lemma_set_get<K, V>(m: Seq<(K, V)>, k: K, v: V, q: K)
    ensures
        assoc_get(assoc_set(m, k, v), q) == if q == k {
            Some(v)
        } else {
            assoc_get(m, q)
        },
    decreases m.len(),
{
    let r = assoc_set(m, k, v);
    if m.len() == 0 {
        assert(r =~= seq![(k, v)]);
        assert(r[0] == (k, v));
        if q == k {
            assert(assoc_get(r, q) == Some(v));
        } else {
            assert(assoc_get(r, q) == assoc_get(r.skip(1), q));
            assert(r.skip(1).len() == 0);
        }
    } else if m[0].0 == k {
        assert(r == seq![(k, v)] + m.skip(1));
        assert(r[0] == (k, v));
        assert(r.skip(1) =~= m.skip(1));
        if q == k {
            assert(assoc_get(r, q) == Some(v));
        } else {
            assert(assoc_get(r, q) == assoc_get(m.skip(1), q));
            assert(assoc_get(m, q) == assoc_get(m.skip(1), q));
        }
    } else {
        assert(r == seq![m[0]] + assoc_set(m.skip(1), k, v));
        assert(r[0] == m[0]);
        assert(r.skip(1) =~= assoc_set(m.skip(1), k, v));
        lemma_set_get(m.skip(1), k, v, q);
        if q == m[0].0 {
            assert(assoc_get(r, q) == Some(m[0].1));
            assert(assoc_get(m, q) == Some(m[0].1));
        } else {
            assert(assoc_get(r, q) == assoc_get(assoc_set(m.skip(1), k, v), q));
            assert(assoc_get(m, q) == assoc_get(m.skip(1), q));
        }
    }
}

/// How a lookup reads through a preceding `assoc_remove`, on a list with
/// distinct keys: the removed key is absent, every other key answers as
/// before.
pub proof fn lemma_remove_get<K, V>(m: Seq<(K, V)>, k: K, q: K)
    requires
        assoc_wf(m),
    ensures
        assoc_get(assoc_remove(m, k), q) == if q == k {
            None::<V>
        } else {
            assoc_get(m, q)
        },
    decreases m.len(),
{
    if m.len() == 0 {
    } else if m[0].0 == k {
        assert(assoc_remove(m, k) =~= m.skip(1));
        if q == k {
            assert(forall|j: int| 0 <= j < m.skip(1).len() ==> m.skip(1)[j].0 != k);
            lemma_get_none(m.skip(1), k);
        }
    } else {
        let r = seq![m[0]] + assoc_remove(m.skip(1), k);
        assert(assoc_remove(m, k) == r);
        assert(r[0] == m[0]);
        assert(r.skip(1) =~= assoc_remove(m.skip(1), k));
        assert(assoc_wf(m.skip(1)));
        lemma_remove_get(m.skip(1), k, q);
    }
}

/// `assoc_set` never introduces a pair whose key is neither the set key nor a
/// key of the original list.
pub proof fn lemma_set_no_new_key<K, V>(m: Seq<(K, V)>, k: K, v: V, q: K)
    requires
        q != k,
        forall|j: int| 0 <= j < m.len() ==> m[j].0 != q,
    ensures
        forall|j: int| 0 <= j < assoc_set(m, k, v).len() ==> assoc_set(m, k, v)[j].0 != q,
    decreases m.len(),
{
    if m.len() == 0 {
    } else if m[0].0 == k {
    } else {
        lemma_set_no_new_key(m.skip(1), k, v, q);
        assert forall|j: int| 0 <= j < assoc_set(m, k, v).len() implies assoc_set(m, k, v)[j].0
            != q by {
            if j > 0 {
                assert(assoc_set(m, k, v)[j] == assoc_set(m.skip(1), k, v)[j - 1]);
            }
        }
    }
}

/// `assoc_set` keeps the keys distinct.
pub proof fn lemma_set_wf<K, V>(m: Seq<(K, V)>, k: K, v: V)
    requires
        assoc_wf(m),
    ensures
        assoc_wf(assoc_set(m, k, v)),
    decreases m.len(),
{
    if m.len() == 0 {
    } else if m[0].0 == k {
        let r = seq![(k, v)] + m.skip(1);
        assert forall|i: int, j: int| 0 <= i < j < r.len() implies r[i].0 != r[j].0 by {
            if i == 0 {
                assert(r[j] == m[j]);
            } else {
                assert(r[i] == m[i]);
                assert(r[j] == m[j]);
            }
        }
    } else {
        let r = seq![m[0]] + assoc_set(m.skip(1), k, v);
        assert(assoc_wf(m.skip(1)));
        lemma_set_wf(m.skip(1), k, v);
        lemma_set_no_new_key(m.skip(1), k, v, m[0].0);
        assert forall|i: int, j: int| 0 <= i < j < r.len() implies r[i].0 != r[j].0 by {
            if i == 0 {
                assert(r[j] == assoc_set(m.skip(1), k, v)[j - 1]);
            } else {
                assert(r[i] == assoc_set(m.skip(1), k, v)[i - 1]);
                assert(r[j] == assoc_set(m.skip(1), k, v)[j - 1]);
            }
        }
    }
}

/// `assoc_remove` keeps the keys distinct.
pub proof fn lemma_remove_wf<K, V>(m: Seq<(K, V)>, k: K)
    requires
        assoc_wf(m),
    ensures
        assoc_wf(assoc_remove(m, k)),
    decreases m.len(),
{
    if m.len() == 0 {
    } else if m[0].0 == k {
        assert(assoc_wf(m.skip(1)));
    } else {
        let r = seq![m[0]] + assoc_remove(m.skip(1), k);
        assert(assoc_wf(m.skip(1)));
        lemma_remove_wf(m.skip(1), k);
        assert forall|i: int, j: int| 0 <= i < j < r.len() implies r[i].0 != r[j].0 by {
            lemma_remove_keys_subset(m.skip(1), k);
            if i == 0 {
                assert(r[j] == assoc_remove(m.skip(1), k)[j - 1]);
            } else {
                assert(r[i] == assoc_remove(m.skip(1), k)[i - 1]);
                assert(r[j] == assoc_remove(m.skip(1), k)[j - 1]);
            }
        }
    }
}

/// Every key of `assoc_remove(m, k)` is a key of `m`.
pub proof fn lemma_remove_keys_subset<K, V>(m: Seq<(K, V)>, k: K)
    ensures
        forall|j: int| 0 <= j < assoc_remove(m, k).len() ==> exists|i: int|
            0 <= i < m.len() && m[i].0 == #[trigger] assoc_remove(m, k)[j].0,
    decreases m.len(),
{
    if m.len() == 0 {
    } else if m[0].0 == k {
        assert forall|j: int| 0 <= j < assoc_remove(m, k).len() implies exists|i: int|
            0 <= i < m.len() && m[i].0 == #[trigger] assoc_remove(m, k)[j].0 by {
            assert(m[j + 1].0 == assoc_remove(m, k)[j].0);
        }
    } else {
        lemma_remove_keys_subset(m.skip(1), k);
        assert forall|j: int| 0 <= j < assoc_remove(m, k).len() implies exists|i: int|
            0 <= i < m.len() && m[i].0 == #[trigger] assoc_remove(m, k)[j].0 by {
            if j == 0 {
                assert(m[0].0 == assoc_remove(m, k)[0].0);
            } else {
                assert(assoc_remove(m, k)[j] == assoc_remove(m.skip(1), k)[j - 1]);
                let i0 = choose|i0: int|
                    0 <= i0 < m.skip(1).len() && m.skip(1)[i0].0 == assoc_remove(
                        m.skip(1),
                        k,
                    )[j - 1].0;
                assert(m[i0 + 1].0 == assoc_remove(m, k)[j].0);
            }
        }
    }
}

} // verus!
