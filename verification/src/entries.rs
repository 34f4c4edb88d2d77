//! Ordered key-to-value entry lists: the common model of the override table
//! and of converted JSON objects. Keys are compared exactly; the first
//! matching entry wins and insertion order is preserved.

use vstd::prelude::*;

verus! {

/// Index of the first entry of `m` whose key is `k`, if any.
pub open spec fn find_key<V>(m: Seq<(Seq<char>, V)>, k: Seq<char>) -> Option<int>
    decreases m.len(),
{
    if m.len() == 0 {
        Option::None
    } else if m[0].0 == k {
        Option::Some(0)
    } else {
        match find_key(m.drop_first(), k) {
            Option::Some(i) => Option::Some(i + 1),
            Option::None => Option::None,
        }
    }
}

/// Store `v` under `k`: replace the value of the first entry keyed `k`,
/// keeping its position, or append a new entry at the end.
pub open spec fn upsert<V>(m: Seq<(Seq<char>, V)>, k: Seq<char>, v: V) -> Seq<(Seq<char>, V)> {
    match find_key(m, k) {
        Option::Some(i) => m.update(i, (k, v)),
        Option::None => m.push((k, v)),
    }
}

/// What `find_key` returns: the first index whose key is `k`, or nothing
/// when no key of `m` is `k`.
pub proof fn lemma_find_key_props<V>(m: Seq<(Seq<char>, V)>, k: Seq<char>)
    ensures
        match find_key(m, k) {
            Option::Some(i) => 0 <= i < m.len() && m[i].0 == k && (forall|j: int|
                0 <= j < i ==> m[j].0 != k),
            Option::None => forall|j: int| 0 <= j < m.len() ==> m[j].0 != k,
        },
    decreases m.len(),
{
    if m.len() == 0 {
    } else if m[0].0 == k {
    } else {
        let m2 = m.drop_first();
        lemma_find_key_props(m2, k);
        match find_key(m2, k) {
            Option::Some(i) => {
                assert(m2[i] == m[i + 1]);
                assert forall|j: int| 0 <= j < i + 1 implies m[j].0 != k by {
                    if j > 0 {
                        assert(m2[j - 1] == m[j]);
                    }
                }
            },
            Option::None => {
                assert forall|j: int| 0 <= j < m.len() implies m[j].0 != k by {
                    if j > 0 {
                        assert(m2[j - 1] == m[j]);
                    }
                }
            },
        }
    }
}

/// The value stored under the first entry keyed `k`, if any.
pub open spec fn value_at<V>(m: Seq<(Seq<char>, V)>, k: Seq<char>) -> Option<V> {
    match find_key(m, k) {
        Option::Some(i) => Option::Some(m[i].1),
        Option::None => Option::None,
    }
}

/// `find_key` looks at keys alone: lists with the same keys agree on it.
pub proof fn lemma_find_key_same_keys<V>(m1: Seq<(Seq<char>, V)>, m2: Seq<(Seq<char>, V)>, k: Seq<char>)
    requires
        m1.len() == m2.len(),
        forall|j: int| 0 <= j < m1.len() ==> m1[j].0 == m2[j].0,
    ensures
        find_key(m1, k) == find_key(m2, k),
    decreases m1.len(),
{
    if m1.len() > 0 && m1[0].0 != k {
        assert forall|j: int| 0 <= j < m1.drop_first().len() implies m1.drop_first()[j].0
            == m2.drop_first()[j].0 by {
            assert(m1.drop_first()[j] == m1[j + 1]);
            assert(m2.drop_first()[j] == m2[j + 1]);
        }
        lemma_find_key_same_keys(m1.drop_first(), m2.drop_first(), k);
    }
}

/// Appending an entry with another key leaves `find_key` unchanged.
pub proof fn lemma_find_key_push_other<V>(m: Seq<(Seq<char>, V)>, e: (Seq<char>, V), k: Seq<char>)
    requires
        e.0 != k,
    ensures
        find_key(m.push(e), k) == find_key(m, k),
    decreases m.len(),
{
    if m.len() == 0 {
        assert(m.push(e)[0] == e);
        assert(m.push(e).drop_first() =~= Seq::<(Seq<char>, V)>::empty());
        assert(find_key(m.push(e).drop_first(), k) is None);
        assert(find_key(m.push(e), k) is None);
    } else if m[0].0 == k {
        assert(m.push(e)[0] == m[0]);
        assert(find_key(m.push(e), k) == Option::Some(0int));
        assert(find_key(m, k) == Option::Some(0int));
    } else {
        assert(m.push(e)[0] == m[0]);
        assert(m.push(e).drop_first() =~= m.drop_first().push(e));
        lemma_find_key_push_other(m.drop_first(), e, k);
        assert(find_key(m.push(e).drop_first(), k) == find_key(m.drop_first(), k));
        match find_key(m.drop_first(), k) {
            Option::Some(i) => {
                assert(find_key(m.push(e), k) == Option::Some(i + 1));
                assert(find_key(m, k) == Option::Some(i + 1));
            },
            Option::None => {
                assert(find_key(m.push(e), k) is None);
                assert(find_key(m, k) is None);
            },
        }
    }
}

/// Appending an entry with a fresh key makes it the one `find_key` finds.
pub proof fn lemma_find_key_push_fresh<V>(m: Seq<(Seq<char>, V)>, e: (Seq<char>, V))
    requires
        find_key(m, e.0) is None,
    ensures
        find_key(m.push(e), e.0) == Option::Some(m.len() as int),
    decreases m.len(),
{
    if m.len() == 0 {
        assert(m.push(e)[0] == e);
    } else {
        assert(m.push(e)[0] == m[0]);
        assert(m[0].0 != e.0);
        assert(m.push(e).drop_first() =~= m.drop_first().push(e));
        lemma_find_key_push_fresh(m.drop_first(), e);
    }
}

/// `find_key` returns exactly the position of a first match.
pub proof fn lemma_find_key_at<V>(m: Seq<(Seq<char>, V)>, k: Seq<char>, i: int)
    requires
        0 <= i < m.len(),
        m[i].0 == k,
        forall|j: int| 0 <= j < i ==> m[j].0 != k,
    ensures
        find_key(m, k) == Option::<int>::Some(i),
{
    lemma_find_key_props(m, k);
    match find_key(m, k) {
        Option::Some(i2) => {
            if i2 < i {
                assert(m[i2].0 != k);
            } else if i < i2 {
                assert(m[i].0 != k);
            }
        },
        Option::None => {
            assert(m[i].0 != k);
        },
    }
}

} // verus!
