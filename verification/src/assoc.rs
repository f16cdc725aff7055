//! Association sequences: the mathematical model of the small
//! insertion-ordered maps the linter keeps. Lookup finds the first
//! entry with the key; upsert replaces it in place or appends.

use vstd::prelude::*;

verus! {

/// The index of the first entry with key `k`, or -1 when there is none.
pub open spec fn find_key<K, V>(m: Seq<(K, V)>, k: K) -> int
    decreases m.len(),
{
    if m.len() == 0 {
        -1
    } else if m[0].0 == k {
        0
    } else if find_key(m.drop_first(), k) == -1 {
        -1
    } else {
        find_key(m.drop_first(), k) + 1
    }
}

/// Whether some entry has key `k`.
pub open spec fn assoc_has<K, V>(m: Seq<(K, V)>, k: K) -> bool {
    find_key(m, k) >= 0
}

/// The value of the first entry with key `k`.
pub open spec fn assoc_get<K, V>(m: Seq<(K, V)>, k: K) -> V
    recommends
        assoc_has(m, k),
{
    m[find_key(m, k)].1
}

/// The map with `k` bound to `v`: the first entry with key `k` is
/// replaced in place, or a new entry is appended.
pub open spec fn upsert<K, V>(m: Seq<(K, V)>, k: K, v: V) -> Seq<(K, V)> {
    if assoc_has(m, k) {
        m.update(find_key(m, k), (k, v))
    } else {
        m.push((k, v))
    }
}

/// The view of a sequence of string-keyed entries.
pub open spec fn str_keyed_view<V>(s: Seq<(String, V)>) -> Seq<(Seq<char>, V)> {
    s.map_values(|p: (String, V)| (p.0@, p.1))
}

/// The index of the first entry for this string key, if any.
pub fn find_str_key<V>(m: &Vec<(String, V)>, k: &str) -> (r: Option<usize>)
    ensures
        match r {
            Some(i) => i == find_key(str_keyed_view(m@), k@),
            None => find_key(str_keyed_view(m@), k@) == -1,
        },
{
    proof {
        lemma_find_key(str_keyed_view(m@), k@);
    }
    let mut i: usize = 0;
    while i < m.len()
        invariant
            i <= m.len(),
            str_keyed_view(m@).len() == m.len(),
            forall|j: int| 0 <= j < i ==> str_keyed_view(m@)[j].0 != k@,
            find_key(str_keyed_view(m@), k@) == -1 || 0 <= find_key(str_keyed_view(m@), k@)
                < m.len(),
            find_key(str_keyed_view(m@), k@) >= 0 ==> str_keyed_view(m@)[find_key(
                str_keyed_view(m@),
                k@,
            )].0 == k@,
            find_key(str_keyed_view(m@), k@) >= 0 ==> forall|j: int|
                0 <= j < find_key(str_keyed_view(m@), k@) ==> str_keyed_view(m@)[j].0 != k@,
            find_key(str_keyed_view(m@), k@) == -1 ==> forall|j: int|
                0 <= j < m.len() ==> str_keyed_view(m@)[j].0 != k@,
        decreases m.len() - i,
    {
        if crate::text::str_eq(m[i].0.as_str(), k) {
            proof {
                assert(str_keyed_view(m@)[i as int].0 == k@);
            }
            return Some(i);
        }
        i = i + 1;
    }
    None
}

/// `find_key` returns the first matching index, or -1 when no entry
/// matches.
pub proof fn lemma_find_key<K, V>(m: Seq<(K, V)>, k: K)
    ensures
        -1 <= find_key(m, k) < m.len(),
        find_key(m, k) >= 0 ==> m[find_key(m, k)].0 == k,
        find_key(m, k) >= 0 ==> forall|j: int| 0 <= j < find_key(m, k) ==> m[j].0 != k,
        find_key(m, k) == -1 ==> forall|j: int| 0 <= j < m.len() ==> m[j].0 != k,
    decreases m.len(),
{
    if m.len() > 0 && m[0].0 != k {
        lemma_find_key(m.drop_first(), k);
        assert forall|j: int| 1 <= j < m.len() implies m[j] == m.drop_first()[j - 1] by {}
    }
}

/// After an upsert the key is bound to exactly the inserted value.
pub proof fn lemma_upsert_get<K, V>(m: Seq<(K, V)>, k: K, v: V)
    ensures
        assoc_has(upsert(m, k, v), k),
        assoc_get(upsert(m, k, v), k) == v,
{
    lemma_find_key(m, k);
    let m2 = upsert(m, k, v);
    lemma_find_key(m2, k);
    if assoc_has(m, k) {
        let idx = find_key(m, k);
        assert(m2[idx].0 == k);
        assert(find_key(m2, k) >= 0);
        if find_key(m2, k) < idx {
            assert(m2[find_key(m2, k)] == m[find_key(m2, k)]);
            assert(false);
        }
        if find_key(m2, k) > idx {
            assert(false);
        }
    } else {
        assert(m2[m.len() as int].0 == k);
        assert(find_key(m2, k) >= 0);
        let fk = find_key(m2, k);
        if fk < m.len() {
            assert(m2[fk] == m[fk]);
            assert(false);
        }
    }
}

/// An upsert leaves every other key's binding as it was.
pub proof fn lemma_upsert_other<K, V>(m: Seq<(K, V)>, k: K, v: V, k2: K)
    requires
        k2 != k,
    ensures
        assoc_has(upsert(m, k, v), k2) == assoc_has(m, k2),
        assoc_has(m, k2) ==> assoc_get(upsert(m, k, v), k2) == assoc_get(m, k2),
{
    lemma_find_key(m, k);
    lemma_find_key(m, k2);
    let m2 = upsert(m, k, v);
    lemma_find_key(m2, k2);
    if assoc_has(m, k2) {
        let idx = find_key(m, k2);
        assert(m2[idx].0 == k2);
        assert(find_key(m2, k2) >= 0);
        let fk = find_key(m2, k2);
        if fk < idx {
            assert(m2[fk].0 == k2);
            if assoc_has(m, k) && fk == find_key(m, k) {
                assert(m2[fk].0 == k);
            } else {
                assert(m2[fk] == m[fk]);
            }
            assert(false);
        }
        if fk > idx {
            assert(false);
        }
        assert(m2[fk] == m[fk]);
    } else {
        if assoc_has(m2, k2) {
            let fk = find_key(m2, k2);
            assert(m2[fk].0 == k2);
            if assoc_has(m, k) {
                if fk == find_key(m, k) {
                    assert(m2[fk].0 == k);
                } else {
                    assert(m2[fk] == m[fk]);
                }
            } else {
                if fk < m.len() {
                    assert(m2[fk] == m[fk]);
                } else {
                    assert(m2[fk].0 == k);
                }
            }
            assert(false);
        }
    }
}

} // verus!
