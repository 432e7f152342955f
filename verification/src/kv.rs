use vstd::prelude::*;

use crate::views::lemma_vec_deep_view_index;

verus! {

broadcast use crate::views::lemma_vec_deep_view_index, crate::views::lemma_vec_deep_view_len;

/// The position of the first entry under key `k`, if any.
pub open spec fn assoc_index<V>(s: Seq<(Seq<char>, V)>, k: Seq<char>) -> Option<int>
    decreases s.len(),
{
    if s.len() == 0 {
        None
    } else if s[0].0 == k {
        Some(0)
    } else {
        match assoc_index(s.drop_first(), k) {
            None => None,
            Some(j) => Some(j + 1),
        }
    }
}

/// What [`assoc_index`] finds is the first entry under the key.
pub proof fn lemma_assoc_index<V>(s: Seq<(Seq<char>, V)>, k: Seq<char>)
    ensures
        match assoc_index(s, k) {
            None => forall|i: int| 0 <= i < s.len() ==> (#[trigger] s[i]).0 != k,
            Some(j) => 0 <= j < s.len() && s[j].0 == k && forall|i: int|
                0 <= i < j ==> (#[trigger] s[i]).0 != k,
        },
    decreases s.len(),
{
    if s.len() > 0 {
        let t = s.drop_first();
        lemma_assoc_index(t, k);
        assert(forall|i: int| 0 <= i < t.len() ==> t[i] == s[i + 1]);
        if s[0].0 != k {
            match assoc_index(t, k) {
                None => {
                    assert forall|i: int| 0 <= i < s.len() implies (#[trigger] s[i]).0 != k by {
                        if i > 0 {
                            assert(t[i - 1] == s[i]);
                        }
                    }
                },
                Some(j) => {
                    assert(t[j] == s[j + 1]);
                    assert forall|i: int| 0 <= i < j + 1 implies (#[trigger] s[i]).0 != k by {
                        if i > 0 {
                            assert(t[i - 1] == s[i]);
                        }
                    }
                },
            }
        }
    }
}

/// The value of the first entry under key `k`, if any.
pub open spec fn assoc_get<V>(s: Seq<(Seq<char>, V)>, k: Seq<char>) -> Option<V> {
    match assoc_index(s, k) {
        None => None,
        Some(j) => Some(s[j].1),
    }
}

/// The table after a last-write-wins insert under key `k`.
pub open spec fn assoc_upsert<V>(s: Seq<(Seq<char>, V)>, k: Seq<char>, v: V) -> Seq<
    (Seq<char>, V),
> {
    match assoc_index(s, k) {
        Some(j) => s.update(j, (k, v)),
        None => s.push((k, v)),
    }
}

/// The table after removing the entry under key `k`; unchanged when absent.
pub open spec fn assoc_remove<V>(s: Seq<(Seq<char>, V)>, k: Seq<char>) -> Seq<(Seq<char>, V)> {
    match assoc_index(s, k) {
        Some(j) => s.remove(j),
        None => s,
    }
}

/// Finds the position of the first entry stored under key `k`.
pub fn assoc_find<V: DeepView>(entries: &Vec<(String, V)>, k: &String) -> (r: Option<usize>)
    ensures
        match r {
            Some(j) => j < entries@.len() && assoc_index(entries.deep_view(), k@) == Some(j as int),
            None => assoc_index(entries.deep_view(), k@) is None,
        },
{
    proof {
        lemma_assoc_index(entries.deep_view(), k@);
    }
    let mut i: usize = 0;
    while i < entries.len()
        invariant
            i <= entries@.len(),
            forall|j: int| 0 <= j < i ==> (#[trigger] entries.deep_view()[j]).0 != k@,
        decreases entries@.len() - i,
    {
        proof {
            lemma_vec_deep_view_index(*entries, i as int);
        }
        if entries[i].0 == *k {
            proof {
                lemma_assoc_index(entries.deep_view(), k@);
            }
            return Some(i);
        }
        i = i + 1;
    }
    None
}


/// A sequence whose first entry under `k` stands at `j` has `Some(j)` as
/// its index for `k`.
pub proof fn lemma_assoc_index_first<V>(s: Seq<(Seq<char>, V)>, k: Seq<char>, j: int)
    requires
        0 <= j < s.len(),
        s[j].0 == k,
        forall|i: int| 0 <= i < j ==> (#[trigger] s[i]).0 != k,
    ensures
        assoc_index(s, k) == Some(j),
    decreases j,
{
    if j == 0 {
    } else {
        let t = s.drop_first();
        assert(forall|i: int| 0 <= i < t.len() ==> t[i] == s[i + 1]);
        assert forall|i: int| 0 <= i < j - 1 implies (#[trigger] t[i]).0 != k by {
            assert(t[i] == s[i + 1]);
        }
        lemma_assoc_index_first(t, k, j - 1);
    }
}

/// Looking up a key right after writing it yields exactly the written
/// value: the round-trip law of the association table.
pub proof fn lemma_assoc_upsert_get<V>(s: Seq<(Seq<char>, V)>, k: Seq<char>, v: V)
    ensures
        assoc_get(assoc_upsert(s, k, v), k) == Some(v),
{
    lemma_assoc_index(s, k);
    match assoc_index(s, k) {
        Some(j) => {
            let u = s.update(j, (k, v));
            assert forall|i: int| 0 <= i < j implies (#[trigger] u[i]).0 != k by {
                assert(u[i] == s[i]);
            }
            lemma_assoc_index_first(u, k, j);
        },
        None => {
            let u = s.push((k, v));
            assert forall|i: int| 0 <= i < s.len() implies (#[trigger] u[i]).0 != k by {
                assert(u[i] == s[i]);
            }
            lemma_assoc_index_first(u, k, s.len() as int);
        },
    }
}


/// Writing one key never disturbs what another key maps to.
pub proof fn lemma_assoc_get_upsert_other<V>(
    s: Seq<(Seq<char>, V)>,
    k: Seq<char>,
    k2: Seq<char>,
    v: V,
)
    requires
        k2 != k,
    ensures
        assoc_get(assoc_upsert(s, k2, v), k) == assoc_get(s, k),
{
    lemma_assoc_index(s, k);
    lemma_assoc_index(s, k2);
    match assoc_index(s, k2) {
        Some(j) => {
            let u = s.update(j, (k2, v));
            match assoc_index(s, k) {
                Some(i) => {
                    assert(i != j);
                    assert(u[i].0 == k);
                    assert forall|p: int| 0 <= p < i implies (#[trigger] u[p]).0 != k by {
                        if p != j {
                            assert(u[p] == s[p]);
                        }
                    }
                    lemma_assoc_index_first(u, k, i);
                    assert(u[i] == s[i]);
                },
                None => {
                    lemma_assoc_index(u, k);
                    match assoc_index(u, k) {
                        None => {},
                        Some(i) => {
                            if i != j {
                                assert(u[i] == s[i]);
                            }
                            assert(false);
                        },
                    }
                },
            }
        },
        None => {
            let u = s.push((k2, v));
            match assoc_index(s, k) {
                Some(i) => {
                    assert(u[i].0 == k);
                    assert forall|p: int| 0 <= p < i implies (#[trigger] u[p]).0 != k by {
                        assert(u[p] == s[p]);
                    }
                    lemma_assoc_index_first(u, k, i);
                    assert(u[i] == s[i]);
                },
                None => {
                    lemma_assoc_index(u, k);
                    match assoc_index(u, k) {
                        None => {},
                        Some(i) => {
                            if i < s.len() {
                                assert(u[i] == s[i]);
                            }
                            assert(false);
                        },
                    }
                },
            }
        },
    }
}

} // verus!
