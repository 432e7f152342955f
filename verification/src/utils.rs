use vstd::prelude::*;

verus! {

broadcast use crate::views::lemma_vec_deep_view_index, crate::views::lemma_vec_deep_view_len;

/// Whether `x` occurs among `names`.
pub open spec fn name_taken(names: Seq<Seq<char>>, x: Seq<char>) -> bool {
    exists|i: int| 0 <= i < names.len() && names[i] == x
}

/// The longest length among `names`.
pub open spec fn max_name_len(names: Seq<Seq<char>>) -> nat
    decreases names.len(),
{
    if names.len() == 0 {
        0
    } else {
        let m = max_name_len(names.drop_last());
        if names.last().len() > m {
            names.last().len()
        } else {
            m
        }
    }
}

/// No name is longer than the longest length.
pub proof fn lemma_max_name_len(names: Seq<Seq<char>>)
    ensures
        forall|i: int| 0 <= i < names.len() ==> (#[trigger] names[i]).len() <= max_name_len(names),
    decreases names.len(),
{
    if names.len() > 0 {
        lemma_max_name_len(names.drop_last());
        assert(forall|i: int| 0 <= i < names.len() - 1 ==> names.drop_last()[i] == names[i]);
    }
}

/// The suffix appended to resolve a name collision.
pub open spec fn copy_suffix() -> Seq<char> {
    seq!['-', 'c', 'o', 'p', 'y']
}

/// `c` with the copy suffix appended until it is longer than `m`.
pub open spec fn grown(c: Seq<char>, m: nat) -> Seq<char>
    decreases (if c.len() > m {
        0int
    } else {
        m + 1 - c.len()
    }),
{
    if c.len() > m {
        c
    } else {
        grown(c.add(copy_suffix()), m)
    }
}

/// A grown name is longer than the bound it was grown past.
pub proof fn lemma_grown_long(c: Seq<char>, m: nat)
    ensures
        grown(c, m).len() > m,
    decreases (if c.len() > m {
        0int
    } else {
        m + 1 - c.len()
    }),
{
    if c.len() <= m {
        lemma_grown_long(c.add(copy_suffix()), m);
    }
}

/// The unique name an imported collection gets: the name itself when it is
/// free, else the name with the copy suffix appended until it is longer
/// than every existing name.
pub open spec fn copy_name_spec(name: Seq<char>, names: Seq<Seq<char>>) -> Seq<char> {
    if !name_taken(names, name) {
        name
    } else {
        grown(name.add(copy_suffix()), max_name_len(names))
    }
}

/// The chosen copy name never collides with an existing name.
pub proof fn lemma_copy_name_fresh(name: Seq<char>, names: Seq<Seq<char>>)
    ensures
        !name_taken(names, copy_name_spec(name, names)),
{
    if name_taken(names, name) {
        lemma_grown_long(name.add(copy_suffix()), max_name_len(names));
        lemma_max_name_len(names);
    }
}

/// Picks a name for an incoming collection: the proposed name when no
/// existing collection carries it, else the proposed name with a copy
/// suffix appended until it is longer than every existing name. The result
/// never collides with an existing name.
pub fn build_copy_name(name: String, names: &Vec<String>) -> (r: String)
    ensures
        r@ == copy_name_spec(name@, names.deep_view()),
        !name_taken(names.deep_view(), r@),
{
    proof {
        lemma_copy_name_fresh(name@, names.deep_view());
    }
    let mut taken = false;
    let mut i: usize = 0;
    while i < names.len()
        invariant
            i <= names@.len(),
            taken == exists|k: int|
                0 <= k < i && names.deep_view()[k] == name@,
        decreases names@.len() - i,
    {
        if names[i] == name {
            proof {
                assert(names.deep_view()[i as int] == name@);
            }
            taken = true;
        }
        i = i + 1;
    }
    if !taken {
        proof {
            assert(!name_taken(names.deep_view(), name@));
        }
        return name;
    }
    let mut max_len: usize = 0;
    let mut k: usize = 0;
    while k < names.len()
        invariant
            k <= names@.len(),
            max_len == max_name_len(names.deep_view().subrange(0, k as int)),
        decreases names@.len() - k,
    {
        let ghost pre = names.deep_view().subrange(0, k as int);
        let ghost cur = names.deep_view().subrange(0, k as int + 1);
        let len_k = names[k].as_str().unicode_len();
        proof {
            assert(cur.drop_last() =~= pre);
            assert(cur.last() == names.deep_view()[k as int]);
        }
        if len_k > max_len {
            max_len = len_k;
        }
        k = k + 1;
    }
    proof {
        assert(names.deep_view().subrange(0, names@.len() as int) =~= names.deep_view());
    }
    let mut candidate = name;
    candidate.append("-copy");
    proof {
        reveal_strlit("-copy");
        assert("-copy"@ =~= copy_suffix());
    }
    let ghost m = max_name_len(names.deep_view());
    let ghost cand0 = candidate@;
    while candidate.as_str().unicode_len() <= max_len
        invariant
            max_len == m,
            grown(candidate@, m) == grown(cand0, m),
        decreases (if candidate@.len() > m {
            0int
        } else {
            m + 1 - candidate@.len()
        }),
    {
        candidate.append("-copy");
        proof {
            reveal_strlit("-copy");
            assert("-copy"@ =~= copy_suffix());
        }
    }
    candidate
}

} // verus!
