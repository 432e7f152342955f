use vstd::prelude::*;

verus! {

/// Indexing the deep view of a vector is indexing the vector and taking the
/// element's deep view.
pub broadcast proof fn lemma_vec_deep_view_index<T: DeepView>(v: Vec<T>, i: int)
    requires
        0 <= i < v@.len(),
    ensures
        #[trigger] v.deep_view()[i] == v@[i].deep_view(),
{
}

/// The deep view of a vector has the vector's length.
pub broadcast proof fn lemma_vec_deep_view_len<T: DeepView>(v: Vec<T>)
    ensures
        #[trigger] v.deep_view().len() == v@.len(),
{
}

/// Compares two byte vectors element by element.
pub fn bytes_same(a: &Vec<u8>, b: &Vec<u8>) -> (r: bool)
    ensures
        r == (a.deep_view() == b.deep_view()),
{
    broadcast use lemma_vec_deep_view_index, lemma_vec_deep_view_len;

    if a.len() != b.len() {
        assert(a.deep_view().len() != b.deep_view().len());
        return false;
    }
    let mut i: usize = 0;
    while i < a.len()
        invariant
            i <= a.len(),
            a.len() == b.len(),
            forall|j: int| 0 <= j < i ==> #[trigger] a.deep_view()[j] == b.deep_view()[j],
        decreases a.len() - i,
    {
        if a[i] != b[i] {
            assert(a.deep_view()[i as int] != b.deep_view()[i as int]);
            return false;
        }
        i = i + 1;
    }
    assert(a.deep_view() =~= b.deep_view());
    true
}

/// Copies a byte vector element by element.
pub fn bytes_copy(a: &Vec<u8>) -> (r: Vec<u8>)
    ensures
        r.deep_view() == a.deep_view(),
{
    broadcast use lemma_vec_deep_view_index, lemma_vec_deep_view_len;

    let mut r: Vec<u8> = Vec::new();
    let mut i: usize = 0;
    while i < a.len()
        invariant
            i <= a.len(),
            r@.len() == i,
            forall|j: int| 0 <= j < i ==> #[trigger] r.deep_view()[j] == a.deep_view()[j],
        decreases a.len() - i,
    {
        let ghost r0 = r;
        r.push(a[i]);
        proof {
            assert forall|j: int| 0 <= j < i + 1 implies #[trigger] r.deep_view()[j]
                == a.deep_view()[j] by {
                lemma_vec_deep_view_index(r, j);
                lemma_vec_deep_view_index(*a, j);
                if j < i {
                    lemma_vec_deep_view_index(r0, j);
                }
            }
        }
        i = i + 1;
    }
    assert(r.deep_view() =~= a.deep_view());
    r
}

/// Compares two string vectors element by element.
pub fn strings_same(a: &Vec<String>, b: &Vec<String>) -> (r: bool)
    ensures
        r == (a.deep_view() == b.deep_view()),
{
    broadcast use lemma_vec_deep_view_index, lemma_vec_deep_view_len;

    if a.len() != b.len() {
        assert(a.deep_view().len() != b.deep_view().len());
        return false;
    }
    let mut i: usize = 0;
    while i < a.len()
        invariant
            i <= a.len(),
            a.len() == b.len(),
            forall|j: int| 0 <= j < i ==> #[trigger] a.deep_view()[j] == b.deep_view()[j],
        decreases a.len() - i,
    {
        proof {
            lemma_vec_deep_view_index(*a, i as int);
            lemma_vec_deep_view_index(*b, i as int);
        }
        if !vec_str_eq_at(a, b, i) {
            assert(a.deep_view()[i as int] != b.deep_view()[i as int]);
            return false;
        }
        i = i + 1;
    }
    assert(a.deep_view() =~= b.deep_view());
    true
}

/// Compares one element of two string vectors.
fn vec_str_eq_at(a: &Vec<String>, b: &Vec<String>, i: usize) -> (r: bool)
    requires
        i < a@.len(),
        i < b@.len(),
    ensures
        r == (a@[i as int]@ == b@[i as int]@),
{
    let x: &String = &a[i];
    let y: &String = &b[i];
    *x == *y
}

/// Copies a string vector element by element.
pub fn strings_copy(a: &Vec<String>) -> (r: Vec<String>)
    ensures
        r.deep_view() == a.deep_view(),
{
    broadcast use lemma_vec_deep_view_index, lemma_vec_deep_view_len;

    let mut r: Vec<String> = Vec::new();
    let mut i: usize = 0;
    while i < a.len()
        invariant
            i <= a.len(),
            r@.len() == i,
            forall|j: int| 0 <= j < i ==> #[trigger] r.deep_view()[j] == a.deep_view()[j],
        decreases a.len() - i,
    {
        let s: String = a[i].clone();
        let ghost r0 = r;
        r.push(s);
        proof {
            assert forall|j: int| 0 <= j < i + 1 implies #[trigger] r.deep_view()[j]
                == a.deep_view()[j] by {
                lemma_vec_deep_view_index(r, j);
                lemma_vec_deep_view_index(*a, j);
                if j < i {
                    lemma_vec_deep_view_index(r0, j);
                }
            }
        }
        i = i + 1;
    }
    assert(r.deep_view() =~= a.deep_view());
    r
}

} // verus!
