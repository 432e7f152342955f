use vstd::prelude::*;

verus! {

broadcast use crate::views::lemma_vec_deep_view_index, crate::views::lemma_vec_deep_view_len;

/// The segments of a "/"-delimited path, in order. Every path has at least
/// one segment; empty segments are kept, so `"a//b"` has an empty middle
/// segment and `""` is the single empty segment.
pub open spec fn path_segments(s: Seq<char>) -> Seq<Seq<char>>
    decreases s.len(),
{
    if s.len() == 0 {
        seq![Seq::<char>::empty()]
    } else if s[0] == '/' {
        seq![Seq::<char>::empty()].add(path_segments(s.subrange(1, s.len() as int)))
    } else {
        let rest = path_segments(s.subrange(1, s.len() as int));
        seq![seq![s[0]].add(rest[0])].add(rest.subrange(1, rest.len() as int))
    }
}

/// A path always has at least one segment.
pub proof fn lemma_path_segments_nonempty(s: Seq<char>)
    ensures
        path_segments(s).len() >= 1,
    decreases s.len(),
{
    if s.len() == 0 {
    } else {
        lemma_path_segments_nonempty(s.subrange(1, s.len() as int));
    }
}

/// Splitting at the first separator: if nothing before position `k` is a
/// separator, the segments of `s` are the prefix up to `k` followed by the
/// segments of what comes after the separator at `k`; if `k` is the end,
/// the whole of `s` is the only segment.
pub proof fn lemma_split_at_slash(s: Seq<char>, k: int)
    requires
        0 <= k <= s.len(),
        forall|j: int| 0 <= j < k ==> s[j] != '/',
    ensures
        k == s.len() ==> path_segments(s) == seq![s],
        k < s.len() && s[k] == '/' ==> path_segments(s) == seq![s.subrange(0, k)].add(
            path_segments(s.subrange(k + 1, s.len() as int)),
        ),
    decreases k,
{
    lemma_path_segments_nonempty(s);
    if k == 0 {
        if k == s.len() {
            assert(s =~= Seq::<char>::empty());
            assert(path_segments(s) =~= seq![s]);
        } else if s[0] == '/' {
            assert(s.subrange(0, 0) =~= Seq::<char>::empty());
            assert(s.subrange(1, s.len() as int) =~= s.subrange(k + 1, s.len() as int));
            assert(path_segments(s) =~= seq![s.subrange(0, k)].add(
                path_segments(s.subrange(k + 1, s.len() as int)),
            ));
        }
    } else {
        let s1 = s.subrange(1, s.len() as int);
        lemma_path_segments_nonempty(s1);
        assert(forall|j: int| 0 <= j < k - 1 ==> s1[j] != '/');
        lemma_split_at_slash(s1, k - 1);
        let rest = path_segments(s1);
        if k == s.len() {
            assert(rest == seq![s1]);
            assert(seq![s[0]].add(rest[0]) =~= s);
            assert(rest.subrange(1, rest.len() as int) =~= Seq::<Seq<char>>::empty());
            assert(path_segments(s) =~= seq![s]);
        } else if s[k] == '/' {
            let after = s.subrange(k + 1, s.len() as int);
            assert(s1.subrange(k - 1 + 1, s1.len() as int) =~= after);
            assert(rest == seq![s1.subrange(0, k - 1)].add(path_segments(after)));
            assert(seq![s[0]].add(rest[0]) =~= s.subrange(0, k));
            assert(rest.subrange(1, rest.len() as int) =~= path_segments(after));
            assert(path_segments(s) =~= seq![s.subrange(0, k)].add(path_segments(after)));
        }
    }
}

/// Splits a path into its "/"-delimited segments.
pub fn split_path(s: &str) -> (r: Vec<String>)
    ensures
        r.deep_view() == path_segments(s@),
        r.len() >= 1,
{
    proof {
        lemma_path_segments_nonempty(s@);
    }
    let n = s.unicode_len();
    let mut segs: Vec<String> = Vec::new();
    let mut start: usize = 0;
    let mut i: usize = 0;
    proof {
        assert(s@.subrange(0, n as int) =~= s@);
        assert(segs.deep_view() =~= Seq::<Seq<char>>::empty());
        assert(path_segments(s@) =~= segs.deep_view().add(
            path_segments(s@.subrange(0, n as int)),
        ));
    }
    while i < n
        invariant
            start <= i <= n,
            n == s@.len(),
            path_segments(s@) == segs.deep_view().add(
                path_segments(s@.subrange(start as int, n as int)),
            ),
            forall|j: int| start <= j < i ==> s@[j] != '/',
        decreases n - i,
    {
        if s.get_char(i) == '/' {
            let piece = s.substring_char(start, i);
            let ghost segs0 = segs;
            segs.push(String::from_str(piece));
            proof {
                let tail = s@.subrange(start as int, n as int);
                assert(forall|j: int| 0 <= j < i - start ==> tail[j] != '/');
                lemma_split_at_slash(tail, i - start);
                assert(tail.subrange(0, i - start) =~= s@.subrange(start as int, i as int));
                assert(tail.subrange(i - start + 1, tail.len() as int) =~= s@.subrange(
                    i as int + 1,
                    n as int,
                ));
                assert(segs.deep_view() =~= segs0.deep_view().push(piece@));
                assert(path_segments(s@) =~= segs.deep_view().add(
                    path_segments(s@.subrange(i as int + 1, n as int)),
                ));
            }
            start = i + 1;
        }
        i = i + 1;
    }
    let piece = s.substring_char(start, n);
    let ghost segs0 = segs;
    segs.push(String::from_str(piece));
    proof {
        let tail = s@.subrange(start as int, n as int);
        assert(forall|j: int| 0 <= j < tail.len() ==> tail[j] != '/');
        lemma_split_at_slash(tail, tail.len() as int);
        assert(segs.deep_view() =~= segs0.deep_view().push(piece@));
        assert(path_segments(s@) =~= segs.deep_view());
    }
    segs
}

/// The path that addresses `name` inside the folder at `path`.
pub open spec fn joined_path(path: Seq<char>, name: Seq<char>) -> Seq<char> {
    path.add(seq!['/']).add(name)
}

/// Appends one more segment to a path.
pub fn join_path(path: &str, name: &str) -> (r: String)
    ensures
        r@ == joined_path(path@, name@),
{
    let mut r = String::from_str(path);
    r.append("/");
    r.append(name);
    proof {
        reveal_strlit("/");
        assert("/"@ =~= seq!['/']);
        assert(r@ =~= joined_path(path@, name@));
    }
    r
}

} // verus!
