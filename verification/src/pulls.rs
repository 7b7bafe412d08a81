//! Ordering pull requests by their number of review comments.

use vstd::prelude::*;
use crate::activity::{PullInfo, PullWithComments};

verus! {

/// Most comments first.
pub open spec fn sorted_by_comments(s: Seq<PullWithComments>) -> bool {
    forall|i: int, j: int| 0 <= i < j < s.len() ==> s[i].comments >= s[j].comments
}

/// The pull requests of `s` with `k` comments, in their order in `s`.
pub open spec fn with_comments(s: Seq<PullWithComments>, k: usize) -> Seq<PullWithComments> {
    s.filter(|p: PullWithComments| p.comments == k)
}

proof fn lemma_with_comments_none(s: Seq<PullWithComments>, k: usize)
    requires
        forall|i: int| 0 <= i < s.len() ==> (#[trigger] s[i]).comments != k,
    ensures
        with_comments(s, k) == Seq::<PullWithComments>::empty(),
    decreases s.len(),
{
    reveal(Seq::filter);
    if s.len() > 0 {
        assert forall|i: int| 0 <= i < s.drop_last().len() implies (#[trigger] s.drop_last()[i]).comments != k by {
            assert(s.drop_last()[i] == s[i]);
        }
        lemma_with_comments_none(s.drop_last(), k);
        assert(s[s.len() - 1].comments != k);
    }
}

proof fn lemma_with_comments_add(a: Seq<PullWithComments>, b: Seq<PullWithComments>, k: usize)
    ensures
        with_comments(a + b, k) == with_comments(a, k) + with_comments(b, k),
{
    Seq::filter_distributes_over_add(a, b, |p: PullWithComments| p.comments == k);
}

proof fn lemma_with_comments_single(x: PullWithComments, k: usize)
    ensures
        with_comments(seq![x], k) == (if x.comments == k {
            seq![x]
        } else {
            Seq::<PullWithComments>::empty()
        }),
{
    reveal(Seq::filter);
    assert(seq![x].drop_last() =~= Seq::<PullWithComments>::empty());
    assert(with_comments(Seq::<PullWithComments>::empty(), k) =~= Seq::<PullWithComments>::empty());
    if x.comments == k {
        assert(Seq::<PullWithComments>::empty().push(x) =~= seq![x]);
    }
}

/// Sorts pull requests by their number of review comments, most first; pull requests with
/// as many comments keep their order (a stable sort, as `sort_by_key` on
/// `usize::MAX - comments` does).
pub fn sort_by_comments(pulls: Vec<PullWithComments>) -> (r: Vec<PullWithComments>)
    ensures
        r@.len() == pulls@.len(),
        sorted_by_comments(r@),
        forall|k: usize| #[trigger] with_comments(r@, k) == with_comments(pulls@, k),
{
    let ghost orig = pulls@;
    let mut rest = pulls;
    let mut out: Vec<PullWithComments> = Vec::new();
    proof {
        assert(orig.skip(orig.len() as int) =~= Seq::<PullWithComments>::empty());
        assert forall|k: usize| #[trigger] with_comments(out@, k) == with_comments(orig.skip(rest@.len() as int), k) by {
            lemma_with_comments_none(out@, k);
            lemma_with_comments_none(orig.skip(rest@.len() as int), k);
        }
        assert(orig.take(orig.len() as int) =~= orig);
    }
    while rest.len() > 0
        invariant
            rest@.len() <= orig.len(),
            rest@ == orig.take(rest@.len() as int),
            out@.len() + rest@.len() == orig.len(),
            sorted_by_comments(out@),
            forall|k: usize| #[trigger] with_comments(out@, k) == with_comments(orig.skip(rest@.len() as int), k),
        decreases rest@.len(),
    {
        let ghost m = rest@.len() as int;
        let ghost old_out = out@;
        let x = rest.pop().unwrap();
        assert(x == orig[m - 1]);
        assert(rest@ =~= orig.take(m - 1));
        let mut p: usize = 0;
        while p < out.len() && out[p].comments > x.comments
            invariant
                p <= out@.len(),
                out@ == old_out,
                forall|j: int| 0 <= j < p ==> (#[trigger] out@[j]).comments > x.comments,
            decreases out@.len() - p,
        {
            p = p + 1;
        }
        let ghost xv = x;
        out.insert(p, x);
        proof {
            let a = old_out.take(p as int);
            let b = old_out.skip(p as int);
            assert(out@ =~= a + seq![xv] + b);
            assert(old_out =~= a + b);
            assert(orig.skip(m - 1) =~= seq![xv] + orig.skip(m));
            assert forall|j: int| 0 <= j < b.len() implies (#[trigger] b[j]).comments <= xv.comments by {
                assert(b[j] == old_out[j + p]);
                assert(old_out[p as int].comments <= xv.comments);
            }
            assert forall|i: int, j: int| 0 <= i < j < out@.len() implies out@[i].comments >= out@[j].comments by {
                if j < p {
                } else if j == p {
                    assert(out@[i] == old_out[i]);
                } else if i < p {
                    assert(out@[i] == old_out[i]);
                    assert(out@[j] == old_out[j - 1]);
                    assert(old_out[j - 1] == b[j - 1 - p]);
                } else if i == p {
                    assert(out@[j] == b[j - 1 - p]);
                } else {
                    assert(out@[i] == old_out[i - 1]);
                    assert(out@[j] == old_out[j - 1]);
                }
            }
            assert forall|k: usize| #[trigger] with_comments(out@, k) == with_comments(orig.skip(m - 1), k) by {
                lemma_with_comments_add(a + seq![xv], b, k);
                lemma_with_comments_add(a, seq![xv], k);
                lemma_with_comments_add(a, b, k);
                lemma_with_comments_add(seq![xv], orig.skip(m), k);
                lemma_with_comments_single(xv, k);
                if xv.comments == k {
                    assert forall|j: int| 0 <= j < a.len() implies (#[trigger] a[j]).comments != k by {
                        assert(a[j] == old_out[j]);
                    }
                    lemma_with_comments_none(a, k);
                    assert(with_comments(a, k) + seq![xv] + with_comments(b, k) =~= seq![xv] + (with_comments(a, k) + with_comments(b, k)));
                } else {
                    assert(with_comments(a, k) + Seq::<PullWithComments>::empty() =~= with_comments(a, k));
                    assert(Seq::<PullWithComments>::empty() + with_comments(orig.skip(m), k) =~= with_comments(orig.skip(m), k));
                }
            }
        }
    }
    out
}

/// Pull requests sorted by their number of review comments, most first, ties in listing
/// order.
pub fn get_sorted_merged_pulls(pulls: Vec<PullWithComments>) -> (r: Vec<PullWithComments>)
    ensures
        r@.len() == pulls@.len(),
        sorted_by_comments(r@),
        forall|k: usize| #[trigger] with_comments(r@, k) == with_comments(pulls@, k),
{
    sort_by_comments(pulls)
}

/// Pairs each pull request with its number of review comments.
pub fn with_comment_counts(pulls: Vec<PullInfo>, counts: Vec<usize>) -> (r: Vec<PullWithComments>)
    requires
        counts@.len() == pulls@.len(),
    ensures
        r@.len() == pulls@.len(),
        forall|i: int| 0 <= i < r@.len() ==> (#[trigger] r@[i]).pull == pulls@[i] && r@[i].comments == counts@[i],
{
    let ghost orig = pulls@;
    let mut rest = pulls;
    let mut out: Vec<PullWithComments> = Vec::new();
    let mut i: usize = 0;
    let total = rest.len();
    assert(orig.skip(0) =~= orig);
    while rest.len() > 0
        invariant
            total == orig.len(),
            counts@.len() == orig.len(),
            i <= orig.len(),
            rest@ == orig.skip(i as int),
            out@.len() == i,
            forall|j: int| 0 <= j < i ==> (#[trigger] out@[j]).pull == orig[j] && out@[j].comments == counts@[j],
        decreases rest@.len(),
    {
        let x = rest.remove(0);
        assert(x == orig[i as int]);
        assert(rest@ =~= orig.skip(i + 1));
        out.push(PullWithComments { pull: x, comments: counts[i] });
        i = i + 1;
    }
    out
}

/// Pull requests with no review comments counted.
pub fn without_comments(pulls: Vec<PullInfo>) -> (r: Vec<PullWithComments>)
    ensures
        r@.len() == pulls@.len(),
        forall|i: int| 0 <= i < r@.len() ==> (#[trigger] r@[i]).pull == pulls@[i] && r@[i].comments == 0,
{
    let n = pulls.len();
    let mut zeros: Vec<usize> = Vec::new();
    while zeros.len() < n
        invariant
            zeros@.len() <= n,
            forall|j: int| 0 <= j < zeros@.len() ==> zeros@[j] == 0,
        decreases n - zeros@.len(),
    {
        zeros.push(0);
    }
    with_comment_counts(pulls, zeros)
}

/// Sorting pull requests that all have as many comments keeps them in their order.
pub proof fn law_sort_keeps_order_of_ties(pulls: Seq<PullWithComments>, sorted: Seq<PullWithComments>, k: usize)
    requires
        forall|i: int| 0 <= i < pulls.len() ==> (#[trigger] pulls[i]).comments == k,
        sorted.len() == pulls.len(),
        forall|c: usize| #[trigger] with_comments(sorted, c) == with_comments(pulls, c),
    ensures
        sorted == pulls,
{
    lemma_with_comments_all(pulls, k);
    assert(with_comments(sorted, k) == with_comments(pulls, k));
    lemma_with_comments_sub(sorted, k);
}

proof fn lemma_with_comments_all(s: Seq<PullWithComments>, k: usize)
    requires
        forall|i: int| 0 <= i < s.len() ==> (#[trigger] s[i]).comments == k,
    ensures
        with_comments(s, k) == s,
    decreases s.len(),
{
    reveal(Seq::filter);
    if s.len() > 0 {
        assert forall|i: int| 0 <= i < s.drop_last().len() implies (#[trigger] s.drop_last()[i]).comments == k by {
            assert(s.drop_last()[i] == s[i]);
        }
        lemma_with_comments_all(s.drop_last(), k);
        assert(s[s.len() - 1].comments == k);
        assert(s.drop_last().push(s.last()) =~= s);
    }
}

proof fn lemma_with_comments_sub(s: Seq<PullWithComments>, k: usize)
    requires
        with_comments(s, k).len() == s.len(),
    ensures
        with_comments(s, k) == s,
    decreases s.len(),
{
    reveal(Seq::filter);
    if s.len() > 0 {
        s.drop_last().lemma_filter_len(|p: PullWithComments| p.comments == k);
        if s.last().comments != k {
            assert(with_comments(s, k) == with_comments(s.drop_last(), k));
            assert(false);
        }
        lemma_with_comments_sub(s.drop_last(), k);
        assert(s.drop_last().push(s.last()) =~= s);
    }
}

proof fn lemma_sorted_unique(a: Seq<PullWithComments>, b: Seq<PullWithComments>)
    requires
        a.len() == b.len(),
        sorted_by_comments(a),
        sorted_by_comments(b),
        forall|k: usize| #[trigger] with_comments(a, k) == with_comments(b, k),
    ensures
        a == b,
    decreases a.len(),
{
    reveal(Seq::filter);
    if a.len() > 0 {
        let x = a.last();
        let y = b.last();
        if x.comments < y.comments {
            assert forall|i: int| 0 <= i < b.len() implies (#[trigger] b[i]).comments != x.comments by {
                if i < b.len() - 1 {
                    assert(b[i].comments >= b[b.len() - 1].comments);
                }
            }
            lemma_with_comments_none(b, x.comments);
            assert(with_comments(a, x.comments) == with_comments(a.drop_last(), x.comments).push(x));
            assert(with_comments(a, x.comments).len() > 0);
            assert(with_comments(a, x.comments) == with_comments(b, x.comments));
            assert(false);
        }
        if y.comments < x.comments {
            assert forall|i: int| 0 <= i < a.len() implies (#[trigger] a[i]).comments != y.comments by {
                if i < a.len() - 1 {
                    assert(a[i].comments >= a[a.len() - 1].comments);
                }
            }
            lemma_with_comments_none(a, y.comments);
            assert(with_comments(b, y.comments) == with_comments(b.drop_last(), y.comments).push(y));
            assert(with_comments(b, y.comments).len() > 0);
            assert(with_comments(a, y.comments) == with_comments(b, y.comments));
            assert(false);
        }
        assert(with_comments(a, x.comments) == with_comments(a.drop_last(), x.comments).push(x));
        assert(with_comments(b, x.comments) == with_comments(b.drop_last(), x.comments).push(y));
        assert(with_comments(a, x.comments) == with_comments(b, x.comments));
        assert(x == with_comments(a, x.comments).last());
        assert(y == with_comments(b, x.comments).last());
        assert forall|k: usize| #[trigger] with_comments(a.drop_last(), k) == with_comments(b.drop_last(), k) by {
            assert(with_comments(a, k) == with_comments(b, k));
            if k == x.comments {
                assert(with_comments(a, k).drop_last() =~= with_comments(a.drop_last(), k));
                assert(with_comments(b, k).drop_last() =~= with_comments(b.drop_last(), k));
            } else {
                assert(with_comments(a, k) == with_comments(a.drop_last(), k));
                assert(with_comments(b, k) == with_comments(b.drop_last(), k));
            }
        }
        lemma_sorted_unique(a.drop_last(), b.drop_last());
        assert(a =~= a.drop_last().push(x));
        assert(b =~= b.drop_last().push(y));
    }
}

/// The order of `sort_by_comments` is determined: two orderings of the same pull requests
/// that both put most comments first and keep ties in order are the same. So sorting
/// twice gives what sorting once gives.
pub proof fn law_sorted_order_is_unique(
    pulls: Seq<PullWithComments>,
    a: Seq<PullWithComments>,
    b: Seq<PullWithComments>,
)
    requires
        a.len() == pulls.len(),
        b.len() == pulls.len(),
        sorted_by_comments(a),
        sorted_by_comments(b),
        forall|k: usize| #[trigger] with_comments(a, k) == with_comments(pulls, k),
        forall|k: usize| #[trigger] with_comments(b, k) == with_comments(pulls, k),
    ensures
        a == b,
{
    assert forall|k: usize| #[trigger] with_comments(a, k) == with_comments(b, k) by {
        assert(with_comments(a, k) == with_comments(pulls, k));
        assert(with_comments(b, k) == with_comments(pulls, k));
    }
    lemma_sorted_unique(a, b);
}

} // verus!
