//! Facts about filtered sequences.

use vstd::prelude::*;

verus! {

/// Filtering a sequence that grew by one element keeps or drops that element.
pub proof fn lemma_filter_push<A>(s: Seq<A>, x: A, pred: spec_fn(A) -> bool)
    ensures
        s.push(x).filter(pred) == if pred(x) {
            s.filter(pred).push(x)
        } else {
            s.filter(pred)
        },
{
    reveal(Seq::filter);
    assert(s.push(x).drop_last() =~= s);
}

/// Every element of a filtered sequence passes the filter and comes from the
/// sequence that was filtered.
pub proof fn lemma_filter_origin<A>(s: Seq<A>, pred: spec_fn(A) -> bool, i: int)
    requires
        0 <= i < s.filter(pred).len(),
    ensures
        pred(s.filter(pred)[i]),
        exists|j: int| 0 <= j < s.len() && #[trigger] s[j] == s.filter(pred)[i],
    decreases s.len(),
{
    reveal(Seq::filter);
    if s.len() > 0 {
        let sub = s.drop_last().filter(pred);
        if pred(s.last()) && i == sub.len() {
            assert(s[s.len() - 1] == s.filter(pred)[i]);
        } else {
            lemma_filter_origin(s.drop_last(), pred, i);
            let j = choose|j: int|
                0 <= j < s.drop_last().len() && #[trigger] s.drop_last()[j] == sub[i];
            assert(s[j] == s.filter(pred)[i]);
        }
    }
}

/// Every element that passes the filter is found in the filtered sequence.
pub proof fn lemma_filter_keeps<A>(s: Seq<A>, pred: spec_fn(A) -> bool, j: int)
    requires
        0 <= j < s.len(),
        pred(s[j]),
    ensures
        exists|i: int| 0 <= i < s.filter(pred).len() && #[trigger] s.filter(pred)[i] == s[j],
    decreases s.len(),
{
    reveal(Seq::filter);
    let out = s.filter(pred);
    if j == s.len() - 1 {
        assert(out[out.len() - 1] == s[j]);
    } else {
        lemma_filter_keeps(s.drop_last(), pred, j);
        let sub = s.drop_last().filter(pred);
        let i = choose|i: int| 0 <= i < sub.len() && #[trigger] sub[i] == s.drop_last()[j];
        assert(out[i] == s[j]);
    }
}

/// A filter and its complement split a sequence: their lengths add up.
pub proof fn lemma_filter_partition<A>(s: Seq<A>, pred: spec_fn(A) -> bool, neg: spec_fn(A) -> bool)
    requires
        forall|x: A| #[trigger] neg(x) == !pred(x),
    ensures
        s.filter(pred).len() + s.filter(neg).len() == s.len(),
    decreases s.len(),
{
    reveal(Seq::filter);
    if s.len() > 0 {
        lemma_filter_partition(s.drop_last(), pred, neg);
    }
}

/// Two filters that agree on every element select the same subsequence.
pub proof fn lemma_filter_same<A>(s: Seq<A>, p: spec_fn(A) -> bool, q: spec_fn(A) -> bool)
    requires
        forall|i: int| 0 <= i < s.len() ==> p(#[trigger] s[i]) == q(s[i]),
    ensures
        s.filter(p) == s.filter(q),
    decreases s.len(),
{
    reveal(Seq::filter);
    if s.len() > 0 {
        let front = s.drop_last();
        assert forall|i: int| 0 <= i < front.len() implies p(#[trigger] front[i]) == q(
            front[i],
        ) by {
            assert(front[i] == s[i]);
        }
        lemma_filter_same(front, p, q);
        assert(p(s[s.len() - 1]) == q(s[s.len() - 1]));
    }
}

/// A filter that is run in place has come this far: `cur` is what has become
/// of `orig` after its first `i + removed` elements were looked at.  The
/// first `i` elements of `cur` are those that were kept, `removed` elements
/// left, and what follows in `cur` has not been looked at yet.
pub open spec fn filtering<A>(
    orig: Seq<A>,
    cur: Seq<A>,
    keep: spec_fn(A) -> bool,
    i: int,
    removed: int,
) -> bool {
    &&& 0 <= i <= cur.len()
    &&& 0 <= removed
    &&& removed + cur.len() == orig.len()
    &&& cur.take(i) == orig.take(i + removed).filter(keep)
    &&& forall|a: int| i <= a < cur.len() ==> #[trigger] cur[a] == orig[a + removed]
}

/// Before anything was looked at the sequence is as it was.
pub proof fn lemma_filtering_start<A>(orig: Seq<A>, keep: spec_fn(A) -> bool)
    ensures
        filtering(orig, orig, keep, 0, 0),
{
    reveal(Seq::filter);
    assert(orig.take(0) =~= Seq::<A>::empty());
    assert(orig.take(0).filter(keep) =~= orig.take(0));
}

/// One step of a filter in place: the element at `i` is the next of `orig`;
/// if it is kept the filter moves on, and if it is removed the filter stays
/// where it is.
pub proof fn lemma_filtering_step<A>(
    orig: Seq<A>,
    cur: Seq<A>,
    keep: spec_fn(A) -> bool,
    i: int,
    removed: int,
)
    requires
        filtering(orig, cur, keep, i, removed),
        i < cur.len(),
    ensures
        cur[i] == orig[i + removed],
        keep(cur[i]) ==> filtering(orig, cur, keep, i + 1, removed),
        !keep(cur[i]) ==> filtering(orig, cur.remove(i), keep, i, removed + 1),
{
    let k = i + removed;
    assert(cur[i] == orig[k]);
    assert(orig.take(k + 1) =~= orig.take(k).push(orig[k]));
    lemma_filter_push(orig.take(k), orig[k], keep);
    if keep(cur[i]) {
        assert(cur.take(i + 1) =~= cur.take(i).push(cur[i]));
    } else {
        assert(cur.remove(i).take(i) =~= cur.take(i));
    }
}

/// When everything was looked at the sequence is the filtered one.
pub proof fn lemma_filtering_end<A>(
    orig: Seq<A>,
    cur: Seq<A>,
    keep: spec_fn(A) -> bool,
    i: int,
    removed: int,
)
    requires
        filtering(orig, cur, keep, i, removed),
        i == cur.len(),
    ensures
        cur == orig.filter(keep),
{
    assert(cur.take(i) =~= cur);
    assert(orig.take(i + removed) =~= orig);
}

} // verus!
