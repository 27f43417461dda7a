use vstd::prelude::*;

use crate::quote::{QuoteSummary, QuoteView, views, rank, ranks_before_or_with};

verus! {

broadcast use vstd::seq_lib::group_seq_properties, vstd::seq_lib::group_to_multiset_ensures;

/// The predicate "has rank `r`" on summaries.
pub open spec fn rank_is(r: int) -> spec_fn(QuoteView) -> bool {
    |q: QuoteView| rank(q) == r
}

/// Ranks never decrease along `s`.
pub open spec fn sorted_by_rank(s: Seq<QuoteView>) -> bool {
    forall|i: int, j: int| 0 <= i <= j < s.len() ==> rank(s[i]) <= rank(s[j])
}

/// `out` is the stable sort of `input` by rank: it is sorted, and the
/// summaries of each rank appear in `out` in the order they had in `input`.
pub open spec fn stably_ranked(out: Seq<QuoteView>, input: Seq<QuoteView>) -> bool {
    &&& sorted_by_rank(out)
    &&& forall|r: int| #[trigger] out.filter(rank_is(r)) == input.filter(rank_is(r))
}

proof fn lemma_filter_none(s: Seq<QuoteView>, p: spec_fn(QuoteView) -> bool)
    requires
        forall|i: int| 0 <= i < s.len() ==> !p(#[trigger] s[i]),
    ensures
        s.filter(p) == Seq::<QuoteView>::empty(),
    decreases s.len(),
{
    reveal(Seq::filter);
    if s.len() > 0 {
        lemma_filter_none(s.drop_last(), p);
    }
}

proof fn lemma_filter_single(x: QuoteView, p: spec_fn(QuoteView) -> bool)
    ensures
        seq![x].filter(p) == (if p(x) { seq![x] } else { Seq::<QuoteView>::empty() }),
{
    reveal_with_fuel(Seq::filter, 2);
    assert(seq![x].drop_last() =~= Seq::<QuoteView>::empty());
}

/// Inserting `x` after every element of rank at most its own and before every
/// element of greater rank appends `x` to its rank class and leaves the other
/// classes as they were.
proof fn lemma_insert_rank_classes(s: Seq<QuoteView>, pos: int, x: QuoteView, r: int)
    requires
        0 <= pos <= s.len(),
        forall|k: int| 0 <= k < pos ==> rank(#[trigger] s[k]) <= rank(x),
        forall|k: int| pos <= k < s.len() ==> rank(#[trigger] s[k]) > rank(x),
    ensures
        s.insert(pos, x).filter(rank_is(r)) == (if rank(x) == r {
            s.filter(rank_is(r)).push(x)
        } else {
            s.filter(rank_is(r))
        }),
{
    let p = rank_is(r);
    let a = s.take(pos);
    let b = s.skip(pos);
    assert(s =~= a + b);
    assert(s.insert(pos, x) =~= a + seq![x] + b);
    Seq::filter_distributes_over_add(a, b, p);
    Seq::filter_distributes_over_add(a + seq![x], b, p);
    Seq::filter_distributes_over_add(a, seq![x], p);
    lemma_filter_single(x, p);
    if rank(x) == r {
        assert forall|i: int| 0 <= i < b.len() implies !p(#[trigger] b[i]) by {
            assert(b[i] == s[pos + i]);
        }
        lemma_filter_none(b, p);
        assert(a.filter(p) + seq![x] =~= a.filter(p).push(x));
        assert(a.filter(p) + Seq::<QuoteView>::empty() =~= a.filter(p));
        assert(a.filter(p).push(x) + Seq::<QuoteView>::empty() =~= a.filter(p).push(x));
    } else {
        assert(a.filter(p) + Seq::<QuoteView>::empty() =~= a.filter(p));
    }
}

/// Sorts summaries by rank, stably: ascending ownership priority, then
/// descending score, ties keeping their input order.
pub fn sort_by_rank(items: Vec<QuoteSummary>) -> (out: Vec<QuoteSummary>)
    ensures
        stably_ranked(views(out@), views(items@)),
        views(out@).to_multiset() == views(items@).to_multiset(),
{
    let ghost input = views(items@);
    let n: usize = items.len();
    let mut rest = items;
    let mut out: Vec<QuoteSummary> = Vec::new();
    let mut done: usize = 0;
    while rest.len() > 0
        invariant
            input == views(items@),
            input.len() == n,
            done <= input.len(),
            views(rest@) == input.skip(done as int),
            sorted_by_rank(views(out@)),
            forall|r: int| #[trigger] views(out@).filter(rank_is(r)) == input.take(done as int).filter(rank_is(r)),
            views(out@).to_multiset() == input.take(done as int).to_multiset(),
        decreases rest.len(),
    {
        let ghost before = views(out@);
        let ghost old_rest = rest@;
        assert(views(old_rest).len() == input.len() - done);
        let x = rest.remove(0);
        assert(x@ == views(old_rest)[0]);
        assert(x@ == input[done as int]);
        assert(views(rest@) =~= input.skip(done + 1));
        let mut pos: usize = 0;
        while pos < out.len() && ranks_before_or_with(&out[pos], &x)
            invariant
                pos <= out.len(),
                before == views(out@),
                forall|k: int| 0 <= k < pos ==> rank(#[trigger] before[k]) <= rank(x@),
            decreases out.len() - pos,
        {
            pos = pos + 1;
        }
        proof {
            assert forall|k: int| pos <= k < before.len() implies rank(#[trigger] before[k]) > rank(x@) by {
                assert(rank(before[pos as int]) > rank(x@));
            }
        }
        out.insert(pos, x);
        proof {
            let after = views(out@);
            assert(after =~= before.insert(pos as int, x@));
            assert(input.take(done + 1) =~= input.take(done as int).push(x@));
            assert forall|r: int| #[trigger] after.filter(rank_is(r)) == input.take(done + 1).filter(rank_is(r)) by {
                lemma_insert_rank_classes(before, pos as int, x@, r);
                assert(input.take(done + 1) =~= input.take(done as int) + seq![x@]);
                Seq::filter_distributes_over_add(input.take(done as int), seq![x@], rank_is(r));
                lemma_filter_single(x@, rank_is(r));
                assert(input.take(done as int).filter(rank_is(r)) + seq![x@] =~= input.take(done as int).filter(rank_is(r)).push(x@));
                assert(input.take(done as int).filter(rank_is(r)) + Seq::<QuoteView>::empty() =~= input.take(done as int).filter(rank_is(r)));
            }
            assert(after.remove(pos as int) =~= before);
            assert(after.to_multiset() =~= before.to_multiset().insert(x@));
        }
        done = done + 1;
    }
    proof {
        assert(input.take(done as int) =~= input);
    }
    out
}

} // verus!
