use vstd::prelude::*;

use crate::ownership::priority;
use crate::quote::{Activity, Asset, QuoteView, rank, score_order_key, total_order_lt};
use crate::ranking::{rank_is, sorted_by_rank, stably_ranked};
use crate::query::{asset_matches, has_substring, occurs_at, owned_in, owned_in_any, text_lower};
use crate::search::{
    activity_assets, added_results, merged_results, ownership_of, symbols_of,
};

verus! {

broadcast use vstd::seq_lib::group_seq_properties;

/// In ranked results, currently owned entries come before previously owned
/// ones, which come before the rest; within one ownership status, entries
/// with higher scores (in the total order of doubles) come first.
pub proof fn ranked_results_order(out: Seq<QuoteView>, input: Seq<QuoteView>)
    requires
        stably_ranked(out, input),
    ensures
        forall|i: int, j: int|
            0 <= i <= j < out.len() ==> priority(#[trigger] out[i].ownership_status) <= priority(
                #[trigger] out[j].ownership_status,
            ),
        forall|i: int, j: int|
            0 <= i <= j < out.len() && priority(#[trigger] out[i].ownership_status) == priority(
                #[trigger] out[j].ownership_status,
            ) ==> score_order_key(out[i].score) >= score_order_key(out[j].score),
        forall|i: int, j: int|
            0 <= i <= j < out.len() && priority(#[trigger] out[i].ownership_status) == priority(
                #[trigger] out[j].ownership_status,
            ) ==> !total_order_lt(out[i].score, out[j].score),
{
    assert forall|i: int, j: int|
        0 <= i <= j < out.len() && priority(#[trigger] out[i].ownership_status) == priority(
            #[trigger] out[j].ownership_status,
        ) implies !total_order_lt(out[i].score, out[j].score) by {
        assert(rank(out[i]) <= rank(out[j]));
        score_key_follows_total_order(out[i].score, out[j].score);
    }
    assert forall|i: int, j: int| 0 <= i <= j < out.len() implies priority(
        #[trigger] out[i].ownership_status,
    ) <= priority(#[trigger] out[j].ownership_status) by {
        assert(rank(out[i]) <= rank(out[j]));
    }
}

proof fn lemma_filter_last(s: Seq<QuoteView>, r: int)
    requires
        s.len() > 0,
    ensures
        s.filter(rank_is(r)) == (if rank(s.last()) == r {
            s.drop_last().filter(rank_is(r)).push(s.last())
        } else {
            s.drop_last().filter(rank_is(r))
        }),
{
    reveal_with_fuel(Seq::filter, 1);
}

proof fn lemma_filter_of_higher_rank_empty(s: Seq<QuoteView>, r: int)
    requires
        forall|i: int| 0 <= i < s.len() ==> rank(#[trigger] s[i]) < r,
    ensures
        s.filter(rank_is(r)).len() == 0,
    decreases s.len(),
{
    reveal_with_fuel(Seq::filter, 1);
    if s.len() > 0 {
        lemma_filter_of_higher_rank_empty(s.drop_last(), r);
    }
}

/// The ranking of a list is determined by the list: two rankings of the same
/// entries are equal.
pub proof fn ranking_is_unique(a: Seq<QuoteView>, b: Seq<QuoteView>, input: Seq<QuoteView>)
    requires
        stably_ranked(a, input),
        stably_ranked(b, input),
    ensures
        a == b,
    decreases a.len() + b.len(),
{
    if a.len() == 0 && b.len() == 0 {
        assert(a =~= b);
        return;
    }
    if a.len() == 0 || (b.len() > 0 && rank(a.last()) < rank(b.last())) {
        // the last entry of b has a rank that a lacks
        let r = rank(b.last());
        assert forall|i: int| 0 <= i < a.len() implies rank(#[trigger] a[i]) < r by {
            assert(rank(a[i]) <= rank(a.last()));
        }
        lemma_filter_of_higher_rank_empty(a, r);
        lemma_filter_last(b, r);
        assert(b.filter(rank_is(r)) == input.filter(rank_is(r)));
        assert(false);
    }
    if b.len() == 0 || rank(b.last()) < rank(a.last()) {
        let r = rank(a.last());
        assert forall|i: int| 0 <= i < b.len() implies rank(#[trigger] b[i]) < r by {
            assert(rank(b[i]) <= rank(b.last()));
        }
        lemma_filter_of_higher_rank_empty(b, r);
        lemma_filter_last(a, r);
        assert(a.filter(rank_is(r)) == input.filter(rank_is(r)));
        assert(false);
    }
    let top = rank(a.last());
    lemma_filter_last(a, top);
    lemma_filter_last(b, top);
    assert(a.filter(rank_is(top)) == input.filter(rank_is(top)));
    assert(b.filter(rank_is(top)) == input.filter(rank_is(top)));
    assert(a.last() == a.filter(rank_is(top)).last());
    assert(b.last() == b.filter(rank_is(top)).last());
    // both shortened lists rank the same shortened input
    let shorter = a.drop_last();
    assert forall|r: int| #[trigger] b.drop_last().filter(rank_is(r)) == shorter.filter(rank_is(r)) by {
        lemma_filter_last(a, r);
        lemma_filter_last(b, r);
        assert(a.filter(rank_is(r)) == input.filter(rank_is(r)));
        assert(b.filter(rank_is(r)) == input.filter(rank_is(r)));
        if r == top {
            assert(a.drop_last().filter(rank_is(r)) =~= a.filter(rank_is(r)).drop_last());
            assert(b.drop_last().filter(rank_is(r)) =~= b.filter(rank_is(r)).drop_last());
        }
    }
    assert(sorted_by_rank(shorter));
    assert(sorted_by_rank(b.drop_last()));
    ranking_is_unique(shorter, b.drop_last(), shorter);
    assert(a =~= shorter.push(a.last()));
    assert(b =~= b.drop_last().push(b.last()));
}

/// Ranking a list that is already ranked leaves it as it is.
pub proof fn ranking_ranked_list_is_identity(out: Seq<QuoteView>, input: Seq<QuoteView>)
    requires
        sorted_by_rank(input),
        stably_ranked(out, input),
    ensures
        out == input,
{
    assert(stably_ranked(input, input));
    ranking_is_unique(out, input, input);
}

/// Without local assets, enrichment changes nothing before ranking.
pub proof fn enrich_without_assets_only_ranks(
    results: Seq<QuoteView>,
    current: Map<Seq<char>, crate::ownership::OwnershipStatus>,
    previous: Set<Seq<char>>,
)
    ensures
        merged_results(results, Seq::<Asset>::empty(), current, previous) == results,
{
    reveal_with_fuel(Seq::filter, 1);
    let merged = merged_results(results, Seq::<Asset>::empty(), current, previous);
    assert(merged =~= results);
}

/// Entries added for local assets never repeat a symbol that the providers
/// returned.
pub proof fn added_symbols_are_new(
    results: Seq<QuoteView>,
    assets: Seq<Asset>,
    current: Map<Seq<char>, crate::ownership::OwnershipStatus>,
    previous: Set<Seq<char>>,
)
    ensures
        forall|i: int|
            0 <= i < added_results(results, assets, current, previous).len() ==> !symbols_of(
                results,
            ).contains(#[trigger] added_results(results, assets, current, previous)[i].symbol),
{
    broadcast use vstd::seq_lib::group_filter_ensures;

    let p = crate::search::not_among(results);
    let kept = assets.filter(p);
    assert forall|i: int| 0 <= i < kept.len() implies p(#[trigger] kept[i]) by {
        assets.lemma_filter_pred(p, i);
    }
}

/// Every local asset's symbol is among the enriched results, on an entry
/// that carries that symbol's ownership.
pub proof fn every_asset_is_listed(
    results: Seq<QuoteView>,
    assets: Seq<Asset>,
    current: Map<Seq<char>, crate::ownership::OwnershipStatus>,
    previous: Set<Seq<char>>,
    k: int,
)
    requires
        0 <= k < assets.len(),
    ensures
        exists|i: int|
            0 <= i < merged_results(results, assets, current, previous).len() && (
            #[trigger] merged_results(results, assets, current, previous)[i]).symbol
                == assets[k].symbol@ && merged_results(results, assets, current, previous)[i].ownership_status
                == ownership_of(assets[k].symbol@, current, previous),
{
    let merged = merged_results(results, assets, current, previous);
    let upd = crate::search::updated_results(results, assets, current, previous);
    let s = assets[k].symbol@;
    let syms = results.map_values(|q: QuoteView| q.symbol);
    assert(assets.map_values(|x: Asset| x.symbol@)[k] == s);
    if symbols_of(results).contains(s) {
        assert(syms.contains(s));
        let t0 = choose|t: int| 0 <= t < syms.len() && syms[t] == s;
        // the first result with that symbol
        let t = first_index(results, s, t0);
        assert(merged[t] == upd[t]);
    } else {
        let p = crate::search::not_among(results);
        broadcast use vstd::seq_lib::group_filter_ensures;
        assert(p(assets[k]));
        assets.lemma_filter_contains(p, k);
        let kept = assets.filter(p);
        let j = choose|j: int| 0 <= j < kept.len() && kept[j] == assets[k];
        assert(merged[upd.len() + j] == added_results(results, assets, current, previous)[j]);
    }
}

proof fn first_index(results: Seq<QuoteView>, s: Seq<char>, t: int) -> (f: int)
    requires
        0 <= t < results.len(),
        results[t].symbol == s,
    ensures
        0 <= f <= t,
        results[f].symbol == s,
        crate::search::first_with_symbol(results, f),
    decreases t,
{
    if exists|j: int| 0 <= j < t && results[j].symbol == s {
        let j = choose|j: int| 0 <= j < t && results[j].symbol == s;
        first_index(results, s, j)
    } else {
        t
    }
}

/// The previously owned symbols are at most as many as the activities.
pub proof fn previously_owned_at_most_activities(activities: Seq<Activity>)
    ensures
        activity_assets(activities).len() <= activities.len(),
{
    activities.map_values(|a: Activity| a.asset_id@).lemma_cardinality_of_set();
}

/// The score key orders bit patterns exactly as the IEEE-754 total order
/// orders the doubles, and distinct patterns get distinct keys.
pub proof fn score_key_follows_total_order(a: u64, b: u64)
    ensures
        (score_order_key(a) < score_order_key(b)) == total_order_lt(a, b),
        (score_order_key(a) == score_order_key(b)) == (a == b),
{
}

/// The previously owned symbols are exactly the asset ids of the
/// activities: every activity's asset is among them, whatever its account,
/// and each of them is some activity's asset.
pub proof fn previously_owned_are_the_activity_assets(activities: Seq<Activity>)
    ensures
        forall|i: int| 0 <= i < activities.len() ==> activity_assets(activities).contains(
            #[trigger] activities[i].asset_id@,
        ),
        forall|s: Seq<char>| #[trigger] activity_assets(activities).contains(s) ==> exists|i: int|
            0 <= i < activities.len() && #[trigger] activities[i].asset_id@ == s,
{
    let ids = activities.map_values(|a: Activity| a.asset_id@);
    assert forall|i: int| 0 <= i < activities.len() implies activity_assets(activities).contains(
        #[trigger] activities[i].asset_id@,
    ) by {
        assert(ids[i] == activities[i].asset_id@);
        assert(ids.contains(ids[i]));
    }
    assert forall|s: Seq<char>| #[trigger] activity_assets(activities).contains(s) implies exists|i: int|
        0 <= i < activities.len() && #[trigger] activities[i].asset_id@ == s by {
        assert(ids.contains(s));
        let i = choose|i: int| 0 <= i < ids.len() && ids[i] == s;
        assert(activities[i].asset_id@ == s);
    }
}

/// Aggregating account reports keeps every entry that any account reports as
/// currently owned, whatever the other entries of its report are, and keeps
/// nothing that no account reports as currently owned.
pub proof fn aggregate_keeps_every_currently_owned_entry(reports: Seq<Vec<(String, crate::ownership::OwnershipStatus)>>)
    ensures
        forall|a: int, e: int|
            0 <= a < reports.len() && 0 <= e < reports[a]@.len() && (#[trigger] reports[a]@[e]).1
                == crate::ownership::OwnershipStatus::CurrentlyOwned ==> owned_in_any(reports).contains(
                reports[a]@[e].0@,
            ),
        forall|k: Seq<char>| #[trigger] owned_in_any(reports).contains(k) ==> exists|a: int, e: int|
            0 <= a < reports.len() && 0 <= e < reports[a]@.len() && (#[trigger] reports[a]@[e]).0@ == k
                && reports[a]@[e].1 == crate::ownership::OwnershipStatus::CurrentlyOwned,
{
    assert forall|a: int, e: int|
        0 <= a < reports.len() && 0 <= e < reports[a]@.len() && (#[trigger] reports[a]@[e]).1
            == crate::ownership::OwnershipStatus::CurrentlyOwned implies owned_in_any(reports).contains(
        reports[a]@[e].0@,
    ) by {
        assert(owned_in(reports[a]@).contains(reports[a]@[e].0@));
    }
    assert forall|k: Seq<char>| #[trigger] owned_in_any(reports).contains(k) implies exists|a: int, e: int|
        0 <= a < reports.len() && 0 <= e < reports[a]@.len() && (#[trigger] reports[a]@[e]).0@ == k
            && reports[a]@[e].1 == crate::ownership::OwnershipStatus::CurrentlyOwned by {
        let a = choose|a: int| 0 <= a < reports.len() && #[trigger] owned_in(reports[a]@).contains(k);
        let e = choose|e: int|
            0 <= e < reports[a]@.len() && #[trigger] reports[a]@[e].0@ == k && reports[a]@[e].1
                == crate::ownership::OwnershipStatus::CurrentlyOwned;
        assert(reports[a]@[e].0@ == k);
    }
}

/// Lowering the case of ASCII texts keeps their length and keeps every
/// occurrence: if `t` occurs in `s` at some position, the lowercase form of
/// `t` occurs in the lowercase form of `s` at that same position.
pub proof fn lowering_keeps_occurrences(s: Seq<char>, t: Seq<char>, at: int)
    requires
        vstd::utf8::is_ascii_chars(s),
        vstd::utf8::is_ascii_chars(t),
        occurs_at(s, t, at),
    ensures
        text_lower(s).len() == s.len(),
        occurs_at(text_lower(s), text_lower(t), at),
        has_substring(text_lower(s), text_lower(t)),
{
    let ls = text_lower(s);
    let lt = text_lower(t);
    assert(ls.subrange(at, at + lt.len()) =~= lt) by {
        assert forall|k: int| 0 <= k < lt.len() implies ls.subrange(at, at + lt.len())[k] == lt[k] by {
            assert(s.subrange(at, at + t.len())[k] == t[k]);
        }
    }
    assert(occurs_at(ls, lt, at));
}

/// Lowering the case of an ASCII text leaves no ASCII capital letter and
/// changes no character other than the capital letters.
pub proof fn lowering_ascii_leaves_no_capitals(s: Seq<char>)
    requires
        vstd::utf8::is_ascii_chars(s),
    ensures
        text_lower(s).len() == s.len(),
        forall|i: int| 0 <= i < s.len() ==> !('A' <= #[trigger] text_lower(s)[i] <= 'Z'),
        forall|i: int| 0 <= i < s.len() && !('A' <= #[trigger] s[i] <= 'Z') ==> text_lower(s)[i] == s[i],
{
    assert forall|i: int| 0 <= i < s.len() implies !('A' <= #[trigger] text_lower(s)[i] <= 'Z') by {
        let c = s[i];
        if 'A' <= c <= 'Z' {
            assert((c as u32) + 32 >= 97);
            assert((((c as u32) + 32) as char) as u32 == (c as u32) + 32);
        }
    }
}

/// An asset whose ASCII name contains an ASCII query matches that query,
/// whatever the case of either.
pub proof fn name_containing_query_matches(a: Asset, query: Seq<char>)
    requires
        a.name is Some,
        vstd::utf8::is_ascii_chars(a.name->0@),
        vstd::utf8::is_ascii_chars(query),
        has_substring(a.name->0@, query),
    ensures
        asset_matches(a, text_lower(query)),
{
    let n = a.name->0@;
    let at = choose|at: int| occurs_at(n, query, at);
    lowering_keeps_occurrences(n, query, at);
}

} // verus!
