use vstd::prelude::*;

use crate::ownership::OwnershipStatus;
use crate::quote::{Activity, Asset, QuoteSummary, QuoteView, asset_quote, views};
use crate::ranking::{sort_by_rank, stably_ranked};
use crate::symbols::{OwnershipMap, SymbolSet};

verus! {

broadcast use vstd::seq_lib::group_seq_properties;

/// Bit pattern of the score given to local assets that the providers did not
/// return: the double 1000.0, above any provider's relevance score.
pub const LOCAL_ASSET_SCORE: u64 = 0x408F_4000_0000_0000;

/// The ownership of `symbol`: currently owned if it is a key of `current`,
/// else previously owned if it is in `previous`, else not owned.
pub open spec fn ownership_of(
    symbol: Seq<char>,
    current: Map<Seq<char>, OwnershipStatus>,
    previous: Set<Seq<char>>,
) -> OwnershipStatus {
    if current.dom().contains(symbol) {
        OwnershipStatus::CurrentlyOwned
    } else if previous.contains(symbol) {
        OwnershipStatus::PreviouslyOwned
    } else {
        OwnershipStatus::NotOwned
    }
}

/// Computes `ownership_of`.
pub fn classify_ownership(
    symbol: &String,
    currently_owned: &OwnershipMap,
    previously_owned: &SymbolSet,
) -> (s: OwnershipStatus)
    ensures
        s == ownership_of(symbol@, currently_owned@, previously_owned@),
{
    if currently_owned.contains_key_string(symbol) {
        OwnershipStatus::CurrentlyOwned
    } else if previously_owned.contains_string(symbol) {
        OwnershipStatus::PreviouslyOwned
    } else {
        OwnershipStatus::NotOwned
    }
}

/// The symbols of a list of search entries.
pub open spec fn symbols_of(s: Seq<QuoteView>) -> Set<Seq<char>> {
    s.map_values(|q: QuoteView| q.symbol).to_set()
}

/// The symbols of a list of assets.
pub open spec fn asset_symbols(a: Seq<Asset>) -> Set<Seq<char>> {
    a.map_values(|x: Asset| x.symbol@).to_set()
}

/// No entry before position `i` has the symbol of entry `i`.
pub open spec fn first_with_symbol(s: Seq<QuoteView>, i: int) -> bool {
    forall|j: int| 0 <= j < i ==> s[j].symbol != s[i].symbol
}

/// `q` with its ownership status replaced.
pub open spec fn with_status(q: QuoteView, status: OwnershipStatus) -> QuoteView {
    QuoteView { ownership_status: status, ..q }
}

/// The provider results after the local assets were matched against them:
/// the first result of each symbol that some asset has gets that symbol's
/// ownership; every other result is unchanged.
pub open spec fn updated_results(
    results: Seq<QuoteView>,
    assets: Seq<Asset>,
    current: Map<Seq<char>, OwnershipStatus>,
    previous: Set<Seq<char>>,
) -> Seq<QuoteView> {
    Seq::new(
        results.len(),
        |i: int|
            if asset_symbols(assets).contains(results[i].symbol) && first_with_symbol(results, i) {
                with_status(results[i], ownership_of(results[i].symbol, current, previous))
            } else {
                results[i]
            },
    )
}

/// Whether an asset's symbol is absent from the provider results.
pub open spec fn not_among(results: Seq<QuoteView>) -> spec_fn(Asset) -> bool {
    |a: Asset| !symbols_of(results).contains(a.symbol@)
}

/// The entries added for local assets whose symbol the providers did not
/// return, in asset order, each scored `LOCAL_ASSET_SCORE`.
pub open spec fn added_results(
    results: Seq<QuoteView>,
    assets: Seq<Asset>,
    current: Map<Seq<char>, OwnershipStatus>,
    previous: Set<Seq<char>>,
) -> Seq<QuoteView> {
    assets.filter(not_among(results)).map_values(
        |a: Asset| asset_quote(a, LOCAL_ASSET_SCORE, ownership_of(a.symbol@, current, previous)),
    )
}

/// The enriched results before ranking: the updated provider results
/// followed by the added local entries.
pub open spec fn merged_results(
    results: Seq<QuoteView>,
    assets: Seq<Asset>,
    current: Map<Seq<char>, OwnershipStatus>,
    previous: Set<Seq<char>>,
) -> Seq<QuoteView> {
    updated_results(results, assets, current, previous) + added_results(results, assets, current, previous)
}

proof fn lemma_filter_push(s: Seq<Asset>, x: Asset, p: spec_fn(Asset) -> bool)
    ensures
        s.push(x).filter(p) == (if p(x) { s.filter(p).push(x) } else { s.filter(p) }),
{
    reveal_with_fuel(Seq::filter, 1);
    assert(s.push(x).drop_last() =~= s);
}

/// Enriches provider search results with ownership and adds the local assets
/// that the providers did not return, then ranks everything: currently owned
/// first, then previously owned, then the rest, each group by descending
/// score, ties in their earlier order.
pub fn enrich_search_results_with_ownership(
    results: Vec<QuoteSummary>,
    owned_assets: Vec<Asset>,
    currently_owned: &OwnershipMap,
    previously_owned: &SymbolSet,
) -> (out: Vec<QuoteSummary>)
    ensures
        stably_ranked(
            views(out@),
            merged_results(views(results@), owned_assets@, currently_owned@, previously_owned@),
        ),
        views(out@).to_multiset() == merged_results(
            views(results@),
            owned_assets@,
            currently_owned@,
            previously_owned@,
        ).to_multiset(),
        forall|i: int|
            0 <= i < out@.len() && !symbols_of(views(results@)).contains(#[trigger] views(out@)[i].symbol)
                ==> views(out@)[i].score == LOCAL_ASSET_SCORE && views(out@)[i].ownership_status
                == ownership_of(views(out@)[i].symbol, currently_owned@, previously_owned@),
{
    let ghost orig = views(results@);
    let ghost cur = currently_owned@;
    let ghost prev = previously_owned@;
    let n_external: usize = results.len();
    let mut external_symbols = SymbolSet::new();
    let mut k: usize = 0;
    while k < results.len()
        invariant
            k <= results@.len(),
            orig == views(results@),
            external_symbols@ == orig.take(k as int).map_values(|q: QuoteView| q.symbol).to_set(),
        decreases results@.len() - k,
    {
        let ghost before = external_symbols@;
        external_symbols.insert(results[k].symbol.clone());
        assert(orig.take(k + 1).map_values(|q: QuoteView| q.symbol) =~= orig.take(k as int).map_values(
            |q: QuoteView| q.symbol,
        ).push(orig[k as int].symbol));
        k = k + 1;
    }
    assert(orig.take(k as int) =~= orig);
    let mut results = results;
    let mut i: usize = 0;
    while i < owned_assets.len()
        invariant
            i <= owned_assets@.len(),
            n_external == orig.len(),
            external_symbols@ == symbols_of(orig),
            cur == currently_owned@,
            prev == previously_owned@,
            views(results@) == updated_results(orig, owned_assets@.take(i as int), cur, prev)
                + added_results(orig, owned_assets@.take(i as int), cur, prev),
        decreases owned_assets@.len() - i,
    {
        let asset = &owned_assets[i];
        let ghost done = owned_assets@.take(i as int);
        let ghost upd = updated_results(orig, done, cur, prev);
        let ghost add = added_results(orig, done, cur, prev);
        let ghost s = asset.symbol@;
        let ghost next = owned_assets@.take(i + 1);
        assert(next =~= done.push(*asset));
        proof {
            assert(next.map_values(|x: Asset| x.symbol@) =~= done.map_values(|x: Asset| x.symbol@).push(s));
            assert(asset_symbols(next) =~= asset_symbols(done).insert(s));
            lemma_filter_push(done, *asset, not_among(orig));
        }
        let ownership = classify_ownership(&asset.symbol, currently_owned, previously_owned);
        if external_symbols.contains_string(&asset.symbol) {
            proof {
                assert(added_results(orig, next, cur, prev) == add);
            }
            proof {
                let syms = orig.map_values(|q: QuoteView| q.symbol);
                assert(syms.to_set().contains(s));
                assert(syms.contains(s));
                let t = choose|t: int| 0 <= t < syms.len() && syms[t] == s;
                assert(orig[t].symbol == s);
            }
            let ghost witness = choose|t: int| 0 <= t < orig.len() && #[trigger] orig[t].symbol == s;
            let mut j: usize = 0;
            let mut found = false;
            while !found && j < results.len()
                invariant
                    j <= results@.len(),
                    found ==> j < results@.len() && views(results@)[j as int].symbol == s,
                    views(results@) == upd + add,
                    upd.len() == orig.len(),
                    0 <= witness < orig.len(),
                    orig[witness].symbol == s,
                    s == asset.symbol@,
                    forall|t: int| 0 <= t < j ==> views(results@)[t].symbol != s,
                    forall|t: int| 0 <= t < orig.len() ==> #[trigger] upd[t].symbol == orig[t].symbol,
                decreases results@.len() - j, if found { 0int } else { 1int },
            {
                if results[j].symbol == asset.symbol {
                    found = true;
                } else {
                    j = j + 1;
                }
            }
            proof {
                assert(upd[witness].symbol == s);
                assert(views(results@)[witness] == upd[witness]);
                assert(views(results@).len() == results@.len());
                assert(witness < results@.len());
                assert(views(results@)[witness].symbol == s);
                assert(j <= witness);
                assert(found);
                assert(views(results@)[j as int].symbol == s);
                assert(views(results@)[j as int] == upd[j as int]);
                assert(upd[j as int].symbol == orig[j as int].symbol);
                assert(orig[j as int].symbol == s);
                assert forall|t: int| 0 <= t < j implies orig[t].symbol != orig[j as int].symbol by {
                    assert(views(results@)[t] == upd[t]);
                    assert(upd[t].symbol == orig[t].symbol);
                }
                assert(first_with_symbol(orig, j as int));
            }
            let ghost scanned = views(results@);
            let mut q = results.remove(j);
            q.ownership_status = ownership;
            results.insert(j, q);
            proof {
                let new_upd = updated_results(orig, next, cur, prev);
                assert forall|t: int| 0 <= t < orig.len() implies #[trigger] new_upd[t] == (if t == j {
                    with_status(orig[t], ownership)
                } else {
                    upd[t]
                }) by {
                    if t != j && orig[t].symbol == s && first_with_symbol(orig, t) {
                        if t < j {
                            assert(orig[t].symbol == orig[j as int].symbol);
                        } else {
                            assert(orig[j as int].symbol == orig[t].symbol);
                        }
                    }
                }
                assert(views(results@)[j as int] == with_status(scanned[j as int], ownership));
                assert(views(results@)[j as int] == with_status(orig[j as int], ownership));
                assert(views(results@) =~= scanned.update(j as int, with_status(orig[j as int], ownership)));
                assert(views(results@) =~= new_upd + add);
            }
        } else {
            proof {
                assert(!symbols_of(orig).contains(s));
                let new_upd = updated_results(orig, next, cur, prev);
                assert forall|t: int| 0 <= t < orig.len() implies #[trigger] new_upd[t] == upd[t] by {
                    if orig[t].symbol == s {
                        assert(orig.map_values(|q: QuoteView| q.symbol)[t] == s);
                    }
                }
                assert(new_upd =~= upd);
            }
            let q = QuoteSummary::from_asset(asset, LOCAL_ASSET_SCORE, ownership);
            let ghost before = results@;
            results.push(q);
            proof {
                assert(views(results@) =~= views(before).push(q@));
                assert(added_results(orig, next, cur, prev) =~= add.push(q@));
                assert(views(results@) =~= updated_results(orig, next, cur, prev) + added_results(orig, next, cur, prev));
            }
        }
        i = i + 1;
    }
    assert(owned_assets@.take(i as int) =~= owned_assets@);
    let ghost merged = views(results@);
    let out = sort_by_rank(results);
    proof {
        let vo = views(out@);
        assert forall|t: int|
            0 <= t < out@.len() && !symbols_of(orig).contains(#[trigger] vo[t].symbol) implies vo[t].score
            == LOCAL_ASSET_SCORE && vo[t].ownership_status == ownership_of(vo[t].symbol, cur, prev) by {
            let x = vo[t];
            assert(vo.contains(x));
            assert(merged.to_multiset().count(x) > 0);
            assert(merged.contains(x));
            let m = choose|m: int| 0 <= m < merged.len() && merged[m] == x;
            let upd = updated_results(orig, owned_assets@, cur, prev);
            if m < upd.len() {
                assert(orig.map_values(|q: QuoteView| q.symbol)[m] == orig[m].symbol);
                assert(symbols_of(orig).contains(x.symbol));
            } else {
                added_entries_carry_local_score(orig, owned_assets@, cur, prev);
                assert(merged[m] == added_results(orig, owned_assets@, cur, prev)[m - upd.len()]);
            }
        }
    }
    out
}

/// Every entry added for a local asset carries the local score and its
/// symbol's ownership.
pub proof fn added_entries_carry_local_score(
    results: Seq<QuoteView>,
    assets: Seq<Asset>,
    current: Map<Seq<char>, OwnershipStatus>,
    previous: Set<Seq<char>>,
)
    ensures
        forall|i: int|
            0 <= i < added_results(results, assets, current, previous).len() ==> (#[trigger] added_results(
                results,
                assets,
                current,
                previous,
            )[i]).score == LOCAL_ASSET_SCORE && added_results(results, assets, current, previous)[i].ownership_status
                == ownership_of(added_results(results, assets, current, previous)[i].symbol, current, previous),
{
}

/// The set of asset ids that occur in a list of activities.
pub open spec fn activity_assets(activities: Seq<Activity>) -> Set<Seq<char>> {
    activities.map_values(|a: Activity| a.asset_id@).to_set()
}

/// The symbols that were ever involved in an activity, in any account.
pub fn get_previously_owned_from_activities(all_activities: &[Activity]) -> (owned: SymbolSet)
    ensures
        owned@ == activity_assets(all_activities@),
        forall|i: int| 0 <= i < all_activities@.len() ==> owned@.contains(#[trigger] all_activities@[i].asset_id@),
        forall|s: Seq<char>| #[trigger] owned@.contains(s) ==> exists|i: int|
            0 <= i < all_activities@.len() && #[trigger] all_activities@[i].asset_id@ == s,
{
    let mut owned = SymbolSet::new();
    let mut i: usize = 0;
    while i < all_activities.len()
        invariant
            i <= all_activities@.len(),
            owned@ == activity_assets(all_activities@.take(i as int)),
        decreases all_activities@.len() - i,
    {
        owned.insert(all_activities[i].asset_id.clone());
        assert(all_activities@.take(i + 1).map_values(|a: Activity| a.asset_id@) =~= all_activities@.take(
            i as int,
        ).map_values(|a: Activity| a.asset_id@).push(all_activities@[i as int].asset_id@));
        i = i + 1;
    }
    assert(all_activities@.take(i as int) =~= all_activities@);
    proof {
        crate::laws::previously_owned_are_the_activity_assets(all_activities@);
    }
    owned
}

} // verus!
