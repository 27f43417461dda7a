use vstd::prelude::*;

use crate::ownership::OwnershipStatus;
use crate::quote::{Asset, QuoteSummary, QuoteView, views};
use crate::search::with_status;
use crate::symbols::{OwnershipMap, SymbolSet};

verus! {

use vstd::utf8::is_ascii_chars;

broadcast use vstd::seq_lib::group_seq_properties;

/// The characters of a string as a list.
pub fn chars_of(s: &str) -> (v: Vec<char>)
    ensures
        v@ == s@,
{
    let mut v: Vec<char> = Vec::new();
    for c in it: s.chars()
        invariant
            v@ == it.seq().take(it.index() as int),
            it.seq() == s@,
    {
        v.push(c);
    }
    v
}

/// `needle` occurs in `hay` at position `at`.
pub open spec fn occurs_at(hay: Seq<char>, needle: Seq<char>, at: int) -> bool {
    0 <= at && at + needle.len() <= hay.len() && hay.subrange(at, at + needle.len()) == needle
}

/// `needle` occurs somewhere in `hay` (the empty text occurs everywhere).
pub open spec fn has_substring(hay: Seq<char>, needle: Seq<char>) -> bool {
    exists|at: int| #[trigger] occurs_at(hay, needle, at)
}

fn occurs_at_exec(hay: &Vec<char>, needle: &Vec<char>, at: usize) -> (r: bool)
    requires
        at + needle@.len() <= hay@.len(),
    ensures
        r == occurs_at(hay@, needle@, at as int),
{
    let hay_len: usize = hay.len();
    let mut k: usize = 0;
    while k < needle.len()
        invariant
            hay_len == hay@.len(),
            at + needle@.len() <= hay@.len(),
            k <= needle@.len(),
            forall|t: int| 0 <= t < k ==> hay@[at + t] == needle@[t],
        decreases needle@.len() - k,
    {
        if hay[at + k] != needle[k] {
            assert(hay@.subrange(at as int, at + needle@.len())[k as int] != needle@[k as int]);
            return false;
        }
        k = k + 1;
    }
    assert(hay@.subrange(at as int, at + needle@.len()) =~= needle@);
    true
}

/// Whether `needle` occurs in `hay`.
fn contains_chars(h: &Vec<char>, n: &Vec<char>) -> (r: bool)
    ensures
        r == has_substring(h@, n@),
{
    if n.len() > h.len() {
        assert forall|at: int| !occurs_at(h@, n@, at) by {}
        return false;
    }
    let last: usize = h.len() - n.len();
    let mut at: usize = 0;
    loop
        invariant
            at <= last,
            last + n@.len() == h@.len(),
            forall|t: int| 0 <= t < at ==> !occurs_at(h@, n@, t),
        decreases last - at,
    {
        if occurs_at_exec(h, n, at) {
            return true;
        }
        if at == last {
            assert forall|t: int| !occurs_at(h@, n@, t) by {
                if 0 <= t < at {
                }
            }
            return false;
        }
        at = at + 1;
    }
}

/// Whether `needle` occurs in `hay`, as `str::contains` decides for a text pattern.
pub fn contains_text(hay: &str, needle: &str) -> (r: bool)
    ensures
        r == has_substring(hay@, needle@),
{
    let h = chars_of(hay);
    let n = chars_of(needle);
    contains_chars(&h, &n)
}

/// The lowercase form of a text, as `str::to_lowercase` computes it.
pub uninterp spec fn lowercase(s: Seq<char>) -> Seq<char>;

/// Calls `str::to_lowercase`. Trusted: the result is the characters that
/// `lowercase` names for the characters of `s`; the Unicode case mapping itself
/// is not stated.
#[verifier::external_body]
fn to_lowercase(s: &str) -> (r: String)
    ensures
        r@ == lowercase(s@),
{
    s.to_lowercase()
}

/// The lowercase form of an ASCII character: `A`..`Z` become `a`..`z`,
/// every other character stays.
pub open spec fn ascii_lower_char(c: char) -> char {
    if 'A' <= c <= 'Z' {
        ((c as u32) + 32) as char
    } else {
        c
    }
}

/// The lowercase form of a text: character by character for ASCII texts,
/// and as `lowercase` names it for the others.
pub open spec fn text_lower(s: Seq<char>) -> Seq<char> {
    if is_ascii_chars(s) {
        s.map_values(|c: char| ascii_lower_char(c))
    } else {
        lowercase(s)
    }
}

fn lower_char(c: char) -> (r: char)
    ensures
        r == ascii_lower_char(c),
{
    if 'A' <= c && c <= 'Z' {
        ((c as u8) + 32) as char
    } else {
        c
    }
}

/// The characters of the lowercase form of `s`.
pub fn lower_chars(s: &str) -> (v: Vec<char>)
    ensures
        v@ == text_lower(s@),
{
    if s.is_ascii() {
        let chars = chars_of(s);
        let mut v: Vec<char> = Vec::new();
        let mut i: usize = 0;
        while i < chars.len()
            invariant
                i <= chars@.len(),
                chars@ == s@,
                v@ == s@.take(i as int).map_values(|c: char| ascii_lower_char(c)),
            decreases chars@.len() - i,
        {
            v.push(lower_char(chars[i]));
            assert(s@.take(i + 1).map_values(|c: char| ascii_lower_char(c)) =~= s@.take(i as int).map_values(
                |c: char| ascii_lower_char(c),
            ).push(ascii_lower_char(s@[i as int])));
            i = i + 1;
        }
        assert(s@.take(i as int) =~= s@);
        v
    } else {
        let lower = to_lowercase(s);
        chars_of(lower.as_str())
    }
}

/// Whether an optional text, lowercased, contains `query_lower`.
pub open spec fn optional_text_matches(t: Option<String>, query_lower: Seq<char>) -> bool {
    match t {
        Some(v) => has_substring(text_lower(v@), query_lower),
        Option::None => false,
    }
}

/// Whether an asset matches a lowercased query: its name, its symbol or its
/// symbol mapping, lowercased, contains the query.
pub open spec fn asset_matches(a: Asset, query_lower: Seq<char>) -> bool {
    ||| optional_text_matches(a.name, query_lower)
    ||| has_substring(text_lower(a.symbol@), query_lower)
    ||| optional_text_matches(a.symbol_mapping, query_lower)
}

fn optional_text_contains(t: &Option<String>, needle: &Vec<char>) -> (r: bool)
    ensures
        r == optional_text_matches(*t, needle@),
{
    match t {
        Some(v) => {
            let lower = lower_chars(v.as_str());
            contains_chars(&lower, needle)
        },
        Option::None => false,
    }
}

fn asset_matches_chars(asset: &Asset, needle: &Vec<char>) -> (r: bool)
    ensures
        r == asset_matches(*asset, needle@),
{
    if optional_text_contains(&asset.name, needle) {
        return true;
    }
    let symbol_lower = lower_chars(asset.symbol.as_str());
    if contains_chars(&symbol_lower, needle) {
        return true;
    }
    optional_text_contains(&asset.symbol_mapping, needle)
}

/// Whether `asset` matches the lowercased query `query_lower`.
pub fn asset_matches_query(asset: &Asset, query_lower: &str) -> (r: bool)
    ensures
        r == asset_matches(*asset, query_lower@),
{
    let needle = chars_of(query_lower);
    asset_matches_chars(asset, &needle)
}

/// The predicate "matches the lowercased query" on assets.
pub open spec fn matches_lowercase(query_lower: Seq<char>) -> spec_fn(Asset) -> bool {
    |a: Asset| asset_matches(a, query_lower)
}

/// The owned assets that match a search query, in their order; matching
/// ignores case as `str::to_lowercase` does.
pub fn filter_assets_matching_query(assets: Vec<Asset>, query: &str) -> (matching: Vec<Asset>)
    ensures
        matching@ == assets@.filter(matches_lowercase(text_lower(query@))),
{
    let needle = lower_chars(query);
    let ghost p = matches_lowercase(text_lower(query@));
    let ghost all = assets@;
    let mut matching: Vec<Asset> = Vec::new();
    let mut rest = assets;
    let n: usize = rest.len();
    let mut done: usize = 0;
    while rest.len() > 0
        invariant
            all.len() == n,
            done <= n,
            rest@ == all.skip(done as int),
            matching@ == all.take(done as int).filter(p),
            needle@ == text_lower(query@),
            p == matches_lowercase(text_lower(query@)),
        decreases rest@.len(),
    {
        let ghost old_rest = rest@;
        let asset = rest.remove(0);
        assert(asset == all[done as int]);
        assert(rest@ =~= all.skip(done + 1));
        let keep = asset_matches_chars(&asset, &needle);
        proof {
            assert(all.take(done + 1) =~= all.take(done as int).push(asset));
            reveal_with_fuel(Seq::filter, 1);
            assert(all.take(done + 1).drop_last() =~= all.take(done as int));
        }
        if keep {
            matching.push(asset);
        }
        done = done + 1;
    }
    assert(all.take(done as int) =~= all);
    matching
}

/// The provider results with every ownership status reset to not owned.
pub fn reset_ownership(results: Vec<QuoteSummary>) -> (out: Vec<QuoteSummary>)
    ensures
        views(out@) == views(results@).map_values(|q: QuoteView| with_status(q, OwnershipStatus::NotOwned)),
{
    let ghost all = views(results@);
    let mut out: Vec<QuoteSummary> = Vec::new();
    let mut rest = results;
    let n: usize = rest.len();
    let mut done: usize = 0;
    while rest.len() > 0
        invariant
            all.len() == n,
            done <= n,
            views(rest@) == all.skip(done as int),
            views(out@) == all.take(done as int).map_values(|q: QuoteView| with_status(q, OwnershipStatus::NotOwned)),
        decreases rest@.len(),
    {
        let ghost old_rest = rest@;
        assert(views(old_rest).len() == n - done);
        let mut q = rest.remove(0);
        assert(q@ == views(old_rest)[0]);
        assert(views(rest@) =~= all.skip(done + 1));
        q.ownership_status = OwnershipStatus::NotOwned;
        let ghost prev = out@;
        out.push(q);
        assert(views(out@) =~= views(prev).push(q@));
        assert(views(out@) =~= all.take(done + 1).map_values(|q: QuoteView| with_status(q, OwnershipStatus::NotOwned)));
        done = done + 1;
    }
    assert(all.take(done as int) =~= all);
    out
}

/// The symbols that one account's ownership report lists as currently owned.
pub open spec fn owned_in(report: Seq<(String, OwnershipStatus)>) -> Set<Seq<char>> {
    Set::new(
        |s: Seq<char>|
            exists|e: int|
                0 <= e < report.len() && #[trigger] report[e].0@ == s && report[e].1
                    == OwnershipStatus::CurrentlyOwned,
    )
}

/// The symbols that any account's report lists as currently owned.
pub open spec fn owned_in_any(reports: Seq<Vec<(String, OwnershipStatus)>>) -> Set<Seq<char>> {
    Set::new(|s: Seq<char>| exists|a: int| 0 <= a < reports.len() && #[trigger] owned_in(reports[a]@).contains(s))
}

/// Every key of `m` maps to `CurrentlyOwned`.
pub open spec fn all_currently_owned(m: Map<Seq<char>, OwnershipStatus>) -> bool {
    forall|k: Seq<char>| #[trigger] m.dom().contains(k) ==> m[k] == OwnershipStatus::CurrentlyOwned
}

/// Merges the ownership reports of all accounts: a symbol is currently owned
/// if any account reports it so; other statuses are ignored.
pub fn aggregate_currently_owned(reports: &Vec<Vec<(String, OwnershipStatus)>>) -> (owned: OwnershipMap)
    ensures
        owned@.dom() == owned_in_any(reports@),
        all_currently_owned(owned@),
        forall|a: int, e: int|
            0 <= a < reports@.len() && 0 <= e < reports@[a]@.len() && (#[trigger] reports@[a]@[e]).1
                == OwnershipStatus::CurrentlyOwned ==> owned@.dom().contains(reports@[a]@[e].0@),
        forall|k: Seq<char>| #[trigger] owned@.dom().contains(k) ==> exists|a: int, e: int|
            0 <= a < reports@.len() && 0 <= e < reports@[a]@.len() && (#[trigger] reports@[a]@[e]).0@ == k
                && reports@[a]@[e].1 == OwnershipStatus::CurrentlyOwned,
{
    let mut owned = OwnershipMap::new();
    let mut a: usize = 0;
    while a < reports.len()
        invariant
            a <= reports@.len(),
            owned@.dom() == owned_in_any(reports@.take(a as int)),
            all_currently_owned(owned@),
        decreases reports@.len() - a,
    {
        let report = &reports[a];
        let ghost base = owned_in_any(reports@.take(a as int));
        let mut e: usize = 0;
        while e < report.len()
            invariant
                e <= report@.len(),
                report == reports@[a as int],
                owned@.dom() == base + owned_in(report@.take(e as int)),
                all_currently_owned(owned@),
            decreases report@.len() - e,
        {
            let entry = &report[e];
            if entry.1 == OwnershipStatus::CurrentlyOwned {
                owned.insert(entry.0.clone(), OwnershipStatus::CurrentlyOwned);
            }
            proof {
                let prefix = report@.take(e as int);
                let next = report@.take(e + 1);
                assert forall|x: Seq<char>| owned_in(next).contains(x) == (owned_in(prefix).contains(x)
                    || (x == entry.0@ && entry.1 == OwnershipStatus::CurrentlyOwned)) by {
                    if owned_in(next).contains(x) {
                        let t = choose|t: int| 0 <= t < next.len() && #[trigger] next[t].0@ == x && next[t].1
                            == OwnershipStatus::CurrentlyOwned;
                        if t < e {
                            assert(prefix[t] == next[t]);
                        }
                    }
                    if owned_in(prefix).contains(x) {
                        let t = choose|t: int| 0 <= t < prefix.len() && #[trigger] prefix[t].0@ == x
                            && prefix[t].1 == OwnershipStatus::CurrentlyOwned;
                        assert(next[t] == prefix[t]);
                    }
                    if x == entry.0@ && entry.1 == OwnershipStatus::CurrentlyOwned {
                        assert(next[e as int] == *entry);
                    }
                }
                assert(owned@.dom() =~= base + owned_in(next));
            }
            e = e + 1;
        }
        proof {
            let prev = reports@.take(a as int);
            let next = reports@.take(a + 1);
            assert(report@.take(e as int) =~= report@);
            assert forall|x: Seq<char>| owned_in_any(next).contains(x) == (owned_in_any(prev).contains(x)
                || owned_in(report@).contains(x)) by {
                if owned_in_any(next).contains(x) {
                    let t = choose|t: int| 0 <= t < next.len() && #[trigger] owned_in(next[t]@).contains(x);
                    if t < a {
                        assert(prev[t] == next[t]);
                    }
                }
                if owned_in_any(prev).contains(x) {
                    let t = choose|t: int| 0 <= t < prev.len() && #[trigger] owned_in(prev[t]@).contains(x);
                    assert(next[t] == prev[t]);
                }
                if owned_in(report@).contains(x) {
                    assert(next[a as int] == *report);
                }
            }
            assert(owned@.dom() =~= owned_in_any(next));
        }
        a = a + 1;
    }
    assert(reports@.take(a as int) =~= reports@);
    proof {
        crate::laws::aggregate_keeps_every_currently_owned_entry(reports@);
    }
    owned
}

/// Every symbol that is owned now or was owned before, each once.
pub fn owned_symbols(currently_owned: &OwnershipMap, previously_owned: &SymbolSet) -> (all: SymbolSet)
    ensures
        all@ == currently_owned@.dom() + previously_owned@,
{
    let mut all = SymbolSet::new();
    let current = currently_owned.symbols();
    let previous = previously_owned.to_vec();
    let ghost cur = crate::symbols::texts(current@);
    let ghost prev = crate::symbols::texts(previous@);
    let mut i: usize = 0;
    while i < current.len()
        invariant
            i <= current@.len(),
            cur == crate::symbols::texts(current@),
            all@ == cur.take(i as int).to_set(),
        decreases current@.len() - i,
    {
        all.insert(current[i].clone());
        assert(cur.take(i + 1) =~= cur.take(i as int).push(cur[i as int]));
        i = i + 1;
    }
    assert(cur.take(i as int) =~= cur);
    let mut j: usize = 0;
    while j < previous.len()
        invariant
            j <= previous@.len(),
            prev == crate::symbols::texts(previous@),
            all@ == cur.to_set() + prev.take(j as int).to_set(),
        decreases previous@.len() - j,
    {
        all.insert(previous[j].clone());
        assert(prev.take(j + 1) =~= prev.take(j as int).push(prev[j as int]));
        assert(all@ =~= cur.to_set() + prev.take(j + 1).to_set());
        j = j + 1;
    }
    assert(prev.take(j as int) =~= prev);
    all
}

} // verus!
