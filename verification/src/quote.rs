use vstd::prelude::*;

use crate::ownership::{OwnershipStatus, priority, ownership_priority};

verus! {

/// One entry of a symbol search, as shown to the user.
///
/// `score` is the bit pattern of the provider's relevance score, an IEEE-754
/// double (`f64::to_bits`); results are ranked by the total order of those
/// doubles, which `score_order_key` maps onto the order of unsigned integers.
#[derive(Debug, Clone)]
pub struct QuoteSummary {
    pub symbol: String,
    pub exchange: String,
    pub short_name: String,
    pub quote_type: String,
    pub index: String,
    pub score: u64,
    pub type_display: String,
    pub long_name: String,
    pub ownership_status: OwnershipStatus,
}

/// The mathematical value of a `QuoteSummary`: every text field as its characters.
pub struct QuoteView {
    pub symbol: Seq<char>,
    pub exchange: Seq<char>,
    pub short_name: Seq<char>,
    pub quote_type: Seq<char>,
    pub index: Seq<char>,
    pub score: u64,
    pub type_display: Seq<char>,
    pub long_name: Seq<char>,
    pub ownership_status: OwnershipStatus,
}

impl View for QuoteSummary {
    type V = QuoteView;

    open spec fn view(&self) -> QuoteView {
        QuoteView {
            symbol: self.symbol@,
            exchange: self.exchange@,
            short_name: self.short_name@,
            quote_type: self.quote_type@,
            index: self.index@,
            score: self.score,
            type_display: self.type_display@,
            long_name: self.long_name@,
            ownership_status: self.ownership_status,
        }
    }
}

/// The views of a sequence of summaries, element by element.
pub open spec fn views(s: Seq<QuoteSummary>) -> Seq<QuoteView> {
    s.map_values(|q: QuoteSummary| q@)
}

/// The sign bit of an IEEE-754 double.
pub const SIGN_BIT: u64 = 0x8000_0000_0000_0000;

/// Maps the bit pattern of a double to an unsigned key whose order is the
/// IEEE-754 total order (`f64::total_cmp`) of the doubles: negative values
/// (sign bit set) have all their bits flipped, the others get the sign bit set.
pub open spec fn score_order_key(bits: u64) -> u64 {
    if bits >= SIGN_BIT {
        (u64::MAX - bits) as u64
    } else {
        (bits + SIGN_BIT) as u64
    }
}

/// `a` comes strictly before `b` in the IEEE-754 total order (`totalOrder`,
/// `f64::total_cmp`) of the doubles whose bit patterns they are: every
/// negative (sign bit set) before every non-negative; among non-negatives the
/// smaller pattern first; among negatives the larger pattern (larger
/// magnitude) first.
pub open spec fn total_order_lt(a: u64, b: u64) -> bool {
    let a_negative = a >= SIGN_BIT;
    let b_negative = b >= SIGN_BIT;
    if a_negative != b_negative {
        a_negative
    } else if a_negative {
        a > b
    } else {
        a < b
    }
}

/// Computes `score_order_key`.
pub fn score_key(bits: u64) -> (k: u64)
    ensures
        k == score_order_key(bits),
{
    if bits >= SIGN_BIT {
        u64::MAX - bits
    } else {
        bits + SIGN_BIT
    }
}

/// The position class of a summary in ranked results: ownership priority
/// first (ascending), then score (descending); equal ranks mean the same
/// priority and the same score.
pub open spec fn rank(q: QuoteView) -> int {
    priority(q.ownership_status) * 0x1_0000_0000_0000_0000int + (u64::MAX - score_order_key(q.score))
}

/// Whether `a` may stand before `b` in ranked results.
pub fn ranks_before_or_with(a: &QuoteSummary, b: &QuoteSummary) -> (r: bool)
    ensures
        r == (rank(a@) <= rank(b@)),
{
    let pa = ownership_priority(&a.ownership_status);
    let pb = ownership_priority(&b.ownership_status);
    if pa < pb {
        true
    } else if pa > pb {
        false
    } else {
        score_key(a.score) >= score_key(b.score)
    }
}

/// A locally known asset, with the fields that search reads.
#[derive(Debug, Clone)]
pub struct Asset {
    pub id: String,
    pub symbol: String,
    pub name: Option<String>,
    pub asset_type: Option<String>,
    pub symbol_mapping: Option<String>,
    pub currency: String,
    pub data_source: String,
}

/// A recorded activity (trade, dividend, ...) on an asset in an account.
#[derive(Debug, Clone)]
pub struct Activity {
    pub account_id: String,
    pub asset_id: String,
}

/// The characters of an optional text, empty when absent.
pub open spec fn text_or_empty(t: Option<String>) -> Seq<char> {
    match t {
        Some(s) => s@,
        Option::None => Seq::empty(),
    }
}

/// The display name of an asset: its name, or its symbol when it has none.
pub open spec fn display_name(a: Asset) -> Seq<char> {
    match a.name {
        Some(n) => n@,
        Option::None => a.symbol@,
    }
}

/// The search entry that stands for a local asset.
pub open spec fn asset_quote(a: Asset, score: u64, status: OwnershipStatus) -> QuoteView {
    QuoteView {
        symbol: a.symbol@,
        exchange: a.data_source@,
        short_name: display_name(a),
        quote_type: text_or_empty(a.asset_type),
        index: Seq::empty(),
        score: score,
        type_display: text_or_empty(a.asset_type),
        long_name: display_name(a),
        ownership_status: status,
    }
}

fn copy_or_empty(t: &Option<String>) -> (r: String)
    ensures
        r@ == text_or_empty(*t),
{
    match t {
        Some(s) => s.clone(),
        Option::None => String::new(),
    }
}

impl QuoteSummary {
    /// The search entry for a local asset, with the given score bits and status.
    pub fn from_asset(asset: &Asset, score: u64, ownership_status: OwnershipStatus) -> (q: Self)
        ensures
            q@ == asset_quote(*asset, score, ownership_status),
    {
        let name = match &asset.name {
            Some(n) => n.clone(),
            Option::None => asset.symbol.clone(),
        };
        QuoteSummary {
            symbol: asset.symbol.clone(),
            exchange: asset.data_source.clone(),
            short_name: name.clone(),
            quote_type: copy_or_empty(&asset.asset_type),
            index: String::new(),
            score: score,
            type_display: copy_or_empty(&asset.asset_type),
            long_name: name,
            ownership_status: ownership_status,
        }
    }
}

} // verus!
