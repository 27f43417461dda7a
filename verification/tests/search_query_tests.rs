use search_ownership::ownership::OwnershipStatus;
use search_ownership::query::{
    aggregate_currently_owned, asset_matches_query, contains_text, filter_assets_matching_query,
    owned_symbols, reset_ownership,
};
use search_ownership::quote::{Asset, QuoteSummary};
use search_ownership::symbols::{OwnershipMap, SymbolSet};

fn asset(symbol: &str, name: Option<&str>, mapping: Option<&str>) -> Asset {
    Asset {
        id: format!("id_{}", symbol),
        symbol: symbol.to_string(),
        name: name.map(|n| n.to_string()),
        asset_type: None,
        symbol_mapping: mapping.map(|m| m.to_string()),
        currency: "USD".to_string(),
        data_source: "MANUAL".to_string(),
    }
}

#[test]
fn contains_text_finds_substrings() {
    assert!(contains_text("apple inc", "inc"));
    assert!(contains_text("apple inc", "apple inc"));
    assert!(contains_text("apple", ""));
    assert!(contains_text("", ""));
    assert!(!contains_text("", "a"));
    assert!(!contains_text("apple", "applepie"));
    assert!(!contains_text("apple", "pa"));
    assert!(contains_text("zürich", "üri"));
}

#[test]
fn query_matches_name_symbol_or_mapping_ignoring_case() {
    let a = asset("AAPL", Some("Apple Inc"), Some("AAPL.US"));
    assert!(asset_matches_query(&a, "apple"));
    assert!(asset_matches_query(&a, "aap"));
    assert!(asset_matches_query(&a, ".us"));
    assert!(!asset_matches_query(&a, "tesla"));
    let b = asset("VOD.L", None, None);
    assert!(asset_matches_query(&b, "vod"));
    assert!(!asset_matches_query(&b, "vodafone"));
}

#[test]
fn filter_keeps_matching_assets_in_order() {
    let assets = vec![
        asset("AAPL", Some("Apple Inc"), None),
        asset("TSLA", Some("Tesla Inc"), None),
        asset("PINEAPPLE", None, None),
    ];
    let matching = filter_assets_matching_query(assets, "APPLE");
    let symbols: Vec<&str> = matching.iter().map(|a| a.symbol.as_str()).collect();
    assert_eq!(symbols, vec!["AAPL", "PINEAPPLE"]);
}

#[test]
fn reset_ownership_marks_every_result_not_owned() {
    let results = vec![QuoteSummary {
        symbol: "AAPL".to_string(),
        exchange: "NASDAQ".to_string(),
        short_name: "Apple".to_string(),
        quote_type: "EQUITY".to_string(),
        index: "quotes".to_string(),
        score: 0.5f64.to_bits(),
        type_display: "Equity".to_string(),
        long_name: "Apple Inc".to_string(),
        ownership_status: OwnershipStatus::CurrentlyOwned,
    }];
    let reset = reset_ownership(results);
    assert_eq!(reset.len(), 1);
    assert_eq!(reset[0].symbol, "AAPL");
    assert_eq!(reset[0].long_name, "Apple Inc");
    assert_eq!(reset[0].ownership_status, OwnershipStatus::NotOwned);
}

#[test]
fn aggregate_keeps_only_currently_owned_symbols_of_any_account() {
    let reports = vec![
        vec![
            ("AAPL".to_string(), OwnershipStatus::CurrentlyOwned),
            ("TSLA".to_string(), OwnershipStatus::PreviouslyOwned),
        ],
        vec![],
        vec![
            ("MSFT".to_string(), OwnershipStatus::CurrentlyOwned),
            ("AAPL".to_string(), OwnershipStatus::CurrentlyOwned),
        ],
    ];
    let owned = aggregate_currently_owned(&reports);
    assert_eq!(owned.len(), 2);
    assert_eq!(owned.get("AAPL"), Some(OwnershipStatus::CurrentlyOwned));
    assert_eq!(owned.get("MSFT"), Some(OwnershipStatus::CurrentlyOwned));
    assert!(!owned.contains_key("TSLA"));
}

#[test]
fn owned_symbols_is_the_union() {
    let mut current = OwnershipMap::new();
    current.insert("AAPL".to_string(), OwnershipStatus::CurrentlyOwned);
    let mut previous = SymbolSet::new();
    previous.insert("AAPL".to_string());
    previous.insert("TSLA".to_string());
    let all = owned_symbols(&current, &previous);
    assert_eq!(all.len(), 2);
    assert!(all.contains("AAPL"));
    assert!(all.contains("TSLA"));
    assert!(owned_symbols(&OwnershipMap::new(), &SymbolSet::new()).is_empty());
}
