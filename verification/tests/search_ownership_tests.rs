use search_ownership::ownership::{ownership_priority, OwnershipStatus};
use search_ownership::quote::{score_key, Activity, Asset, QuoteSummary};
use search_ownership::search::{
    classify_ownership, enrich_search_results_with_ownership,
    get_previously_owned_from_activities, LOCAL_ASSET_SCORE,
};
use search_ownership::symbols::{OwnershipMap, SymbolSet};

fn create_test_asset(symbol: &str, name: &str) -> Asset {
    Asset {
        id: format!("id_{}", symbol),
        symbol: symbol.to_string(),
        name: Some(name.to_string()),
        asset_type: Some("EQUITY".to_string()),
        symbol_mapping: None,
        currency: "USD".to_string(),
        data_source: "MANUAL".to_string(),
    }
}

fn create_test_quote_summary(symbol: &str, score: f64, ownership_status: OwnershipStatus) -> QuoteSummary {
    QuoteSummary {
        symbol: symbol.to_string(),
        exchange: "NASDAQ".to_string(),
        short_name: symbol.to_string(),
        quote_type: "EQUITY".to_string(),
        index: "symbol".to_string(),
        score: score.to_bits(),
        type_display: "Equity".to_string(),
        long_name: symbol.to_string(),
        ownership_status,
    }
}

fn create_test_activity(account_id: &str, asset_id: &str) -> Activity {
    Activity { account_id: account_id.to_string(), asset_id: asset_id.to_string() }
}

fn ownership_map(entries: Vec<(&str, OwnershipStatus)>) -> OwnershipMap {
    let mut map = OwnershipMap::new();
    for (symbol, status) in entries {
        map.insert(symbol.to_string(), status);
    }
    map
}

fn symbol_set(symbols: Vec<&str>) -> SymbolSet {
    let mut set = SymbolSet::new();
    for symbol in symbols {
        set.insert(symbol.to_string());
    }
    set
}

#[test]
fn test_enrich_search_results_adds_local_assets_not_in_external_results() {
    let external_results = vec![create_test_quote_summary("AAPL", 0.9, OwnershipStatus::NotOwned)];
    let owned_assets = vec![create_test_asset("TSLA", "Tesla Inc")];
    let currently_owned = ownership_map(vec![("TSLA", OwnershipStatus::CurrentlyOwned)]);
    let previously_owned = SymbolSet::new();

    let result = enrich_search_results_with_ownership(
        external_results,
        owned_assets,
        &currently_owned,
        &previously_owned,
    );

    assert_eq!(result.len(), 2);
    assert_eq!(result[0].symbol, "TSLA");
    assert_eq!(result[0].ownership_status, OwnershipStatus::CurrentlyOwned);
    assert_eq!(result[1].symbol, "AAPL");
}

#[test]
fn test_enrich_search_results_updates_existing_external_results() {
    let external_results = vec![create_test_quote_summary("AAPL", 0.9, OwnershipStatus::NotOwned)];
    let owned_assets = vec![create_test_asset("AAPL", "Apple Inc")];
    let currently_owned = ownership_map(vec![("AAPL", OwnershipStatus::CurrentlyOwned)]);
    let previously_owned = SymbolSet::new();

    let result = enrich_search_results_with_ownership(
        external_results,
        owned_assets,
        &currently_owned,
        &previously_owned,
    );

    assert_eq!(result.len(), 1);
    assert_eq!(result[0].symbol, "AAPL");
    assert_eq!(result[0].ownership_status, OwnershipStatus::CurrentlyOwned);
}

#[test]
fn test_enrich_search_results_sorts_by_ownership_priority() {
    let external_results = vec![
        create_test_quote_summary("MSFT", 0.8, OwnershipStatus::NotOwned),
        create_test_quote_summary("GOOGL", 0.85, OwnershipStatus::NotOwned),
    ];
    let owned_assets = vec![
        create_test_asset("AAPL", "Apple Inc"),
        create_test_asset("TSLA", "Tesla Inc"),
    ];
    let currently_owned = ownership_map(vec![("AAPL", OwnershipStatus::CurrentlyOwned)]);
    let previously_owned = symbol_set(vec!["TSLA"]);

    let result = enrich_search_results_with_ownership(
        external_results,
        owned_assets,
        &currently_owned,
        &previously_owned,
    );

    assert_eq!(result.len(), 4);
    assert_eq!(result[0].symbol, "AAPL");
    assert_eq!(result[0].ownership_status, OwnershipStatus::CurrentlyOwned);
    assert_eq!(result[1].symbol, "TSLA");
    assert_eq!(result[1].ownership_status, OwnershipStatus::PreviouslyOwned);
    assert_eq!(result[2].ownership_status, OwnershipStatus::NotOwned);
    assert_eq!(result[3].ownership_status, OwnershipStatus::NotOwned);
}

#[test]
fn test_enrich_search_results_handles_empty_inputs() {
    let external_results: Vec<QuoteSummary> = vec![];
    let owned_assets: Vec<Asset> = vec![];
    let currently_owned = OwnershipMap::new();
    let previously_owned = SymbolSet::new();

    let result = enrich_search_results_with_ownership(
        external_results,
        owned_assets,
        &currently_owned,
        &previously_owned,
    );

    assert!(result.is_empty());
}

#[test]
fn test_enrich_search_results_sorts_by_score_within_same_ownership_status() {
    let external_results = vec![
        create_test_quote_summary("GOOGL", 0.85, OwnershipStatus::NotOwned),
        create_test_quote_summary("MSFT", 0.8, OwnershipStatus::NotOwned),
    ];
    let owned_assets: Vec<Asset> = vec![];
    let currently_owned = OwnershipMap::new();
    let previously_owned = SymbolSet::new();

    let result = enrich_search_results_with_ownership(
        external_results,
        owned_assets,
        &currently_owned,
        &previously_owned,
    );

    assert_eq!(result.len(), 2);
    assert_eq!(result[0].symbol, "GOOGL");
    assert_eq!(f64::from_bits(result[0].score), 0.85);
    assert_eq!(result[1].symbol, "MSFT");
    assert_eq!(f64::from_bits(result[1].score), 0.8);
}

#[test]
fn test_get_previously_owned_from_activities_returns_all_assets() {
    let activities = vec![
        create_test_activity("account1", "AAPL"),
        create_test_activity("account2", "TSLA"),
        create_test_activity("account1", "MSFT"),
    ];

    let result = get_previously_owned_from_activities(&activities);

    assert_eq!(result.len(), 3);
    assert!(result.contains("AAPL"));
    assert!(result.contains("TSLA"));
    assert!(result.contains("MSFT"));
}

#[test]
fn test_get_previously_owned_from_activities_handles_empty_list() {
    let activities: Vec<Activity> = vec![];

    let result = get_previously_owned_from_activities(&activities);

    assert!(result.is_empty());
}

#[test]
fn test_get_previously_owned_from_activities_returns_unique_assets() {
    let activities = vec![
        create_test_activity("account1", "AAPL"),
        create_test_activity("account2", "AAPL"),
        create_test_activity("account1", "TSLA"),
    ];

    let result = get_previously_owned_from_activities(&activities);

    assert_eq!(result.len(), 2);
    assert!(result.contains("AAPL"));
    assert!(result.contains("TSLA"));
}

#[test]
fn ownership_priority_orders_statuses() {
    assert_eq!(ownership_priority(&OwnershipStatus::CurrentlyOwned), 0);
    assert_eq!(ownership_priority(&OwnershipStatus::PreviouslyOwned), 1);
    assert_eq!(ownership_priority(&OwnershipStatus::NotOwned), 2);
}

#[test]
fn currently_owned_takes_precedence_over_previously_owned() {
    let current = ownership_map(vec![("AAPL", OwnershipStatus::CurrentlyOwned)]);
    let previous = symbol_set(vec!["AAPL", "TSLA"]);
    assert_eq!(classify_ownership(&"AAPL".to_string(), &current, &previous), OwnershipStatus::CurrentlyOwned);
    assert_eq!(classify_ownership(&"TSLA".to_string(), &current, &previous), OwnershipStatus::PreviouslyOwned);
    assert_eq!(classify_ownership(&"MSFT".to_string(), &current, &previous), OwnershipStatus::NotOwned);
}

#[test]
fn score_key_follows_total_order_of_doubles() {
    let values = [
        f64::NEG_INFINITY,
        -1000.0,
        -0.5,
        -f64::MIN_POSITIVE,
        -0.0,
        0.0,
        f64::MIN_POSITIVE,
        0.8,
        0.85,
        1000.0,
        f64::INFINITY,
        f64::NAN,
    ];
    for a in values.iter() {
        for b in values.iter() {
            let by_key = score_key(a.to_bits()).cmp(&score_key(b.to_bits()));
            assert_eq!(by_key, a.total_cmp(b), "{} vs {}", a, b);
        }
    }
    assert_eq!(score_key(0), 0x8000_0000_0000_0000);
    assert_eq!(score_key(0x8000_0000_0000_0000), 0x7FFF_FFFF_FFFF_FFFF);
}

#[test]
fn local_asset_score_is_one_thousand() {
    assert_eq!(f64::from_bits(LOCAL_ASSET_SCORE), 1000.0);
}

#[test]
fn added_local_asset_is_built_from_the_asset() {
    let owned_assets = vec![create_test_asset("TSLA", "Tesla Inc")];
    let previously_owned = symbol_set(vec!["TSLA"]);
    let result = enrich_search_results_with_ownership(vec![], owned_assets, &OwnershipMap::new(), &previously_owned);
    assert_eq!(result.len(), 1);
    let q = &result[0];
    assert_eq!(q.symbol, "TSLA");
    assert_eq!(q.short_name, "Tesla Inc");
    assert_eq!(q.long_name, "Tesla Inc");
    assert_eq!(q.exchange, "MANUAL");
    assert_eq!(q.quote_type, "EQUITY");
    assert_eq!(q.type_display, "EQUITY");
    assert_eq!(q.index, "");
    assert_eq!(f64::from_bits(q.score), 1000.0);
    assert_eq!(q.ownership_status, OwnershipStatus::PreviouslyOwned);
}

#[test]
fn local_asset_outranks_provider_results_of_same_status() {
    let external_results = vec![create_test_quote_summary("AAPL", 0.99, OwnershipStatus::NotOwned)];
    let owned_assets = vec![create_test_asset("ZZZ", "Unheld Corp")];
    let result =
        enrich_search_results_with_ownership(external_results, owned_assets, &OwnershipMap::new(), &SymbolSet::new());
    assert_eq!(result.len(), 2);
    assert_eq!(result[0].symbol, "ZZZ");
    assert_eq!(result[0].ownership_status, OwnershipStatus::NotOwned);
    assert_eq!(result[1].symbol, "AAPL");
}

#[test]
fn only_first_provider_result_of_a_symbol_is_updated() {
    let external_results = vec![
        create_test_quote_summary("AAPL", 0.5, OwnershipStatus::NotOwned),
        create_test_quote_summary("AAPL", 0.9, OwnershipStatus::NotOwned),
    ];
    let owned_assets = vec![create_test_asset("AAPL", "Apple Inc"), create_test_asset("AAPL", "Apple Inc")];
    let currently_owned = ownership_map(vec![("AAPL", OwnershipStatus::CurrentlyOwned)]);
    let result =
        enrich_search_results_with_ownership(external_results, owned_assets, &currently_owned, &SymbolSet::new());
    assert_eq!(result.len(), 2);
    assert_eq!(result[0].ownership_status, OwnershipStatus::CurrentlyOwned);
    assert_eq!(f64::from_bits(result[0].score), 0.5);
    assert_eq!(result[1].ownership_status, OwnershipStatus::NotOwned);
    assert_eq!(f64::from_bits(result[1].score), 0.9);
}

#[test]
fn equal_ranks_keep_their_order() {
    let external_results = vec![
        create_test_quote_summary("B", 0.5, OwnershipStatus::NotOwned),
        create_test_quote_summary("A", 0.5, OwnershipStatus::NotOwned),
        create_test_quote_summary("C", 0.7, OwnershipStatus::NotOwned),
    ];
    let result =
        enrich_search_results_with_ownership(external_results, vec![], &OwnershipMap::new(), &SymbolSet::new());
    let symbols: Vec<&str> = result.iter().map(|q| q.symbol.as_str()).collect();
    assert_eq!(symbols, vec!["C", "B", "A"]);
}

#[test]
fn ranking_a_ranked_list_changes_nothing() {
    let external_results = vec![
        create_test_quote_summary("X", 0.3, OwnershipStatus::PreviouslyOwned),
        create_test_quote_summary("Y", 0.9, OwnershipStatus::NotOwned),
        create_test_quote_summary("Z", 0.1, OwnershipStatus::CurrentlyOwned),
    ];
    let once = enrich_search_results_with_ownership(external_results, vec![], &OwnershipMap::new(), &SymbolSet::new());
    let first: Vec<String> = once.iter().map(|q| q.symbol.clone()).collect();
    let twice = enrich_search_results_with_ownership(once, vec![], &OwnershipMap::new(), &SymbolSet::new());
    let second: Vec<String> = twice.iter().map(|q| q.symbol.clone()).collect();
    assert_eq!(first, vec!["Z", "X", "Y"]);
    assert_eq!(first, second);
}

#[test]
fn ownership_map_reads_back_what_was_written() {
    let mut map = OwnershipMap::new();
    assert!(map.is_empty());
    map.insert("AAPL".to_string(), OwnershipStatus::PreviouslyOwned);
    map.insert("AAPL".to_string(), OwnershipStatus::CurrentlyOwned);
    map.insert("TSLA".to_string(), OwnershipStatus::NotOwned);
    assert_eq!(map.len(), 2);
    assert_eq!(map.get("AAPL"), Some(OwnershipStatus::CurrentlyOwned));
    assert_eq!(map.get("TSLA"), Some(OwnershipStatus::NotOwned));
    assert_eq!(map.get("MSFT"), None);
    assert!(map.contains_key("TSLA"));
    assert!(!map.contains_key("MSFT"));
    let mut keys = map.symbols();
    keys.sort();
    assert_eq!(keys, vec!["AAPL".to_string(), "TSLA".to_string()]);
}

#[test]
fn symbol_set_insert_reports_novelty() {
    let mut set = SymbolSet::new();
    assert!(set.insert("AAPL".to_string()));
    assert!(!set.insert("AAPL".to_string()));
    assert_eq!(set.len(), 1);
    assert_eq!(set.to_vec(), vec!["AAPL".to_string()]);
}
