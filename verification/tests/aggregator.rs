use balance_sync::aggregate::AdapterError;
use balance_sync::aggregate::FetchOutcome;
use balance_sync::aggregate::SourceKind;
use balance_sync::aggregate::merge_balances;
use balance_sync::aggregate::merge_extra_source;
use balance_sync::aggregate::parse_wallet_list;
use balance_sync::aggregate::wallet_sources;

fn fail(msg: &str) -> FetchOutcome {
    Err(AdapterError { message: msg.to_string() })
}

#[test]
fn one_failure_keeps_the_other_two() {
    // three configured sources, one failing: exactly the two successes
    // remain, and the run is not aborted
    let results = vec![
        ("alpha".to_string(), Ok(Some(1_000u64))),
        ("beta".to_string(), fail("timeout")),
        ("gamma".to_string(), Ok(Some(3_000u64))),
    ];
    let merged = merge_balances(&results);
    assert_eq!(merged.len(), 2);
    assert_eq!(merged[0], ("alpha".to_string(), 1_000));
    assert_eq!(merged[1], ("gamma".to_string(), 3_000));
}

#[test]
fn empty_value_is_excluded_not_zero() {
    // Ok(None) is "no usable value", distinct from a zero balance
    let results = vec![
        ("alpha".to_string(), Ok(None)),
        ("beta".to_string(), Ok(Some(0u64))),
    ];
    let merged = merge_balances(&results);
    assert_eq!(merged.len(), 1);
    assert_eq!(merged[0], ("beta".to_string(), 0));
}

#[test]
fn all_sources_failing_yields_empty_mapping() {
    let results = vec![
        ("alpha".to_string(), fail("down")),
        ("beta".to_string(), Ok(None)),
    ];
    assert_eq!(merge_balances(&results).len(), 0);
}

#[test]
fn extra_exchange_source_merges_on_success_only() {
    let mut values = vec![("alpha".to_string(), 1_000u64)];
    merge_extra_source(&mut values, "Binance", Ok(2_000));
    assert_eq!(values.len(), 2);
    assert_eq!(values[1], ("Binance".to_string(), 2_000));

    merge_extra_source(
        &mut values,
        "Binance",
        Err(AdapterError { message: "bad key".to_string() }),
    );
    assert_eq!(values.len(), 2);
}

#[test]
fn evm_wallet_list_keeps_valid_addresses() {
    let csv = "0xd8dA6BF26964aF9D7eEd9e03E53415D37aA96045,not-an-address,\
               0x0000000000000000000000000000000000000001";
    let list = parse_wallet_list(csv, SourceKind::ScrapedDashboard);
    assert_eq!(list.len(), 2);
    assert_eq!(list[0], "0xd8dA6BF26964aF9D7eEd9e03E53415D37aA96045".to_string());
    assert_eq!(list[1], "0x0000000000000000000000000000000000000001".to_string());
}

#[test]
fn btc_wallet_list_keeps_valid_addresses() {
    let csv = "bc1qar0srrr7xfkvy5l643lydnw9re59gtzzwf5mdq,garbage,\
               1A1zP1eP5QGefi2DMPTfTL5SLmv7DivfNa";
    let list = parse_wallet_list(csv, SourceKind::AddressBalance);
    assert_eq!(list.len(), 2);
    assert_eq!(list[0], "bc1qar0srrr7xfkvy5l643lydnw9re59gtzzwf5mdq".to_string());
    assert_eq!(list[1], "1A1zP1eP5QGefi2DMPTfTL5SLmv7DivfNa".to_string());
}

#[test]
fn unset_wallet_list_yields_nothing() {
    // an unset variable reads as the empty string: one empty token,
    // which no chain accepts
    assert_eq!(parse_wallet_list("", SourceKind::ScrapedDashboard).len(), 0);
    assert_eq!(parse_wallet_list("", SourceKind::AddressBalance).len(), 0);
}

#[test]
fn sources_are_named_after_their_wallets() {
    let csv = "0xd8dA6BF26964aF9D7eEd9e03E53415D37aA96045";
    let sources = wallet_sources(csv, SourceKind::ScrapedDashboard);
    assert_eq!(sources.len(), 1);
    assert_eq!(sources[0].name, sources[0].identifier);
    assert_eq!(sources[0].kind, SourceKind::ScrapedDashboard);
}
