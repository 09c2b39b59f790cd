use balance_sync::adapters::WalletBalance;
use balance_sync::adapters::exchange_value_usd_milli;
use balance_sync::adapters::price_from_quotes;
use balance_sync::adapters::satoshi_value_usd_milli;
use balance_sync::adapters::sum_asset_balances;
use balance_sync::money::Rate;
use balance_sync::money::mul_div_milli;
use balance_sync::money::to_ledger_units;
use balance_sync::text::parse_dashboard_amount;
use balance_sync::text::parse_decimal_str;

#[test]
fn decimal_whole_number() {
    assert_eq!(parse_decimal_str("75"), Some(75000));
}

#[test]
fn decimal_two_places() {
    assert_eq!(parse_decimal_str("612.34"), Some(612340));
}

#[test]
fn decimal_leading_point() {
    assert_eq!(parse_decimal_str(".5"), Some(500));
}

#[test]
fn decimal_trailing_point() {
    assert_eq!(parse_decimal_str("1."), Some(1000));
}

#[test]
fn decimal_deep_fraction_truncates() {
    assert_eq!(parse_decimal_str("1.2345"), Some(1234));
}

#[test]
fn decimal_rejects_garbage() {
    assert_eq!(parse_decimal_str(""), None);
    assert_eq!(parse_decimal_str("."), None);
    assert_eq!(parse_decimal_str("12x"), None);
    assert_eq!(parse_decimal_str("1.2.3"), None);
    assert_eq!(parse_decimal_str("-5"), None);
}

#[test]
fn dashboard_strips_symbol_and_separators() {
    assert_eq!(parse_dashboard_amount("$1,234.56", ""), Some(1234560));
}

#[test]
fn dashboard_uses_first_line() {
    assert_eq!(parse_dashboard_amount("$2,000\nsecond line", ""), Some(2000000));
}

#[test]
fn dashboard_handles_crlf() {
    assert_eq!(parse_dashboard_amount("$12\r\nrest", ""), Some(12000));
}

#[test]
fn dashboard_unrendered_page_is_none() {
    assert_eq!(parse_dashboard_amount("loading...", ""), None);
    assert_eq!(parse_dashboard_amount("", ""), None);
}

#[test]
fn dashboard_title_suffix_stripped() {
    assert_eq!(
        parse_dashboard_amount("$2,000 USD | Step", " USD | Step"),
        Some(2000000)
    );
}

#[test]
fn exchange_balances_sum_and_price() {
    let balances = vec![
        WalletBalance {
            activate: true,
            balance: "1.5".to_string(),
            wallet_name: "Spot".to_string(),
        },
        WalletBalance {
            activate: false,
            balance: "0.5".to_string(),
            wallet_name: "Funding".to_string(),
        },
    ];
    assert_eq!(sum_asset_balances(&balances), Some(2000));
    // two coins at $60,000 each: $120,000
    assert_eq!(exchange_value_usd_milli(&balances, 60_000_000), Some(120_000_000));
}

#[test]
fn exchange_balance_unreadable_is_failure() {
    let balances = vec![WalletBalance {
        activate: true,
        balance: "n/a".to_string(),
        wallet_name: "Spot".to_string(),
    }];
    assert_eq!(sum_asset_balances(&balances), None);
    assert_eq!(exchange_value_usd_milli(&balances, 60_000_000), None);
}

#[test]
fn satoshi_pricing() {
    // a whole coin at $65,000
    assert_eq!(satoshi_value_usd_milli(100_000_000, 65_000_000), Some(65_000_000));
    // half a coin
    assert_eq!(satoshi_value_usd_milli(50_000_000, 65_000_000), Some(32_500_000));
}

#[test]
fn ticker_price_comes_from_first_quote() {
    let quotes = vec!["65000.12".to_string(), "1.0".to_string()];
    assert_eq!(price_from_quotes(&quotes), Some(65_000_120));
    let empty: Vec<String> = vec![];
    assert_eq!(price_from_quotes(&empty), None);
}

#[test]
fn mul_div_rounds_down() {
    assert_eq!(mul_div_milli(7, 3, 2), Some(10));
}

#[test]
fn ledger_units_rounds_up() {
    // $612.34 at the identity rate
    let one = Rate::identity();
    assert_eq!(to_ledger_units(612340, &one), Some(612340));
    // rounding up: 1 milliunit at rate 3 (num 3, den 1) -> ceil(1/3) = 1
    let three = Rate { num: 3, den: 1 };
    assert_eq!(to_ledger_units(1, &three), Some(1));
}

#[test]
fn non_usd_conversion() {
    // home currency EUR, rate EUR->USD 1.08, balance $1080.00
    let rate = Rate { num: 1080, den: 1000 };
    assert_eq!(to_ledger_units(1_080_000, &rate), Some(1_000_000));
}
