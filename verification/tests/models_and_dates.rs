use balance_sync::date::Date;
use balance_sync::models::Account;
use balance_sync::models::AccountType;
use balance_sync::models::BudgetSettings;
use balance_sync::models::BudgetSummary;
use balance_sync::models::CurrencyFormat;
use balance_sync::models::Error;
use balance_sync::models::MonthDetailResponse;
use balance_sync::models::MonthDetailResponseData;
use balance_sync::models::PutTransactionWrapper;
use balance_sync::models::SaveAccount;
use balance_sync::models::budget_currency;
use balance_sync::models::choose_budget;
use balance_sync::models::create_request;
use balance_sync::models::find_account;
use balance_sync::models::new_account_request;
use balance_sync::models::update_request;
use balance_sync::models::ynab_config;
use balance_sync::reconcile::TransactionClearedStatus;

fn date(year: u16, month: u8, day: u8) -> Date {
    Date { year, month, day }
}

#[test]
fn date_ordering_is_lexicographic() {
    let a = date(2023, 12, 31);
    let b = date(2024, 1, 1);
    let c = date(2024, 1, 2);
    assert!(a.before(&b));
    assert!(b.before(&c));
    assert!(!c.before(&a));
    assert!(!b.before(&b));
}

#[test]
fn date_rejects_out_of_range_fields() {
    assert!(Date::new(2024, 0, 1).is_none());
    assert!(Date::new(2024, 13, 1).is_none());
    assert!(Date::new(2024, 1, 0).is_none());
    assert!(Date::new(2024, 1, 32).is_none());
    assert!(Date::new(2024, 2, 29).is_some());
}

#[test]
fn date_formats_zero_padded() {
    assert_eq!(date(2024, 6, 2).format_ymd(), "2024-06-02".to_string());
    assert_eq!(date(987, 11, 30).format_ymd(), "0987-11-30".to_string());
}

#[test]
fn date_parses_ledger_spelling() {
    assert_eq!(Date::parse_ymd("2024-06-02"), Some(date(2024, 6, 2)));
    assert_eq!(Date::parse_ymd("2024-6-2"), None);
    assert_eq!(Date::parse_ymd("2024/06/02"), None);
    assert_eq!(Date::parse_ymd("2024-13-02"), None);
    assert_eq!(Date::parse_ymd("not-a-date"), None);
}

#[test]
fn date_format_parse_round_trip() {
    let d = date(2024, 6, 2);
    assert_eq!(Date::parse_ymd(d.format_ymd().as_str()), Some(d));
}

#[test]
fn current_date_is_well_formed() {
    let today = balance_sync::date::today_utc().expect("current date in range");
    assert!((1..=12).contains(&today.month));
    assert!((1..=31).contains(&today.day));
    assert!(today.year >= 2024);
}

#[test]
fn error_new_keeps_fields() {
    let e = Error::new(-1021, "Timestamp out of recv window".to_string());
    assert_eq!(e.code, -1021);
    assert_eq!(e.msg, "Timestamp out of recv window".to_string());
}

#[test]
fn budget_settings_new_keeps_fields() {
    let cf = CurrencyFormat {
        iso_code: "EUR".to_string(),
        currency_symbol: "\u{20ac}".to_string(),
        decimal_digits: 2,
    };
    let s = BudgetSettings::new(None, Some(cf));
    assert!(s.date_format.is_none());
    assert_eq!(s.currency_format.unwrap().iso_code, "EUR".to_string());
}

#[test]
fn month_detail_response_new_keeps_data() {
    let data = MonthDetailResponseData {
        month: date(2024, 6, 1),
        income: 10,
        budgeted: 20,
        activity: -5,
    };
    let r = MonthDetailResponse::new(data);
    assert_eq!(r.data.month, date(2024, 6, 1));
    assert_eq!(r.data.activity, -5);
}

#[test]
fn put_transaction_wrapper_new_keeps_transaction() {
    let w = PutTransactionWrapper::new(update_request(42).transaction);
    assert_eq!(w.transaction.amount, Some(42));
}

#[test]
fn save_account_new_keeps_fields() {
    let a = SaveAccount::new("Crypto".to_string(), AccountType::OtherAsset, 0);
    assert_eq!(a.name, "Crypto".to_string());
    assert_eq!(a.balance, 0);
    assert!(matches!(a.account_type, AccountType::OtherAsset));
}

#[test]
fn ynab_config_carries_bearer_token() {
    let c = ynab_config("test-token");
    assert_eq!(c.bearer_access_token, Some("test-token".to_string()));
    assert_eq!(c.base_path, "https://api.ynab.com/v1".to_string());
}

#[test]
fn budget_choice_prefers_default_then_first() {
    let mk = |name: &str| BudgetSummary {
        id: name.to_string(),
        name: name.to_string(),
        currency_format: None,
    };
    let budgets = vec![mk("first"), mk("second")];
    let def = Some(mk("default"));
    assert_eq!(choose_budget(&def, &budgets).unwrap().name, "default".to_string());
    assert_eq!(choose_budget(&None, &budgets).unwrap().name, "first".to_string());
    let empty: Vec<BudgetSummary> = vec![];
    assert!(choose_budget(&None, &empty).is_none());
}

#[test]
fn budget_currency_reads_iso_code() {
    let b = BudgetSummary {
        id: "b".to_string(),
        name: "b".to_string(),
        currency_format: Some(Some(CurrencyFormat {
            iso_code: "EUR".to_string(),
            currency_symbol: "\u{20ac}".to_string(),
            decimal_digits: 2,
        })),
    };
    assert_eq!(budget_currency(&b), "EUR".to_string());
    let bare = BudgetSummary {
        id: "b".to_string(),
        name: "b".to_string(),
        currency_format: None,
    };
    assert_eq!(budget_currency(&bare), "".to_string());
}

#[test]
fn account_lookup_is_exact_first_match() {
    let accounts = vec![
        Account { id: "1".to_string(), name: "Cash".to_string() },
        Account { id: "2".to_string(), name: "Crypto".to_string() },
        Account { id: "3".to_string(), name: "Crypto".to_string() },
    ];
    assert_eq!(find_account(&accounts, "Crypto"), Some(1));
    assert_eq!(find_account(&accounts, "crypto"), None);
    assert_eq!(find_account(&accounts, "Stocks"), None);
}

#[test]
fn account_creation_request_shape() {
    let r = new_account_request("Crypto");
    assert_eq!(r.account.name, "Crypto".to_string());
    assert_eq!(r.account.balance, 0);
    assert!(matches!(r.account.account_type, AccountType::OtherAsset));
}

#[test]
fn update_request_touches_amount_and_cleared_only() {
    let r = update_request(112_340);
    assert_eq!(r.transaction.amount, Some(112_340));
    assert!(matches!(
        r.transaction.cleared,
        Some(TransactionClearedStatus::Cleared)
    ));
    assert!(r.transaction.account_id.is_none());
    assert!(r.transaction.date.is_none());
    assert!(r.transaction.payee_name.is_none());
}

#[test]
fn create_request_carries_all_fields() {
    let r = create_request("acct-1", date(2024, 6, 2), "wallet", 112_340);
    let t = r.transaction.unwrap();
    assert_eq!(t.account_id, Some("acct-1".to_string()));
    assert_eq!(t.date, Some(date(2024, 6, 2)));
    assert_eq!(t.amount, Some(112_340));
    assert_eq!(t.payee_name, Some(Some("wallet".to_string())));
    assert!(matches!(t.cleared, Some(TransactionClearedStatus::Cleared)));
}
