use balance_sync::date::Date;
use balance_sync::money::Rate;
use balance_sync::reconcile::ReconcileAction;
use balance_sync::reconcile::ReconcileError;
use balance_sync::reconcile::Transaction;
use balance_sync::reconcile::TransactionClearedStatus;
use balance_sync::reconcile::find_last_prior;
use balance_sync::reconcile::find_todays_entry;
use balance_sync::reconcile::reconcile_plan;
use balance_sync::reconcile::reconcile_source;

fn date(year: u16, month: u8, day: u8) -> Date {
    Date { year, month, day }
}

fn txn(id: &str, payee: &str, d: Date, amount: i64) -> Transaction {
    Transaction {
        id: id.to_string(),
        payee_name: Some(payee.to_string()),
        date: d,
        amount,
        cleared: TransactionClearedStatus::Cleared,
    }
}

#[test]
fn delta_concrete_scenario() {
    // home currency USD (identity rate), prior entry of $500.00
    // yesterday, source balance $612.34 today
    let today = date(2024, 6, 2);
    let yesterday = date(2024, 6, 1);
    let txns = vec![txn("t1", "wallet", yesterday, 500_000)];
    let rate = Rate::identity();
    let action = reconcile_source(&txns, "wallet", 612_340, &rate, &today).unwrap();
    match action {
        ReconcileAction::Create { payee_name, date: d, amount } => {
            assert_eq!(payee_name, "wallet".to_string());
            assert_eq!(d, today);
            assert_eq!(amount, 112_340);
        }
        ReconcileAction::Update { .. } => panic!("expected a create"),
    }
}

#[test]
fn existing_entry_today_is_updated() {
    let today = date(2024, 6, 2);
    let yesterday = date(2024, 6, 1);
    let txns = vec![
        txn("t1", "wallet", yesterday, 500_000),
        txn("t2", "wallet", today, 1),
    ];
    let rate = Rate::identity();
    let action = reconcile_source(&txns, "wallet", 612_340, &rate, &today).unwrap();
    match action {
        ReconcileAction::Update { transaction_id, amount } => {
            assert_eq!(transaction_id, "t2".to_string());
            assert_eq!(amount, 112_340);
        }
        ReconcileAction::Create { .. } => panic!("expected an update"),
    }
}

#[test]
fn rerun_converges_to_same_delta() {
    // idempotency, concretely: after the first run's create is applied,
    // a second run updates the same entry to the same delta
    let today = date(2024, 6, 2);
    let yesterday = date(2024, 6, 1);
    let mut txns = vec![txn("t1", "wallet", yesterday, 500_000)];
    let rate = Rate::identity();
    let first = reconcile_source(&txns, "wallet", 612_340, &rate, &today).unwrap();
    let first_amount = match first {
        ReconcileAction::Create { amount, .. } => amount,
        ReconcileAction::Update { .. } => panic!("expected a create"),
    };
    txns.push(txn("t2", "wallet", today, first_amount));
    let second = reconcile_source(&txns, "wallet", 612_340, &rate, &today).unwrap();
    match second {
        ReconcileAction::Update { transaction_id, amount } => {
            assert_eq!(transaction_id, "t2".to_string());
            assert_eq!(amount, first_amount);
        }
        ReconcileAction::Create { .. } => panic!("second run must not create"),
    }
    let count = txns
        .iter()
        .filter(|t| t.payee_name == Some("wallet".to_string()) && t.date == today)
        .count();
    assert_eq!(count, 1);
}

#[test]
fn no_prior_entry_baselines_at_zero() {
    let today = date(2024, 6, 2);
    let txns: Vec<Transaction> = vec![];
    let rate = Rate::identity();
    let action = reconcile_source(&txns, "wallet", 75_000, &rate, &today).unwrap();
    match action {
        ReconcileAction::Create { amount, .. } => assert_eq!(amount, 75_000),
        ReconcileAction::Update { .. } => panic!("expected a create"),
    }
}

#[test]
fn future_dated_entries_are_not_baseline() {
    // only entries dated before today may serve as the baseline
    let today = date(2024, 6, 2);
    let tomorrow = date(2024, 6, 3);
    let txns = vec![txn("t1", "wallet", tomorrow, 999_999)];
    let rate = Rate::identity();
    let action = reconcile_source(&txns, "wallet", 75_000, &rate, &today).unwrap();
    match action {
        ReconcileAction::Create { amount, .. } => assert_eq!(amount, 75_000),
        ReconcileAction::Update { .. } => panic!("expected a create"),
    }
}

#[test]
fn latest_duplicate_today_entry_wins() {
    // outside tampering left two entries dated today: the later one in
    // ledger order is the one amended, without an error
    let today = date(2024, 6, 2);
    let txns = vec![
        txn("a", "wallet", today, 1),
        txn("b", "wallet", today, 2),
    ];
    assert_eq!(find_todays_entry(&txns, "wallet", &today), Some(1));
}

#[test]
fn finders_respect_payee_and_date() {
    let today = date(2024, 6, 2);
    let yesterday = date(2024, 6, 1);
    let earlier = date(2024, 5, 20);
    let txns = vec![
        txn("a", "wallet", earlier, 10),
        txn("b", "other", yesterday, 20),
        txn("c", "wallet", yesterday, 30),
        txn("d", "wallet", today, 40),
    ];
    assert_eq!(find_last_prior(&txns, "wallet", &today), Some(2));
    assert_eq!(find_todays_entry(&txns, "wallet", &today), Some(3));
    assert_eq!(find_todays_entry(&txns, "other", &today), None);
    assert_eq!(find_last_prior(&txns, "missing", &today), None);
}

#[test]
fn out_of_range_amount_is_reported() {
    // a rate of one thousandth of a unit per USD: the converted value
    // ceil(u64::MAX * 1000) no longer fits a ledger amount
    let today = date(2024, 6, 2);
    let txns: Vec<Transaction> = vec![];
    let rate = Rate { num: 1, den: 1000 };
    let r = reconcile_source(&txns, "wallet", u64::MAX, &rate, &today);
    match r {
        Err(e) => assert!(matches!(e, ReconcileError::AmountOutOfRange)),
        Ok(_) => panic!("expected an out-of-range error"),
    }
}

#[test]
fn plan_covers_each_source_in_order() {
    let today = date(2024, 6, 2);
    let txns: Vec<Transaction> = vec![];
    let rate = Rate::identity();
    let balances = vec![
        ("alpha".to_string(), 1_000u64),
        ("beta".to_string(), 2_000u64),
    ];
    let plan = reconcile_plan(&txns, &balances, &rate, &today);
    assert_eq!(plan.len(), 2);
    assert_eq!(plan[0].0, "alpha".to_string());
    assert_eq!(plan[1].0, "beta".to_string());
    assert!(plan[0].1.is_ok());
    assert!(plan[1].1.is_ok());
}

#[test]
fn missing_source_gets_no_plan_entry() {
    // the adapter for "ghost" returned nothing, so it never reaches the
    // plan; its prior entries are untouched because no action names it
    let today = date(2024, 6, 2);
    let yesterday = date(2024, 6, 1);
    let txns = vec![txn("t1", "ghost", yesterday, 123)];
    let rate = Rate::identity();
    let balances = vec![("alpha".to_string(), 1_000u64)];
    let plan = reconcile_plan(&txns, &balances, &rate, &today);
    assert_eq!(plan.len(), 1);
    assert!(plan.iter().all(|(name, _)| name != "ghost"));
}
