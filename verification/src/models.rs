//! Plain models of the external services' records.
//!
//! The budgeting ledger and the exchange account speak JSON over REST;
//! the library holds their records as plain structs and states exactly
//! what its constructors and request builders put in them. (De)ser-
//! ialization and transport happen outside the library, which only
//! ever sees and produces these values.

use vstd::prelude::*;

use crate::date::Date;
use crate::reconcile::TransactionClearedStatus;
use crate::text::str_eq;

verus! {

/// An error record of the exchange API: a numeric code and a message.
pub struct Error {
    pub code: i64,
    pub msg: String,
}

impl Error {
    pub fn new(code: i64, msg: String) -> (r: Error)
        ensures
            r.code == code,
            r.msg == msg,
    {
        Error { code, msg }
    }
}

/// The ledger's date display format.
pub struct DateFormat {
    pub format: String,
}

/// The ledger's currency display format; `iso_code` names the budget's
/// home currency.
pub struct CurrencyFormat {
    pub iso_code: String,
    pub currency_symbol: String,
    pub decimal_digits: i32,
}

/// A budget's display settings.
pub struct BudgetSettings {
    pub date_format: Option<DateFormat>,
    pub currency_format: Option<CurrencyFormat>,
}

impl BudgetSettings {
    pub fn new(date_format: Option<DateFormat>, currency_format: Option<CurrencyFormat>) -> (r:
        BudgetSettings)
        ensures
            r.date_format == date_format,
            r.currency_format == currency_format,
    {
        BudgetSettings { date_format, currency_format }
    }
}

/// A budget month's headline figures, in ledger milliunits.
pub struct MonthDetailResponseData {
    pub month: Date,
    pub income: i64,
    pub budgeted: i64,
    pub activity: i64,
}

/// The ledger's response to a month query.
pub struct MonthDetailResponse {
    pub data: MonthDetailResponseData,
}

impl MonthDetailResponse {
    pub fn new(data: MonthDetailResponseData) -> (r: MonthDetailResponse)
        ensures
            r.data == data,
    {
        MonthDetailResponse { data }
    }
}

/// The kinds of account the ledger tracks.
#[derive(Clone, Copy, PartialEq, Eq, Structural, Debug)]
pub enum AccountType {
    Checking,
    Savings,
    Cash,
    CreditCard,
    LineOfCredit,
    OtherAsset,
    OtherLiability,
}

/// A request to create a ledger account, with an opening balance in
/// milliunits.
pub struct SaveAccount {
    pub name: String,
    pub account_type: AccountType,
    pub balance: i64,
}

impl SaveAccount {
    pub fn new(name: String, account_type: AccountType, balance: i64) -> (r: SaveAccount)
        ensures
            r.name == name,
            r.account_type == account_type,
            r.balance == balance,
    {
        SaveAccount { name, account_type, balance }
    }
}

/// The body of an account-creation call.
pub struct PostAccountWrapper {
    pub account: SaveAccount,
}

/// The writable fields of an existing ledger transaction; a field left
/// `None` is left untouched by the ledger.
pub struct ExistingTransaction {
    pub account_id: Option<String>,
    pub date: Option<Date>,
    pub amount: Option<i64>,
    pub payee_name: Option<Option<String>>,
    pub cleared: Option<TransactionClearedStatus>,
}

impl Default for ExistingTransaction {
    /// An update that would touch nothing.
    fn default() -> (r: ExistingTransaction)
        ensures
            r.account_id is None,
            r.date is None,
            r.amount is None,
            r.payee_name is None,
            r.cleared is None,
    {
        ExistingTransaction {
            account_id: None,
            date: None,
            amount: None,
            payee_name: None,
            cleared: None,
        }
    }
}

/// The body of a transaction-update call.
pub struct PutTransactionWrapper {
    pub transaction: ExistingTransaction,
}

impl PutTransactionWrapper {
    pub fn new(transaction: ExistingTransaction) -> (r: PutTransactionWrapper)
        ensures
            r.transaction == transaction,
    {
        PutTransactionWrapper { transaction }
    }
}

/// The fields of a transaction to be created.
pub struct NewTransaction {
    pub account_id: Option<String>,
    pub date: Option<Date>,
    pub amount: Option<i64>,
    pub payee_name: Option<Option<String>>,
    pub cleared: Option<TransactionClearedStatus>,
}

/// The body of a transaction-creation call.
pub struct PostTransactionsWrapper {
    pub transaction: Option<NewTransaction>,
}

/// A ledger account as listed by the ledger.
pub struct Account {
    pub id: String,
    pub name: String,
}

/// A budget as listed by the ledger.
pub struct BudgetSummary {
    pub id: String,
    pub name: String,
    pub currency_format: Option<Option<CurrencyFormat>>,
}

/// A connection's settings for the ledger API.
pub struct Configuration {
    pub base_path: String,
    pub user_agent: Option<String>,
    pub bearer_access_token: Option<String>,
}

/// The ledger API configuration for a bearer token.
pub fn ynab_config(bearer_access_token: &str) -> (r: Configuration)
    ensures
        r.bearer_access_token matches Some(t) && t@ == bearer_access_token@,
        r.base_path@ == "https://api.ynab.com/v1"@,
        r.user_agent is None,
{
    Configuration {
        base_path: "https://api.ynab.com/v1".to_owned(),
        user_agent: None,
        bearer_access_token: Some(bearer_access_token.to_owned()),
    }
}

/// The budget a run works in: the ledger's default budget when one is
/// set, else the first listed one; none at all is fatal at startup.
pub fn choose_budget<'a>(
    default_budget: &'a Option<BudgetSummary>,
    budgets: &'a Vec<BudgetSummary>,
) -> (r: Option<&'a BudgetSummary>)
    ensures
        match default_budget {
            Some(d) => r matches Some(b) && *b == *d,
            None => if budgets@.len() > 0 {
                r matches Some(b) && *b == budgets@[0]
            } else {
                r is None
            },
        },
{
    match default_budget {
        Some(d) => Some(d),
        None => if budgets.len() > 0 {
            Some(&budgets[0])
        } else {
            None
        },
    }
}

/// The budget's home-currency code, empty when the ledger reports no
/// currency format.
pub fn budget_currency(b: &BudgetSummary) -> (r: String)
    ensures
        match b.currency_format {
            Some(Some(cf)) => r@ == cf.iso_code@,
            _ => r@ == Seq::<char>::empty(),
        },
{
    match &b.currency_format {
        Some(Some(cf)) => cf.iso_code.clone(),
        _ => String::new(),
    }
}

/// Resolves the target account by exact name: the first listed account
/// bearing it, as the ledger lists each account once.
pub fn find_account(accounts: &Vec<Account>, name: &str) -> (r: Option<usize>)
    ensures
        match r {
            Some(i) => i < accounts@.len() && accounts@[i as int].name@ == name@ && forall|j: int|
                0 <= j < i ==> (#[trigger] accounts@[j]).name@ != name@,
            None => forall|j: int| 0 <= j < accounts@.len() ==> (#[trigger] accounts@[j]).name@
                != name@,
        },
{
    let n = accounts.len();
    let mut i: usize = 0;
    while i < n
        invariant
            i <= n == accounts@.len(),
            forall|j: int| 0 <= j < i ==> (#[trigger] accounts@[j]).name@ != name@,
        decreases n - i,
    {
        if str_eq(accounts[i].name.as_str(), name) {
            return Some(i);
        }
        i += 1;
    }
    None
}

/// The creation request for a missing target account: the given name,
/// a zero opening balance, tracked as an asset.
pub fn new_account_request(name: &str) -> (r: PostAccountWrapper)
    ensures
        r.account.name@ == name@,
        r.account.balance == 0,
        r.account.account_type == AccountType::OtherAsset,
{
    PostAccountWrapper {
        account: SaveAccount {
            name: name.to_owned(),
            account_type: AccountType::OtherAsset,
            balance: 0,
        },
    }
}

/// The update call that amends today's entry to the adjusting amount
/// and marks it cleared, touching nothing else.
pub fn update_request(amount: i64) -> (r: PutTransactionWrapper)
    ensures
        r.transaction.amount == Some(amount),
        r.transaction.cleared == Some(TransactionClearedStatus::Cleared),
        r.transaction.account_id is None,
        r.transaction.date is None,
        r.transaction.payee_name is None,
{
    PutTransactionWrapper {
        transaction: ExistingTransaction {
            account_id: None,
            date: None,
            amount: Some(amount),
            payee_name: None,
            cleared: Some(TransactionClearedStatus::Cleared),
        },
    }
}

/// The creation call for a new cleared entry of the payee, dated and
/// valued by the reconciler's decision.
pub fn create_request(account_id: &str, date: Date, payee: &str, amount: i64) -> (r:
    PostTransactionsWrapper)
    ensures
        ({
            match r.transaction {
                Some(t) => {
                    &&& match t.account_id {
                        Some(a) => a@ == account_id@,
                        None => false,
                    }
                    &&& t.date == Some(date)
                    &&& t.amount == Some(amount)
                    &&& match t.payee_name {
                        Some(Some(q)) => q@ == payee@,
                        _ => false,
                    }
                    &&& t.cleared == Some(TransactionClearedStatus::Cleared)
                },
                None => false,
            }
        }),
{
    PostTransactionsWrapper {
        transaction: Some(
            NewTransaction {
                account_id: Some(account_id.to_owned()),
                date: Some(date),
                amount: Some(amount),
                payee_name: Some(Some(payee.to_owned())),
                cleared: Some(TransactionClearedStatus::Cleared),
            },
        ),
    }
}

} // verus!
