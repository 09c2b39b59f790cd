//! The ledger reconciler.
//!
//! Once per run the caller fetches the target account's transactions
//! and the day's exchange rate; for every aggregated source the engine
//! then decides the single ledger write that makes the running balance
//! track the observed total: amend today's entry for that payee if one
//! exists, otherwise create one, its amount being the difference
//! between the converted balance and the amount of the latest entry
//! from an earlier day.

use vstd::prelude::*;

use crate::date::Date;
use crate::money::Rate;
use crate::money::ledger_units_spec;
use crate::money::to_ledger_units;
use crate::text::str_eq;

verus! {

#[derive(Clone, Copy, PartialEq, Eq, Structural, Debug)]
pub enum TransactionClearedStatus {
    Cleared,
    Uncleared,
    Reconciled,
}

/// The engine's picture of one ledger transaction: exactly the fields
/// the reconciliation decision reads or writes.
pub struct Transaction {
    pub id: String,
    pub payee_name: Option<String>,
    pub date: Date,
    pub amount: i64,
    pub cleared: TransactionClearedStatus,
}

/// The payee a transaction is attributed to, if any.
pub open spec fn payee_view(t: Transaction) -> Option<Seq<char>> {
    match t.payee_name {
        Some(p) => Some(p@),
        None => None,
    }
}

pub open spec fn matches_payee(t: Transaction, payee: Seq<char>) -> bool {
    payee_view(t) == Some(payee)
}

/// A transaction of `payee` dated exactly `today`.
pub open spec fn is_todays(t: Transaction, payee: Seq<char>, today: Date) -> bool {
    matches_payee(t, payee) && t.date == today
}

/// A transaction of `payee` from an earlier day.
pub open spec fn is_prior(t: Transaction, payee: Seq<char>, today: Date) -> bool {
    matches_payee(t, payee) && t.date.spec_before(today)
}

/// The position of the last transaction of `payee` dated `today`: with
/// several such entries (outside tampering), the latest in
/// ledger-assigned order is the one acted upon.
pub open spec fn last_todays_index(s: Seq<Transaction>, payee: Seq<char>, today: Date) -> Option<
    int,
>
    decreases s.len(),
{
    if s.len() == 0 {
        None
    } else if is_todays(s.last(), payee, today) {
        Some(s.len() - 1)
    } else {
        last_todays_index(s.drop_last(), payee, today)
    }
}

/// The position of the last transaction of `payee` dated before
/// `today`: the baseline entry.
pub open spec fn last_prior_index(s: Seq<Transaction>, payee: Seq<char>, today: Date) -> Option<
    int,
>
    decreases s.len(),
{
    if s.len() == 0 {
        None
    } else if is_prior(s.last(), payee, today) {
        Some(s.len() - 1)
    } else {
        last_prior_index(s.drop_last(), payee, today)
    }
}

pub proof fn lemma_last_todays_index(s: Seq<Transaction>, payee: Seq<char>, today: Date)
    ensures
        match last_todays_index(s, payee, today) {
            Some(i) => 0 <= i < s.len() && is_todays(s[i], payee, today) && forall|j: int|
                i < j < s.len() ==> !is_todays(s[j], payee, today),
            None => forall|j: int| 0 <= j < s.len() ==> !is_todays(s[j], payee, today),
        },
    decreases s.len(),
{
    if s.len() > 0 && !is_todays(s.last(), payee, today) {
        lemma_last_todays_index(s.drop_last(), payee, today);
        match last_todays_index(s.drop_last(), payee, today) {
            Some(i) => {
                assert(s[i] == s.drop_last()[i]);
                assert forall|j: int| i < j < s.len() implies !is_todays(s[j], payee, today) by {
                    if j < s.len() - 1 {
                        assert(s[j] == s.drop_last()[j]);
                        assert(!is_todays(s.drop_last()[j], payee, today));
                    }
                }
            },
            None => {
                assert forall|j: int| 0 <= j < s.len() implies !is_todays(s[j], payee, today) by {
                    if j < s.len() - 1 {
                        assert(s[j] == s.drop_last()[j]);
                        assert(!is_todays(s.drop_last()[j], payee, today));
                    }
                }
            },
        }
    }
}

pub proof fn lemma_last_prior_index(s: Seq<Transaction>, payee: Seq<char>, today: Date)
    ensures
        match last_prior_index(s, payee, today) {
            Some(i) => 0 <= i < s.len() && is_prior(s[i], payee, today) && forall|j: int|
                i < j < s.len() ==> !is_prior(s[j], payee, today),
            None => forall|j: int| 0 <= j < s.len() ==> !is_prior(s[j], payee, today),
        },
    decreases s.len(),
{
    if s.len() > 0 && !is_prior(s.last(), payee, today) {
        lemma_last_prior_index(s.drop_last(), payee, today);
        match last_prior_index(s.drop_last(), payee, today) {
            Some(i) => {
                assert(s[i] == s.drop_last()[i]);
                assert forall|j: int| i < j < s.len() implies !is_prior(s[j], payee, today) by {
                    if j < s.len() - 1 {
                        assert(s[j] == s.drop_last()[j]);
                        assert(!is_prior(s.drop_last()[j], payee, today));
                    }
                }
            },
            None => {
                assert forall|j: int| 0 <= j < s.len() implies !is_prior(s[j], payee, today) by {
                    if j < s.len() - 1 {
                        assert(s[j] == s.drop_last()[j]);
                        assert(!is_prior(s.drop_last()[j], payee, today));
                    }
                }
            },
        }
    }
}

/// Whether the transaction is attributed to `payee`.
fn txn_matches_payee(t: &Transaction, payee: &str) -> (r: bool)
    ensures
        r == matches_payee(*t, payee@),
{
    match &t.payee_name {
        Some(p) => str_eq(p.as_str(), payee),
        None => false,
    }
}

/// Finds the entry dated `today` that the run must amend, if any: the
/// last one in ledger order.
pub fn find_todays_entry(txns: &Vec<Transaction>, payee: &str, today: &Date) -> (r: Option<usize>)
    ensures
        match r {
            Some(i) => last_todays_index(txns@, payee@, *today) == Some(i as int),
            None => last_todays_index(txns@, payee@, *today) is None,
        },
{
    let n = txns.len();
    let mut best: Option<usize> = None;
    let mut k: usize = 0;
    while k < n
        invariant
            k <= n == txns@.len(),
            match best {
                Some(b) => b < k && is_todays(txns@[b as int], payee@, *today) && forall|j: int|
                    b < j < k ==> !is_todays(txns@[j], payee@, *today),
                None => forall|j: int| 0 <= j < k ==> !is_todays(txns@[j], payee@, *today),
            },
        decreases n - k,
    {
        let t = &txns[k];
        if txn_matches_payee(t, payee) && t.date == *today {
            best = Some(k);
        }
        k += 1;
    }
    proof {
        lemma_last_todays_index(txns@, payee@, *today);
        match last_todays_index(txns@, payee@, *today) {
            Some(i) => {
                match best {
                    Some(b) => {
                        if (b as int) < i {
                            assert(!is_todays(txns@[i], payee@, *today));
                        } else if i < b as int {
                            assert(!is_todays(txns@[b as int], payee@, *today));
                        }
                    },
                    None => {
                        assert(!is_todays(txns@[i], payee@, *today));
                    },
                }
            },
            None => {
                match best {
                    Some(b) => {
                        assert(!is_todays(txns@[b as int], payee@, *today));
                    },
                    None => {},
                }
            },
        }
    }
    best
}

/// Finds the baseline entry: the last transaction of `payee` dated
/// before `today`, if any.
pub fn find_last_prior(txns: &Vec<Transaction>, payee: &str, today: &Date) -> (r: Option<usize>)
    ensures
        match r {
            Some(i) => last_prior_index(txns@, payee@, *today) == Some(i as int),
            None => last_prior_index(txns@, payee@, *today) is None,
        },
{
    let n = txns.len();
    let mut best: Option<usize> = None;
    let mut k: usize = 0;
    while k < n
        invariant
            k <= n == txns@.len(),
            match best {
                Some(b) => b < k && is_prior(txns@[b as int], payee@, *today) && forall|j: int|
                    b < j < k ==> !is_prior(txns@[j], payee@, *today),
                None => forall|j: int| 0 <= j < k ==> !is_prior(txns@[j], payee@, *today),
            },
        decreases n - k,
    {
        let t = &txns[k];
        if txn_matches_payee(t, payee) && t.date.before(today) {
            best = Some(k);
        }
        k += 1;
    }
    proof {
        lemma_last_prior_index(txns@, payee@, *today);
        match last_prior_index(txns@, payee@, *today) {
            Some(i) => {
                match best {
                    Some(b) => {
                        if (b as int) < i {
                            assert(!is_prior(txns@[i], payee@, *today));
                        } else if i < b as int {
                            assert(!is_prior(txns@[b as int], payee@, *today));
                        }
                    },
                    None => {
                        assert(!is_prior(txns@[i], payee@, *today));
                    },
                }
            },
            None => {
                match best {
                    Some(b) => {
                        assert(!is_prior(txns@[b as int], payee@, *today));
                    },
                    None => {},
                }
            },
        }
    }
    best
}

/// The amount the running balance stood at after the last prior-day
/// entry, or zero when the payee has no earlier entry.
pub open spec fn baseline_spec(s: Seq<Transaction>, payee: Seq<char>, today: Date) -> int {
    match last_prior_index(s, payee, today) {
        Some(i) => s[i].amount as int,
        None => 0,
    }
}

/// The adjusting amount: converted balance minus baseline.
pub open spec fn delta_spec(
    s: Seq<Transaction>,
    payee: Seq<char>,
    amount_milli: int,
    rate: Rate,
    today: Date,
) -> int {
    ledger_units_spec(amount_milli, rate) - baseline_spec(s, payee, today)
}

/// The one ledger write a source needs this run.
pub enum ReconcileAction {
    /// Amend the amount of the existing entry dated today.
    Update { transaction_id: String, amount: i64 },
    /// Create a new cleared entry dated today.
    Create { payee_name: String, date: Date, amount: i64 },
}

#[derive(Clone, Copy, PartialEq, Eq, Structural, Debug)]
pub enum ReconcileError {
    /// The converted balance or the adjusting amount does not fit a
    /// ledger amount.
    AmountOutOfRange,
}

/// When reconciliation of a source succeeds: whenever the converted
/// balance and the adjusting amount fit the ledger's amount range.
pub open spec fn outcome_ok(
    s: Seq<Transaction>,
    payee: Seq<char>,
    amount_milli: int,
    rate: Rate,
    today: Date,
) -> bool {
    &&& ledger_units_spec(amount_milli, rate) <= i64::MAX
    &&& i64::MIN <= delta_spec(s, payee, amount_milli, rate, today) <= i64::MAX
}

/// The action a successful reconciliation must propose.
pub open spec fn action_matches(
    a: ReconcileAction,
    s: Seq<Transaction>,
    payee: Seq<char>,
    amount_milli: int,
    rate: Rate,
    today: Date,
) -> bool {
    let delta = delta_spec(s, payee, amount_milli, rate, today);
    match last_todays_index(s, payee, today) {
        Some(i) => a matches ReconcileAction::Update { transaction_id, amount }
            && transaction_id@ == s[i].id@ && amount == delta,
        None => a matches ReconcileAction::Create { payee_name, date, amount } && payee_name@
            == payee && date == today && amount == delta,
    }
}

/// Decides the ledger write for one source: convert the USD balance to
/// home-currency ledger units, subtract the baseline, and amend today's
/// entry if one exists, else create one dated today.
pub fn reconcile_source(
    txns: &Vec<Transaction>,
    payee: &str,
    amount_usd_milli: u64,
    rate: &Rate,
    today: &Date,
) -> (r: Result<ReconcileAction, ReconcileError>)
    requires
        rate.wf(),
    ensures
        r is Ok <==> outcome_ok(txns@, payee@, amount_usd_milli as int, *rate, *today),
        r matches Ok(a) ==> action_matches(
            a,
            txns@,
            payee@,
            amount_usd_milli as int,
            *rate,
            *today,
        ),
        r is Err ==> r == Result::<ReconcileAction, ReconcileError>::Err(
            ReconcileError::AmountOutOfRange,
        ),
{
    let units: i64 = match to_ledger_units(amount_usd_milli, rate) {
        Some(u) => u,
        None => {
            return Err(ReconcileError::AmountOutOfRange);
        },
    };
    proof {
        lemma_last_prior_index(txns@, payee@, *today);
        lemma_last_todays_index(txns@, payee@, *today);
    }
    let baseline: i64 = match find_last_prior(txns, payee, today) {
        Some(i) => txns[i].amount,
        None => 0,
    };
    let delta_wide: i128 = (units as i128) - (baseline as i128);
    if delta_wide < i64::MIN as i128 || delta_wide > i64::MAX as i128 {
        return Err(ReconcileError::AmountOutOfRange);
    }
    let delta: i64 = delta_wide as i64;
    match find_todays_entry(txns, payee, today) {
        Some(i) => Ok(
            ReconcileAction::Update { transaction_id: txns[i].id.clone(), amount: delta },
        ),
        None => Ok(
            ReconcileAction::Create { payee_name: payee.to_owned(), date: *today, amount: delta },
        ),
    }
}

/// Decides the whole run's ledger writes: one outcome per aggregated
/// source, in order, each judged against the same transaction snapshot,
/// rate and date.
pub fn reconcile_plan(
    txns: &Vec<Transaction>,
    balances: &Vec<(String, u64)>,
    rate: &Rate,
    today: &Date,
) -> (r: Vec<(String, Result<ReconcileAction, ReconcileError>)>)
    requires
        rate.wf(),
    ensures
        r@.len() == balances@.len(),
        forall|i: int| 0 <= i < balances@.len() ==> (#[trigger] r@[i]).0 == balances@[i].0,
        forall|i: int| 0 <= i < balances@.len() ==> ((#[trigger] r@[i]).1 is Ok <==> outcome_ok(
            txns@,
            balances@[i].0@,
            balances@[i].1 as int,
            *rate,
            *today,
        )),
        forall|i: int| 0 <= i < balances@.len() ==> ((#[trigger] r@[i]).1 matches Ok(a)
            ==> action_matches(a, txns@, balances@[i].0@, balances@[i].1 as int, *rate, *today)),
{
    let n = balances.len();
    let mut r: Vec<(String, Result<ReconcileAction, ReconcileError>)> = Vec::new();
    let mut i: usize = 0;
    while i < n
        invariant
            i <= n == balances@.len(),
            rate.wf(),
            r@.len() == i,
            forall|k: int| 0 <= k < i ==> (#[trigger] r@[k]).0 == balances@[k].0,
            forall|k: int| 0 <= k < i ==> ((#[trigger] r@[k]).1 is Ok <==> outcome_ok(
                txns@,
                balances@[k].0@,
                balances@[k].1 as int,
                *rate,
                *today,
            )),
            forall|k: int| 0 <= k < i ==> ((#[trigger] r@[k]).1 matches Ok(a) ==> action_matches(
                a,
                txns@,
                balances@[k].0@,
                balances@[k].1 as int,
                *rate,
                *today,
            )),
        decreases n - i,
    {
        let name = balances[i].0.clone();
        let outcome = reconcile_source(txns, balances[i].0.as_str(), balances[i].1, rate, today);
        r.push((name, outcome));
        i += 1;
    }
    r
}

// What the ledger does with a proposed action, as a mathematical model:
// an update rewrites the amount of the entry carrying the given id and
// marks it cleared; a create appends a new entry under a
// ledger-assigned id. The laws below are stated against this model.

/// The entry a `Create` action results in.
pub open spec fn created_txn(new_id: String, payee: String, date: Date, amount: i64) -> Transaction {
    Transaction {
        id: new_id,
        payee_name: Some(payee),
        date,
        amount,
        cleared: TransactionClearedStatus::Cleared,
    }
}

/// The transaction list after the entry with `id` has its amount
/// rewritten and is marked cleared.
pub open spec fn apply_update(s: Seq<Transaction>, id: Seq<char>, amount: i64) -> Seq<Transaction> {
    Seq::new(
        s.len(),
        |i: int|
            if s[i].id@ == id {
                Transaction {
                    id: s[i].id,
                    payee_name: s[i].payee_name,
                    date: s[i].date,
                    amount,
                    cleared: TransactionClearedStatus::Cleared,
                }
            } else {
                s[i]
            },
    )
}

/// The transaction list after the ledger performs `a`, assigning
/// `new_id` to a created entry.
pub open spec fn apply_action(s: Seq<Transaction>, a: ReconcileAction, new_id: String) -> Seq<
    Transaction,
> {
    match a {
        ReconcileAction::Update { transaction_id, amount } => apply_update(
            s,
            transaction_id@,
            amount,
        ),
        ReconcileAction::Create { payee_name, date, amount } => s.push(
            created_txn(new_id, payee_name, date, amount),
        ),
    }
}

/// How many entries of `payee` are dated `today`.
pub open spec fn count_todays(s: Seq<Transaction>, payee: Seq<char>, today: Date) -> nat
    decreases s.len(),
{
    if s.len() == 0 {
        0
    } else {
        count_todays(s.drop_last(), payee, today) + if is_todays(s.last(), payee, today) {
            1nat
        } else {
            0nat
        }
    }
}

/// A valid ledger assigns each transaction a distinct id.
pub open spec fn distinct_ids(s: Seq<Transaction>) -> bool {
    forall|i: int, j: int| 0 <= i < j < s.len() ==> (#[trigger] s[i].id@) != (#[trigger] s[j].id@)
}

/// A payee has no entry dated today exactly when there is none to amend.
pub proof fn lemma_count_vs_index(s: Seq<Transaction>, payee: Seq<char>, today: Date)
    ensures
        count_todays(s, payee, today) == 0 <==> last_todays_index(s, payee, today) is None,
    decreases s.len(),
{
    if s.len() > 0 {
        lemma_count_vs_index(s.drop_last(), payee, today);
    }
}

/// Entry counts, the entry to amend and the baseline entry depend only
/// on each transaction's payee and date; rewriting amounts and cleared
/// flags moves none of them.
pub proof fn lemma_finders_shape(
    s1: Seq<Transaction>,
    s2: Seq<Transaction>,
    payee: Seq<char>,
    today: Date,
)
    requires
        s1.len() == s2.len(),
        forall|i: int| 0 <= i < s1.len() ==> payee_view(#[trigger] s1[i]) == payee_view(s2[i])
            && s1[i].date == s2[i].date,
    ensures
        last_todays_index(s1, payee, today) == last_todays_index(s2, payee, today),
        last_prior_index(s1, payee, today) == last_prior_index(s2, payee, today),
        count_todays(s1, payee, today) == count_todays(s2, payee, today),
    decreases s1.len(),
{
    if s1.len() > 0 {
        assert forall|i: int| 0 <= i < s1.drop_last().len() implies payee_view(
            #[trigger] s1.drop_last()[i],
        ) == payee_view(s2.drop_last()[i]) && s1.drop_last()[i].date == s2.drop_last()[i].date by {
            assert(s1.drop_last()[i] == s1[i]);
            assert(s2.drop_last()[i] == s2[i]);
        }
        lemma_finders_shape(s1.drop_last(), s2.drop_last(), payee, today);
        assert(payee_view(s1.last()) == payee_view(s2.last()));
        assert(s1.last().date == s2.last().date);
    }
}

/// Appending an entry dated today moves neither the baseline entry nor
/// its amount, and raises today's entry count by one.
pub proof fn lemma_push_today(s: Seq<Transaction>, t: Transaction, payee: Seq<char>, today: Date)
    requires
        is_todays(t, payee, today),
    ensures
        last_todays_index(s.push(t), payee, today) == Some(s.len() as int),
        last_prior_index(s.push(t), payee, today) == last_prior_index(s, payee, today),
        baseline_spec(s.push(t), payee, today) == baseline_spec(s, payee, today),
        count_todays(s.push(t), payee, today) == count_todays(s, payee, today) + 1,
{
    let s2 = s.push(t);
    assert(s2.drop_last() =~= s);
    assert(s2.last() == t);
    assert(!is_prior(t, payee, today));
    lemma_last_prior_index(s, payee, today);
    match last_prior_index(s, payee, today) {
        Some(i) => {
            assert(s2[i] == s[i]);
        },
        None => {},
    }
}

/// Rewriting the amount of the entry dated today leaves the baseline
/// amount unchanged, provided ledger ids are unique.
pub proof fn lemma_update_keeps_baseline(
    s: Seq<Transaction>,
    payee: Seq<char>,
    today: Date,
    ti: int,
    amount: i64,
)
    requires
        distinct_ids(s),
        last_todays_index(s, payee, today) == Some(ti),
    ensures
        ({
            let s2 = apply_update(s, s[ti].id@, amount);
            &&& last_todays_index(s2, payee, today) == Some(ti)
            &&& count_todays(s2, payee, today) == count_todays(s, payee, today)
            &&& baseline_spec(s2, payee, today) == baseline_spec(s, payee, today)
        }),
{
    let s2 = apply_update(s, s[ti].id@, amount);
    lemma_last_todays_index(s, payee, today);
    assert forall|i: int| 0 <= i < s.len() implies payee_view(#[trigger] s2[i]) == payee_view(s[i])
        && s2[i].date == s[i].date by {}
    lemma_finders_shape(s2, s, payee, today);
    lemma_last_prior_index(s, payee, today);
    match last_prior_index(s, payee, today) {
        Some(p) => {
            assert(is_prior(s[p], payee, today));
            assert(is_todays(s[ti], payee, today));
            assert(p != ti);
            assert(s[p].id@ != s[ti].id@);
            assert(s2[p] == s[p]);
        },
        None => {},
    }
}

/// The action a run decides for one source, as a value: what
/// `reconcile_source` returns whenever the amounts are in range.
pub open spec fn decide_spec(
    s: Seq<Transaction>,
    payee: String,
    amount_milli: int,
    rate: Rate,
    today: Date,
) -> ReconcileAction {
    let delta = delta_spec(s, payee@, amount_milli, rate, today) as i64;
    match last_todays_index(s, payee@, today) {
        Some(i) => ReconcileAction::Update { transaction_id: s[i].id, amount: delta },
        None => ReconcileAction::Create { payee_name: payee, date: today, amount: delta },
    }
}

/// One reconciliation run against the ledger model: decide the action
/// for the observed balance and let the ledger perform it, a created
/// entry receiving the ledger-assigned `new_id`.
pub open spec fn run_once(
    s: Seq<Transaction>,
    payee: String,
    amount_milli: int,
    rate: Rate,
    today: Date,
    new_id: String,
) -> Seq<Transaction> {
    apply_action(s, decide_spec(s, payee, amount_milli, rate, today), new_id)
}

/// Law (idempotency): with the source balance and the prior-day entries
/// unchanged, a second same-day run computes the same delta as the
/// first, creates nothing, and exactly one transaction dated today
/// exists for the payee after either run.
pub proof fn lemma_reconcile_idempotent(
    s: Seq<Transaction>,
    payee: String,
    amount_milli: int,
    rate: Rate,
    today: Date,
    id1: String,
    id2: String,
)
    requires
        distinct_ids(s),
        forall|i: int| 0 <= i < s.len() ==> (#[trigger] s[i].id@) != id1@,
        count_todays(s, payee@, today) == 0,
    ensures
        ({
            let s2 = run_once(s, payee, amount_milli, rate, today, id1);
            let s3 = run_once(s2, payee, amount_milli, rate, today, id2);
            &&& delta_spec(s2, payee@, amount_milli, rate, today) == delta_spec(
                s,
                payee@,
                amount_milli,
                rate,
                today,
            )
            &&& count_todays(s2, payee@, today) == 1
            &&& count_todays(s3, payee@, today) == 1
            &&& s3.len() == s2.len()
        }),
{
    lemma_count_vs_index(s, payee@, today);
    let delta1 = delta_spec(s, payee@, amount_milli, rate, today) as i64;
    let t = created_txn(id1, payee, today, delta1);
    let s2 = run_once(s, payee, amount_milli, rate, today, id1);
    assert(s2 == s.push(t));
    lemma_push_today(s, t, payee@, today);
    let s3 = run_once(s2, payee, amount_milli, rate, today, id2);
    assert(last_todays_index(s2, payee@, today) == Some(s.len() as int));
    assert forall|i: int, j: int| 0 <= i < j < s2.len() implies (#[trigger] s2[i].id@) != (
    #[trigger] s2[j].id@) by {
        if j < s.len() {
            assert(s2[i] == s[i]);
            assert(s2[j] == s[j]);
        } else {
            assert(s2[j] == t);
            assert(s2[i] == s[i]);
        }
    }
    lemma_update_keeps_baseline(
        s2,
        payee@,
        today,
        s.len() as int,
        delta_spec(s2, payee@, amount_milli, rate, today) as i64,
    );
}

/// Law (one write, bounded effect): performing the action a
/// reconciliation proposes touches only today's entry of the payee —
/// the baseline entry and its amount stay as they were, and afterwards
/// the payee has exactly one entry dated today unless tampering had
/// already left several, whose number an update never grows.
pub proof fn lemma_apply_matching_action(
    s: Seq<Transaction>,
    a: ReconcileAction,
    payee: Seq<char>,
    amount_milli: int,
    rate: Rate,
    today: Date,
    new_id: String,
)
    requires
        distinct_ids(s),
        action_matches(a, s, payee, amount_milli, rate, today),
    ensures
        ({
            let s2 = apply_action(s, a, new_id);
            &&& baseline_spec(s2, payee, today) == baseline_spec(s, payee, today)
            &&& count_todays(s2, payee, today) == if count_todays(s, payee, today) == 0 {
                1nat
            } else {
                count_todays(s, payee, today)
            }
        }),
{
    lemma_count_vs_index(s, payee, today);
    match last_todays_index(s, payee, today) {
        Some(ti) => {
            match a {
                ReconcileAction::Update { transaction_id, amount } => {
                    assert(apply_action(s, a, new_id) == apply_update(s, s[ti].id@, amount));
                    lemma_update_keeps_baseline(s, payee, today, ti, amount);
                },
                ReconcileAction::Create { .. } => {
                    assert(false);
                },
            }
        },
        None => {
            match a {
                ReconcileAction::Create { payee_name, date, amount } => {
                    let t = created_txn(new_id, payee_name, date, amount);
                    assert(is_todays(t, payee, today));
                    lemma_push_today(s, t, payee, today);
                },
                ReconcileAction::Update { .. } => {
                    assert(false);
                },
            }
        },
    }
}

/// Law (idempotency, amending): a same-day re-run on a ledger that
/// already holds an entry of the payee dated today amends it in place —
/// the delta is unchanged, nothing is created, and the entry count
/// stays what it was.
pub proof fn lemma_rerun_amends_in_place(
    s: Seq<Transaction>,
    payee: String,
    amount_milli: int,
    rate: Rate,
    today: Date,
    new_id: String,
)
    requires
        distinct_ids(s),
        count_todays(s, payee@, today) >= 1,
    ensures
        ({
            let s2 = run_once(s, payee, amount_milli, rate, today, new_id);
            &&& delta_spec(s2, payee@, amount_milli, rate, today) == delta_spec(
                s,
                payee@,
                amount_milli,
                rate,
                today,
            )
            &&& count_todays(s2, payee@, today) == count_todays(s, payee@, today)
            &&& s2.len() == s.len()
        }),
{
    lemma_count_vs_index(s, payee@, today);
    let ti = last_todays_index(s, payee@, today)->0;
    lemma_update_keeps_baseline(
        s,
        payee@,
        today,
        ti,
        delta_spec(s, payee@, amount_milli, rate, today) as i64,
    );
}

/// A sequence of same-day reconciliation runs, one per observed
/// balance, each created entry receiving the matching ledger id.
pub open spec fn run_many(
    s: Seq<Transaction>,
    payee: String,
    amounts: Seq<int>,
    rate: Rate,
    today: Date,
    ids: Seq<String>,
) -> Seq<Transaction>
    decreases amounts.len(),
{
    if amounts.len() == 0 || ids.len() == 0 {
        s
    } else {
        run_many(
            run_once(s, payee, amounts[0], rate, today, ids[0]),
            payee,
            amounts.drop_first(),
            rate,
            today,
            ids.drop_first(),
        )
    }
}

/// A run against a ledger that already has exactly one entry of the
/// payee dated today amends it and keeps the count at one.
pub proof fn lemma_run_preserves_single(
    s: Seq<Transaction>,
    payee: String,
    amount_milli: int,
    rate: Rate,
    today: Date,
    new_id: String,
)
    requires
        count_todays(s, payee@, today) >= 1,
    ensures
        count_todays(run_once(s, payee, amount_milli, rate, today, new_id), payee@, today)
            == count_todays(s, payee@, today),
        run_once(s, payee, amount_milli, rate, today, new_id).len() == s.len(),
{
    lemma_count_vs_index(s, payee@, today);
    let ti = last_todays_index(s, payee@, today)->0;
    lemma_last_todays_index(s, payee@, today);
    let delta = delta_spec(s, payee@, amount_milli, rate, today) as i64;
    let s2 = apply_update(s, s[ti].id@, delta);
    assert forall|i: int| 0 <= i < s.len() implies payee_view(#[trigger] s2[i]) == payee_view(s[i])
        && s2[i].date == s[i].date by {}
    lemma_finders_shape(s2, s, payee@, today);
}

/// Law (at most one entry per day): any number of same-day runs on a
/// ledger with no entry of the payee dated today leaves exactly one
/// such entry — the first run creates it, every later run amends it.
pub proof fn lemma_at_most_one_per_day(
    s: Seq<Transaction>,
    payee: String,
    amounts: Seq<int>,
    rate: Rate,
    today: Date,
    ids: Seq<String>,
)
    requires
        count_todays(s, payee@, today) == 0,
        amounts.len() >= 1,
        ids.len() == amounts.len(),
    ensures
        count_todays(run_many(s, payee, amounts, rate, today, ids), payee@, today) == 1,
{
    lemma_count_vs_index(s, payee@, today);
    let s2 = run_once(s, payee, amounts[0], rate, today, ids[0]);
    let delta = delta_spec(s, payee@, amounts[0], rate, today) as i64;
    let t = created_txn(ids[0], payee, today, delta);
    assert(s2 == s.push(t));
    lemma_push_today(s, t, payee@, today);
    lemma_run_many_single(s2, payee, amounts.drop_first(), rate, today, ids.drop_first());
}

/// Any number of same-day runs on a ledger with exactly one entry of
/// the payee dated today keeps that count at one.
pub proof fn lemma_run_many_single(
    s: Seq<Transaction>,
    payee: String,
    amounts: Seq<int>,
    rate: Rate,
    today: Date,
    ids: Seq<String>,
)
    requires
        count_todays(s, payee@, today) == 1,
    ensures
        count_todays(run_many(s, payee, amounts, rate, today, ids), payee@, today) == 1,
    decreases amounts.len(),
{
    if amounts.len() == 0 || ids.len() == 0 {
    } else {
        lemma_run_preserves_single(s, payee, amounts[0], rate, today, ids[0]);
        lemma_run_many_single(
            run_once(s, payee, amounts[0], rate, today, ids[0]),
            payee,
            amounts.drop_first(),
            rate,
            today,
            ids.drop_first(),
        );
    }
}

} // verus!
