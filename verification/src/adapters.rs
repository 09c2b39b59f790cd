//! The compute side of the balance adapters.
//!
//! Each adapter's transport — signed exchange calls, explorer requests,
//! browser scraping — stays outside the library and hands in plain
//! values: decimal-string asset balances, a balance in a chain's
//! smallest unit, a quoted USD price. What is computed from those
//! values is decided and proved here.

use vstd::prelude::*;

use crate::money::mul_div_milli;
use crate::text::decimal_milli;
use crate::text::decimal_result;
use crate::text::lemma_decimal_milli_nonneg;
use crate::text::parse_decimal_str;

verus! {

/// One asset-balance record of an exchange account, as its API reports
/// it: amounts come as decimal strings.
pub struct WalletBalance {
    pub activate: bool,
    pub balance: String,
    pub wallet_name: String,
}

/// The total of an account's asset balances, in asset milliunits:
/// undefined as soon as one record's amount is not a decimal literal.
pub open spec fn balances_milli(s: Seq<WalletBalance>) -> Option<int>
    decreases s.len(),
{
    if s.len() == 0 {
        Some(0)
    } else {
        match (balances_milli(s.drop_last()), decimal_milli(s.last().balance@)) {
            (Some(a), Some(b)) => Some(a + b),
            _ => None,
        }
    }
}

/// A defined balance total is never negative.
pub proof fn lemma_balances_nonneg(s: Seq<WalletBalance>)
    ensures
        balances_milli(s) matches Some(m) ==> m >= 0,
    decreases s.len(),
{
    if s.len() > 0 {
        lemma_balances_nonneg(s.drop_last());
        lemma_decimal_milli_nonneg(s.last().balance@);
    }
}

/// One unreadable record makes the whole total undefined.
proof fn lemma_balances_none(s: Seq<WalletBalance>, i: int)
    requires
        0 <= i < s.len(),
        decimal_milli(s[i].balance@) is None,
    ensures
        balances_milli(s) is None,
    decreases s.len(),
{
    if i < s.len() - 1 {
        assert(s.drop_last()[i] == s[i]);
        lemma_balances_none(s.drop_last(), i);
    }
}

/// A defined total is at least each record's amount.
proof fn lemma_balances_ge(s: Seq<WalletBalance>, i: int, x: int)
    requires
        0 <= i < s.len(),
        decimal_milli(s[i].balance@) == Some(x),
    ensures
        balances_milli(s) matches Some(m) ==> m >= x,
    decreases s.len(),
{
    if balances_milli(s) is Some {
        if i < s.len() - 1 {
            assert(s.drop_last()[i] == s[i]);
            lemma_balances_ge(s.drop_last(), i, x);
        } else {
            lemma_balances_nonneg(s.drop_last());
        }
        lemma_decimal_milli_nonneg(s.last().balance@);
    }
}

/// Sums an exchange account's asset balances. `None` when any record's
/// amount is not a decimal literal or the total leaves the fixed-point
/// range; the caller treats that as a hard adapter failure.
pub fn sum_asset_balances(balances: &Vec<WalletBalance>) -> (r: Option<u64>)
    ensures
        match balances_milli(balances@) {
            Some(m) => if m <= u64::MAX {
                r == Some(m as u64)
            } else {
                r is None
            },
            None => r is None,
        },
{
    let n = balances.len();
    let mut acc: u64 = 0;
    let mut too_big: bool = false;
    let mut i: usize = 0;
    proof {
        assert(balances@.take(0) =~= Seq::<WalletBalance>::empty());
    }
    while i < n
        invariant
            i <= n == balances@.len(),
            balances_milli(balances@.take(i as int)) is Some,
            !too_big ==> Some(acc as int) == balances_milli(balances@.take(i as int)),
            too_big ==> balances_milli(balances@.take(i as int))->0 > u64::MAX,
        decreases n - i,
    {
        proof {
            let post = balances@.take(i + 1);
            assert(post.drop_last() =~= balances@.take(i as int));
            assert(post.last() == balances@[i as int]);
        }
        match parse_decimal_str(balances[i].balance.as_str()) {
            Some(b) => {
                proof {
                    let post = balances@.take(i + 1);
                    let item = balances@[i as int].balance@;
                    lemma_decimal_milli_nonneg(item);
                    match decimal_milli(item) {
                        Some(m) => {
                            assert(m == b as int);
                        },
                        None => {
                            assert(false);
                        },
                    }
                    assert(balances_milli(post) == Some(
                        balances_milli(balances@.take(i as int))->0 + b,
                    ));
                }
                if too_big {
                } else {
                    if acc <= u64::MAX - b {
                        acc = acc + b;
                    } else {
                        too_big = true;
                    }
                }
            },
            None => {
                proof {
                    match decimal_milli(balances@[i as int].balance@) {
                        Some(m) => {
                            lemma_balances_ge(balances@, i as int, m);
                        },
                        None => {
                            lemma_balances_none(balances@, i as int);
                        },
                    }
                }
                return None;
            },
        }
        i += 1;
    }
    proof {
        assert(balances@.take(n as int) =~= balances@);
    }
    if too_big {
        None
    } else {
        Some(acc)
    }
}

/// The USD value of an asset total under a quoted USD price, both in
/// milliunits: `total * price / 1000`, rounded down.
pub open spec fn priced_value_spec(amount_milli: int, price_milli: int) -> int {
    (amount_milli * price_milli) / 1000
}

/// Prices an exchange account's asset total in USD milliunits: the
/// summed balances times the reference asset's quoted USD price.
/// `None` on an unreadable record or a value out of range.
pub fn exchange_value_usd_milli(balances: &Vec<WalletBalance>, price_usd_milli: u64) -> (r: Option<
    u64,
>)
    ensures
        r is Some <==> (balances_milli(balances@) matches Some(m) && m <= u64::MAX
            && priced_value_spec(m, price_usd_milli as int) <= u64::MAX),
        r matches Some(v) ==> Some(v as int) == Some(
            priced_value_spec(balances_milli(balances@)->0, price_usd_milli as int),
        ),
{
    match sum_asset_balances(balances) {
        Some(total) => {
            proof {
                lemma_balances_nonneg(balances@);
            }
            mul_div_milli(total, price_usd_milli, 1000)
        },
        None => None,
    }
}

/// The USD value, in milliunits, of an address balance reported in
/// satoshi: `sats * price / 100_000_000`, rounded down — the price is
/// per whole coin of 100 million base units.
pub open spec fn satoshi_value_spec(sats: int, price_milli: int) -> int {
    (sats * price_milli) / 100000000
}

/// Prices an explorer-reported address balance in USD milliunits.
pub fn satoshi_value_usd_milli(sats: u64, price_usd_milli: u64) -> (r: Option<u64>)
    ensures
        r is Some <==> satoshi_value_spec(sats as int, price_usd_milli as int) <= u64::MAX,
        r matches Some(v) ==> v as int == satoshi_value_spec(sats as int, price_usd_milli as int),
{
    mul_div_milli(sats, price_usd_milli, 100000000)
}

/// Reads the USD price from a market-data ticker response: the first
/// quote's decimal-string price. `None` for an empty response or an
/// unreadable quote; the caller treats that as a hard failure.
pub fn price_from_quotes(quotes: &Vec<String>) -> (r: Option<u64>)
    ensures
        quotes@.len() == 0 ==> r is None,
        quotes@.len() > 0 ==> decimal_result(decimal_milli(quotes@[0]@), r),
{
    if quotes.len() == 0 {
        None
    } else {
        parse_decimal_str(quotes[0].as_str())
    }
}

} // verus!
