//! Fixed-point money arithmetic.
//!
//! Every currency amount in the engine is an integer number of
//! milliunits (one thousandth of a currency unit), the same fixed-point
//! representation the ledger uses for transaction amounts. An exchange
//! rate is an exact rational `num / den`; converting a USD amount into
//! the home currency divides by the rate and rounds the result up, as
//! the ledger entry must never understate the observed balance.

use vstd::prelude::*;

verus! {

/// An exchange rate `num / den`: how many USD one home-currency unit buys.
///
/// Both components are at least 1, so the rate is a positive rational.
#[derive(Clone, Copy, PartialEq, Eq, Structural, Debug)]
pub struct Rate {
    pub num: u64,
    pub den: u64,
}

impl Rate {
    /// A rate is well formed when it is a positive rational.
    pub open spec fn wf(self) -> bool {
        self.num >= 1 && self.den >= 1
    }

    /// An identity rate converts an amount into itself.
    pub open spec fn is_identity(self) -> bool {
        self.num == self.den
    }

    /// The rate of a currency against itself.
    pub fn identity() -> (r: Rate)
        ensures
            r.wf(),
            r.is_identity(),
            r.num == 1 && r.den == 1,
    {
        Rate { num: 1, den: 1 }
    }

    pub fn new(num: u64, den: u64) -> (r: Option<Rate>)
        ensures
            r is Some <==> num >= 1 && den >= 1,
            r is Some ==> r->0 == (Rate { num, den }),
    {
        if num >= 1 && den >= 1 {
            Some(Rate { num, den })
        } else {
            None
        }
    }
}

/// Integer division of `a` by `b`, rounding towards positive infinity.
pub open spec fn ceil_div(a: int, b: int) -> int
    recommends
        a >= 0,
        b >= 1,
{
    (a + b - 1) / b
}

/// The ledger amount for a USD amount of `amount_milli` milliunits under
/// `rate`: the home-currency value, in milliunits, rounded up.
pub open spec fn ledger_units_spec(amount_milli: int, rate: Rate) -> int
    recommends
        amount_milli >= 0,
        rate.wf(),
{
    ceil_div(amount_milli * rate.den, rate.num as int)
}

proof fn lemma_ceil_div_bounds(a: int, b: int)
    requires
        a >= 0,
        b >= 1,
    ensures
        0 <= ceil_div(a, b),
        ceil_div(a, b) == a / b + (if a % b == 0 { 0int } else { 1int }),
{
    let q = a / b;
    let r0 = a % b;
    vstd::arithmetic::div_mod::lemma_fundamental_div_mod(a, b);
    vstd::arithmetic::div_mod::lemma_div_pos_is_pos(a, b);
    vstd::arithmetic::div_mod::lemma_div_pos_is_pos(a + b - 1, b);
    if r0 == 0 {
        assert(a + b - 1 == b * q + (b - 1));
        vstd::arithmetic::div_mod::lemma_div_multiples_vanish_fancy(q, b - 1, b);
        assert((b * q + (b - 1)) / b == q);
    } else {
        assert(b * (q + 1) == b * q + b) by (nonlinear_arith);
        assert(a + b - 1 == b * (q + 1) + (r0 - 1));
        vstd::arithmetic::div_mod::lemma_div_multiples_vanish_fancy(q + 1, r0 - 1, b);
        assert((b * (q + 1) + (r0 - 1)) / b == q + 1);
    }
}

/// Converting through the identity rate returns the amount unchanged.
proof fn lemma_identity_units(amount: int, rate: Rate)
    requires
        amount >= 0,
        rate.wf(),
        rate.is_identity(),
    ensures
        ledger_units_spec(amount, rate) == amount,
{
    let d = rate.num as int;
    assert(amount * rate.den == amount * d);
    vstd::arithmetic::div_mod::lemma_div_multiples_vanish_fancy(amount, d - 1, d);
}

/// Converts a USD amount in milliunits into home-currency ledger
/// milliunits: `ceil(amount * den / num)`. Returns `None` when the result
/// does not fit a ledger amount. The division is skipped for an identity
/// rate, which changes nothing about the value.
pub fn to_ledger_units(amount_milli: u64, rate: &Rate) -> (r: Option<i64>)
    requires
        rate.wf(),
    ensures
        r is Some <==> ledger_units_spec(amount_milli as int, *rate) <= i64::MAX,
        r is Some ==> r->0 == ledger_units_spec(amount_milli as int, *rate) && r->0 >= 0,
{
    proof {
        lemma_ceil_div_bounds(amount_milli as int * rate.den as int, rate.num as int);
        vstd::arithmetic::mul::lemma_mul_nonnegative(amount_milli as int, rate.den as int);
    }
    if rate.num == rate.den {
        proof {
            lemma_identity_units(amount_milli as int, *rate);
        }
        if amount_milli <= i64::MAX as u64 {
            Some(amount_milli as i64)
        } else {
            None
        }
    } else {
        proof {
            vstd::arithmetic::mul::lemma_mul_upper_bound(
                amount_milli as int,
                u64::MAX as int,
                rate.den as int,
                u64::MAX as int,
            );
        }
        let prod: u128 = (amount_milli as u128) * (rate.den as u128);
        let num: u128 = rate.num as u128;
        let q: u128 = (prod + num - 1) / num;
        if q <= i64::MAX as u128 {
            Some(q as i64)
        } else {
            None
        }
    }
}

/// `a * b / d`, rounded down, or `None` when it does not fit in `u64`.
///
/// This is the shape shared by the adapters that price an asset amount:
/// an exchange balance in asset milliunits times a USD price, or an
/// address balance in the chain's smallest unit times a USD price.
pub fn mul_div_milli(a: u64, b: u64, d: u64) -> (r: Option<u64>)
    requires
        d >= 1,
    ensures
        r is Some <==> (a * b) / (d as int) <= u64::MAX,
        r is Some ==> r->0 == (a * b) / (d as int),
{
    proof {
        vstd::arithmetic::mul::lemma_mul_nonnegative(a as int, b as int);
        vstd::arithmetic::mul::lemma_mul_upper_bound(
            a as int,
            u64::MAX as int,
            b as int,
            u64::MAX as int,
        );
        vstd::arithmetic::div_mod::lemma_div_pos_is_pos(a as int * b as int, d as int);
    }
    let prod: u128 = (a as u128) * (b as u128);
    let q: u128 = prod / (d as u128);
    if q <= u64::MAX as u128 {
        Some(q as u64)
    } else {
        None
    }
}

} // verus!
