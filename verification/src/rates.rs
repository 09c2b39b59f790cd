//! The daily exchange-rate cache.
//!
//! A run needs one rate: home currency against USD, valid for the
//! current calendar day. A persisted record mirrors the rate provider's
//! last response; it is trusted only on an exact match of base currency
//! and date, and is otherwise refreshed. Asking for a currency against
//! itself never consults the cache nor the network. The decision of
//! whether to read, trust or refetch is made here; the file and network
//! I/O that carry it out stay outside the library.

use vstd::prelude::*;

use crate::date::Date;
use crate::money::Rate;
use crate::text::str_eq;

verus! {

/// A persisted mirror of one rate-provider response: the base
/// currency, the response date, and the quoted rates per symbol.
pub struct RateRecord {
    pub base: String,
    pub date: Date,
    pub rates: Vec<(String, Rate)>,
}

/// The first rate quoted for `quote`, if any.
pub open spec fn lookup_rate(rs: Seq<(String, Rate)>, quote: Seq<char>) -> Option<Rate>
    decreases rs.len(),
{
    if rs.len() == 0 {
        None
    } else if rs[0].0@ == quote {
        Some(rs[0].1)
    } else {
        lookup_rate(rs.drop_first(), quote)
    }
}

/// A record answers a query only when base, date and quoted symbol all
/// match exactly.
pub open spec fn cache_hit(rec: RateRecord, base: Seq<char>, quote: Seq<char>, today: Date) -> bool {
    &&& rec.base@ == base
    &&& rec.date == today
    &&& lookup_rate(rec.rates@, quote) is Some
}

/// Extracts the rate quoted for `quote` from a record.
pub fn rate_from_record(rec: &RateRecord, quote: &str) -> (r: Option<Rate>)
    ensures
        r == lookup_rate(rec.rates@, quote@),
{
    let n = rec.rates.len();
    let mut i: usize = 0;
    proof {
        assert(rec.rates@.skip(0) =~= rec.rates@);
    }
    while i < n
        invariant
            i <= n == rec.rates@.len(),
            lookup_rate(rec.rates@, quote@) == lookup_rate(rec.rates@.skip(i as int), quote@),
        decreases n - i,
    {
        proof {
            let cur = rec.rates@.skip(i as int);
            assert(cur[0] == rec.rates@[i as int]);
            assert(cur.drop_first() =~= rec.rates@.skip(i + 1));
        }
        if str_eq(rec.rates[i].0.as_str(), quote) {
            return Some(rec.rates[i].1);
        }
        i += 1;
    }
    proof {
        assert(rec.rates@.skip(n as int) =~= Seq::<(String, Rate)>::empty());
    }
    None
}

/// What a rate query must do before any I/O happens.
#[derive(Clone, Copy, PartialEq, Eq, Structural, Debug)]
pub enum RateDecision {
    /// The currency against itself: the rate is one, no cache read and
    /// no network call.
    Identity,
    /// The cache answers for today: no network call.
    Cached(Rate),
    /// The provider must be asked; its response becomes the new record.
    Fetch,
}

/// Decides a rate query against the persisted record, if one was
/// readable. A query of a currency against itself is answered
/// identically with no I/O at all; a record matching base, quote and
/// today answers from the cache; anything else requires a fetch.
pub fn rate_decision(cache: &Option<RateRecord>, base: &str, quote: &str, today: &Date) -> (r:
    RateDecision)
    ensures
        base@ == quote@ ==> r == RateDecision::Identity,
        base@ != quote@ ==> match cache {
            Some(rec) => if cache_hit(*rec, base@, quote@, *today) {
                r == RateDecision::Cached(lookup_rate(rec.rates@, quote@)->0)
            } else {
                r == RateDecision::Fetch
            },
            None => r == RateDecision::Fetch,
        },
{
    if str_eq(base, quote) {
        return RateDecision::Identity;
    }
    match cache {
        Some(rec) => {
            if str_eq(rec.base.as_str(), base) && rec.date == *today {
                match rate_from_record(rec, quote) {
                    Some(rt) => RateDecision::Cached(rt),
                    None => RateDecision::Fetch,
                }
            } else {
                RateDecision::Fetch
            }
        },
        None => RateDecision::Fetch,
    }
}

/// The rate a decision answers with before any fetch: one for a
/// currency against itself, the cached rate on a hit, nothing when the
/// provider must be asked.
pub fn rate_of_decision(d: &RateDecision) -> (r: Option<Rate>)
    ensures
        match d {
            RateDecision::Identity => r == Some(Rate { num: 1u64, den: 1u64 }),
            RateDecision::Cached(c) => r == Some(*c),
            RateDecision::Fetch => r is None,
        },
{
    match d {
        RateDecision::Identity => Some(Rate::identity()),
        RateDecision::Cached(c) => Some(*c),
        RateDecision::Fetch => None,
    }
}

/// Law (cache correctness): once a fetched response for `base` dated
/// `today` that quotes `quote` is stored as the record, a second
/// same-day query hits the cache and needs no network call, while a
/// query on any other day misses and must fetch again.
pub proof fn lemma_cache_correctness(
    rec: RateRecord,
    base: Seq<char>,
    quote: Seq<char>,
    today: Date,
    other_day: Date,
)
    requires
        rec.base@ == base,
        rec.date == today,
        lookup_rate(rec.rates@, quote) is Some,
        other_day != today,
    ensures
        cache_hit(rec, base, quote, today),
        !cache_hit(rec, base, quote, other_day),
{
}

} // verus!
