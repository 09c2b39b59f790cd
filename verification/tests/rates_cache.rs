use balance_sync::date::Date;
use balance_sync::money::Rate;
use balance_sync::rates::RateDecision;
use balance_sync::rates::RateRecord;
use balance_sync::rates::rate_decision;
use balance_sync::rates::rate_from_record;

fn record(base: &str, d: Date, quotes: Vec<(&str, Rate)>) -> RateRecord {
    RateRecord {
        base: base.to_string(),
        date: d,
        rates: quotes.into_iter().map(|(q, r)| (q.to_string(), r)).collect(),
    }
}

#[test]
fn same_currency_is_identity_without_io() {
    // the decision for a currency against itself never reads the cache
    // and never asks the network
    let today = Date { year: 2024, month: 6, day: 2 };
    assert_eq!(rate_decision(&None, "USD", "USD", &today), RateDecision::Identity);
    let rec = record("USD", today, vec![("USD", Rate { num: 2, den: 1 })]);
    assert_eq!(rate_decision(&Some(rec), "USD", "USD", &today), RateDecision::Identity);
}

#[test]
fn cache_miss_then_hit_then_expiry() {
    // two same-day queries cost one fetch: the first must fetch, the
    // stored response answers the second; the next day fetches again
    let today = Date { year: 2024, month: 6, day: 2 };
    let tomorrow = Date { year: 2024, month: 6, day: 3 };
    let eur_usd = Rate { num: 1080, den: 1000 };

    assert_eq!(rate_decision(&None, "EUR", "USD", &today), RateDecision::Fetch);

    let fetched = record("EUR", today, vec![("USD", eur_usd)]);
    assert_eq!(rate_from_record(&fetched, "USD"), Some(eur_usd));

    let cache = Some(fetched);
    assert_eq!(
        rate_decision(&cache, "EUR", "USD", &today),
        RateDecision::Cached(eur_usd)
    );
    assert_eq!(rate_decision(&cache, "EUR", "USD", &tomorrow), RateDecision::Fetch);
}

#[test]
fn cache_is_not_trusted_across_bases_or_symbols() {
    let today = Date { year: 2024, month: 6, day: 2 };
    let eur_usd = Rate { num: 1080, den: 1000 };
    let rec = record("EUR", today, vec![("USD", eur_usd)]);
    assert_eq!(
        rate_decision(&Some(rec), "GBP", "USD", &today),
        RateDecision::Fetch
    );
    let rec2 = record("EUR", today, vec![("GBP", eur_usd)]);
    assert_eq!(
        rate_decision(&Some(rec2), "EUR", "USD", &today),
        RateDecision::Fetch
    );
}

#[test]
fn unreadable_cache_is_a_miss() {
    // a cache file that would not parse reaches the decision as `None`
    let today = Date { year: 2024, month: 6, day: 2 };
    assert_eq!(rate_decision(&None, "EUR", "USD", &today), RateDecision::Fetch);
}

#[test]
fn missing_symbol_in_fresh_response_is_detectable() {
    // the fatal case: the provider's response lacks the quote
    let today = Date { year: 2024, month: 6, day: 2 };
    let rec = record("EUR", today, vec![]);
    assert_eq!(rate_from_record(&rec, "USD"), None);
}
