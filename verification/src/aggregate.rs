//! The balance aggregator.
//!
//! Adapters report one outcome per configured source: a USD amount, a
//! successful call that carried no usable value, or a hard failure.
//! The aggregator merges whatever succeeded into a name-to-amount
//! mapping and never fails a run over a single source: failed and
//! valueless sources are left out, and an empty mapping is a valid
//! result. The fan-out itself (network calls, browser sessions) happens
//! outside the library; the merge of its outcomes is decided here.

use vstd::prelude::*;

use crate::text::chars_of;
use crate::text::first_index_of;
use crate::text::lemma_first_index_of;
use vstd::string::StrSliceExecFns;

verus! {

/// The transport a source's balance comes through.
#[derive(Clone, Copy, PartialEq, Eq, Structural, Debug)]
pub enum SourceKind {
    /// An authenticated exchange account.
    Exchange,
    /// A chain address whose balance a public explorer reports.
    AddressBalance,
    /// A wallet-overview page scraped by a browser session.
    ScrapedDashboard,
}

/// One configured source: the name keys the merged mapping and names
/// the ledger payee; the identifier is what the adapter is asked about.
pub struct WalletSource {
    pub name: String,
    pub kind: SourceKind,
    pub identifier: String,
}

/// Whether a configured token is a well-formed EVM address.
pub uninterp spec fn evm_address_ok(s: Seq<char>) -> bool;

/// Whether a configured token is a well-formed Bitcoin address.
pub uninterp spec fn btc_address_ok(s: Seq<char>) -> bool;

/// Relies on `alloy_primitives::Address::from_str`: it accepts exactly
/// the 40-hex-digit addresses, with an optional `0x` prefix, and its
/// acceptance depends on the characters alone.
#[verifier::external_body]
fn is_evm_address(s: &str) -> (r: bool)
    ensures
        r == evm_address_ok(s@),
{
    <alloy_primitives::Address as core::str::FromStr>::from_str(s).is_ok()
}

/// Relies on `bitcoin::Address::<NetworkUnchecked>::from_str`: it
/// accepts exactly the bech32 segwit and legacy base58 address
/// spellings, and its acceptance depends on the characters alone.
#[verifier::external_body]
fn is_btc_address(s: &str) -> (r: bool)
    ensures
        r == btc_address_ok(s@),
{
    <bitcoin::Address<bitcoin::address::NetworkUnchecked> as core::str::FromStr>::from_str(
        s,
    ).is_ok()
}

/// Which configured tokens a source kind accepts as identifiers: chain
/// addresses must parse as addresses of their chain; exchange-account
/// identifiers are opaque credentials and pass as they are.
pub open spec fn identifier_ok(kind: SourceKind, s: Seq<char>) -> bool {
    match kind {
        SourceKind::Exchange => true,
        SourceKind::AddressBalance => btc_address_ok(s),
        SourceKind::ScrapedDashboard => evm_address_ok(s),
    }
}

fn identifier_valid(kind: SourceKind, s: &str) -> (r: bool)
    ensures
        r == identifier_ok(kind, s@),
{
    match kind {
        SourceKind::Exchange => true,
        SourceKind::AddressBalance => is_btc_address(s),
        SourceKind::ScrapedDashboard => is_evm_address(s),
    }
}

/// A hard adapter failure: transport or parse trouble, carried as text
/// for the operator.
pub struct AdapterError {
    pub message: String,
}

/// What one adapter call produced: `Ok(Some(usd milliunits))` on
/// success, `Ok(None)` when the call went through but no usable value
/// was present, `Err` on a hard failure.
pub type FetchOutcome = Result<Option<u64>, AdapterError>;

/// The merged mapping: one `(source name, usd milliunits)` entry per
/// successful outcome, in source order.
pub open spec fn merged_spec(rs: Seq<(String, FetchOutcome)>) -> Seq<(String, u64)>
    decreases rs.len(),
{
    if rs.len() == 0 {
        Seq::empty()
    } else {
        let rest = merged_spec(rs.drop_last());
        match rs.last().1 {
            Ok(Some(v)) => rest.push((rs.last().0, v)),
            _ => rest,
        }
    }
}

/// How many outcomes carried a value.
pub open spec fn success_count(rs: Seq<(String, FetchOutcome)>) -> nat
    decreases rs.len(),
{
    if rs.len() == 0 {
        0
    } else {
        success_count(rs.drop_last()) + match rs.last().1 {
            Ok(Some(_)) => 1nat,
            _ => 0nat,
        }
    }
}

/// Merges adapter outcomes, keeping exactly the sources whose calls
/// produced a value.
pub fn merge_balances(results: &Vec<(String, FetchOutcome)>) -> (r: Vec<(String, u64)>)
    ensures
        r@ == merged_spec(results@),
{
    let n = results.len();
    let mut r: Vec<(String, u64)> = Vec::new();
    let mut i: usize = 0;
    proof {
        assert(results@.take(0) =~= Seq::<(String, FetchOutcome)>::empty());
    }
    while i < n
        invariant
            i <= n == results@.len(),
            r@ == merged_spec(results@.take(i as int)),
        decreases n - i,
    {
        proof {
            let post = results@.take(i + 1);
            assert(post.drop_last() =~= results@.take(i as int));
            assert(post.last() == results@[i as int]);
        }
        match &results[i].1 {
            Ok(Some(v)) => {
                r.push((results[i].0.clone(), *v));
            },
            _ => {},
        }
        i += 1;
    }
    proof {
        assert(results@.take(n as int) =~= results@);
    }
    r
}

/// Law (partial-failure tolerance): the merged mapping holds exactly
/// the successful sources — every entry comes from an outcome that
/// carried a value, every such outcome contributes its entry, and the
/// mapping's size is the number of successes; failures never empty or
/// abort the merge.
pub proof fn lemma_merge_keeps_exactly_successes(rs: Seq<(String, FetchOutcome)>)
    ensures
        merged_spec(rs).len() == success_count(rs),
        forall|k: int| 0 <= k < merged_spec(rs).len() ==> rs.contains(
            ((#[trigger] merged_spec(rs)[k]).0, Ok(Some(merged_spec(rs)[k].1))),
        ),
        forall|i: int| 0 <= i < rs.len() ==> match (#[trigger] rs[i]).1 {
            Ok(Some(v)) => merged_spec(rs).contains((rs[i].0, v)),
            _ => true,
        },
    decreases rs.len(),
{
    if rs.len() > 0 {
        lemma_merge_keeps_exactly_successes(rs.drop_last());
        let rest = merged_spec(rs.drop_last());
        let m = merged_spec(rs);
        assert forall|k: int| 0 <= k < m.len() implies rs.contains(
            ((#[trigger] m[k]).0, Ok(Some(m[k].1))),
        ) by {
            if k < rest.len() {
                assert(m[k] == rest[k]);
                let pair = (rest[k].0, Ok::<Option<u64>, AdapterError>(Some(rest[k].1)));
                let w = choose|j: int| 0 <= j < rs.drop_last().len() && rs.drop_last()[j] == pair;
                assert(rs[w] == pair);
            } else {
                assert(m[k] == (rs.last().0, rs.last().1->Ok_0->0));
                assert(rs[rs.len() - 1] == rs.last());
            }
        }
        assert forall|i: int| 0 <= i < rs.len() implies match (#[trigger] rs[i]).1 {
            Ok(Some(v)) => m.contains((rs[i].0, v)),
            _ => true,
        } by {
            match rs[i].1 {
                Ok(Some(v)) => {
                    if i < rs.len() - 1 {
                        assert(rs.drop_last()[i] == rs[i]);
                        let pair = (rs[i].0, v);
                        let w = choose|k: int| 0 <= k < rest.len() && rest[k] == pair;
                        assert(m[w] == pair);
                    } else {
                        assert(m[m.len() - 1] == (rs[i].0, v));
                    }
                },
                _ => {},
            }
        }
    }
}

/// Law (missing balance): a source whose adapter call produced no
/// value — a failure or an empty result — has no entry in the merged
/// mapping, provided source names are distinct.
pub proof fn lemma_missing_balance_excluded(rs: Seq<(String, FetchOutcome)>, i: int)
    requires
        0 <= i < rs.len(),
        !(rs[i].1 matches Ok(Some(_))),
        forall|j: int| 0 <= j < rs.len() && j != i ==> (#[trigger] rs[j].0@) != rs[i].0@,
    ensures
        forall|k: int| 0 <= k < merged_spec(rs).len() ==> (#[trigger] merged_spec(rs)[k]).0@
            != rs[i].0@,
{
    lemma_merge_keeps_exactly_successes(rs);
    let m = merged_spec(rs);
    assert forall|k: int| 0 <= k < m.len() implies (#[trigger] m[k]).0@ != rs[i].0@ by {
        let pair = (m[k].0, Ok::<Option<u64>, AdapterError>(Some(m[k].1)));
        assert(rs.contains(pair));
        let j = choose|j: int| 0 <= j < rs.len() && rs[j] == pair;
        assert(rs[j].1 matches Ok(Some(_)));
        assert(j != i);
    }
}

/// A configuration line split at commas: always at least one token,
/// tokens may be empty.
pub open spec fn split_commas(s: Seq<char>) -> Seq<Seq<char>>
    decreases s.len(),
    via split_commas_dec
{
    match first_index_of(s, ',') {
        None => seq![s],
        Some(i) => seq![s.take(i)] + split_commas(s.skip(i + 1)),
    }
}

#[via_fn]
proof fn split_commas_dec(s: Seq<char>) {
    lemma_first_index_of(s, ',');
}

/// The tokens of a list that a source kind accepts, in order.
pub open spec fn kept_identifiers(ts: Seq<Seq<char>>, kind: SourceKind) -> Seq<Seq<char>>
    decreases ts.len(),
{
    if ts.len() == 0 {
        Seq::empty()
    } else {
        let rest = kept_identifiers(ts.drop_last(), kind);
        if identifier_ok(kind, ts.last()) {
            rest.push(ts.last())
        } else {
            rest
        }
    }
}

/// The identifiers a comma-separated configuration line yields for a
/// source kind: its tokens, invalid ones dropped.
pub open spec fn wallet_list_spec(s: Seq<char>, kind: SourceKind) -> Seq<Seq<char>> {
    kept_identifiers(split_commas(s), kind)
}

/// Splits a configuration line at commas.
fn split_tokens(s: &str) -> (r: Vec<String>)
    ensures
        r.deep_view() == split_commas(s@),
{
    let cs = chars_of(s);
    let n = cs.len();
    let mut r: Vec<String> = Vec::new();
    let mut start: usize = 0;
    proof {
        assert(s@.skip(0) =~= s@);
        assert(r.deep_view() =~= Seq::<Seq<char>>::empty());
        assert(r.deep_view() + split_commas(s@.skip(0)) =~= split_commas(s@));
    }
    loop
        invariant
            start <= n == s@.len(),
            cs@ == s@,
            split_commas(s@) == r.deep_view() + split_commas(s@.skip(start as int)),
        decreases n - start,
    {
        let ghost suf = s@.skip(start as int);
        let mut j: usize = start;
        while j < n && cs[j] != ','
            invariant
                start <= j <= n == s@.len(),
                cs@ == s@,
                forall|k: int| start <= k < j ==> s@[k] != ',',
            decreases n - j,
        {
            j += 1;
        }
        proof {
            lemma_first_index_of(suf, ',');
            assert(forall|k: int| 0 <= k < suf.len() ==> suf[k] == s@[start + k]);
        }
        let token = s.substring_char(start, j);
        let owned = token.to_owned();
        let ghost old_dv = r.deep_view();
        r.push(owned);
        proof {
            assert(r.deep_view() =~= old_dv.push(token@));
        }
        if j == n {
            proof {
                match first_index_of(suf, ',') {
                    Some(i) => {
                        assert(suf[i] == s@[start + i]);
                        assert(false);
                    },
                    None => {},
                }
                assert(split_commas(suf) == seq![suf]);
                assert(token@ =~= suf);
                assert(r.deep_view() =~= old_dv + seq![suf]);
            }
            return r;
        }
        proof {
            let rel = (j - start) as int;
            match first_index_of(suf, ',') {
                Some(i) => {
                    if i < rel {
                        assert(suf[i] == s@[start + i]);
                        assert(s@[start + i] != ',');
                        assert(false);
                    } else if i > rel {
                        assert(suf[rel] == s@[j as int]);
                        assert(false);
                    }
                },
                None => {
                    assert(suf[rel] == s@[j as int]);
                    assert(false);
                },
            }
            assert(first_index_of(suf, ',') == Some(rel));
            assert(suf.take(rel) =~= token@);
            assert(suf.skip(rel + 1) =~= s@.skip(j + 1));
            assert(split_commas(suf) == seq![token@] + split_commas(s@.skip(j + 1)));
            assert(r.deep_view() + split_commas(s@.skip(j + 1)) =~= old_dv + (seq![token@]
                + split_commas(s@.skip(j + 1))));
        }
        start = j + 1;
    }
}

/// Reads a comma-separated identifier list from configuration for one
/// source kind, dropping tokens that are not valid identifiers of that
/// kind. An unset or empty configuration value yields no identifiers.
pub fn parse_wallet_list(csv: &str, kind: SourceKind) -> (r: Vec<String>)
    ensures
        r.deep_view() == wallet_list_spec(csv@, kind),
{
    let toks = split_tokens(csv);
    let n = toks.len();
    let mut r: Vec<String> = Vec::new();
    let mut i: usize = 0;
    proof {
        assert(toks.deep_view().take(0) =~= Seq::<Seq<char>>::empty());
        assert(r.deep_view() =~= kept_identifiers(toks.deep_view().take(0), kind));
    }
    while i < n
        invariant
            i <= n == toks@.len(),
            toks.deep_view().len() == n,
            toks.deep_view() == split_commas(csv@),
            forall|k: int| 0 <= k < n ==> (#[trigger] toks@[k])@ == toks.deep_view()[k],
            r.deep_view() == kept_identifiers(toks.deep_view().take(i as int), kind),
        decreases n - i,
    {
        proof {
            let post = toks.deep_view().take(i + 1);
            assert(post.drop_last() =~= toks.deep_view().take(i as int));
            assert(post.last() == toks.deep_view()[i as int]);
        }
        if identifier_valid(kind, toks[i].as_str()) {
            let ghost old_dv = r.deep_view();
            r.push(toks[i].clone());
            proof {
                assert(r.deep_view() =~= old_dv.push(toks.deep_view()[i as int]));
            }
        }
        i += 1;
    }
    proof {
        assert(toks.deep_view().take(n as int) =~= toks.deep_view());
    }
    r
}

/// Builds the configured sources of one kind: each accepted identifier
/// becomes a source named after it, as the ledger payee is the wallet
/// itself.
pub fn wallet_sources(csv: &str, kind: SourceKind) -> (r: Vec<WalletSource>)
    ensures
        r@.len() == wallet_list_spec(csv@, kind).len(),
        forall|k: int| 0 <= k < r@.len() ==> (#[trigger] r@[k]).kind == kind && r@[k].name@
            == wallet_list_spec(csv@, kind)[k] && r@[k].identifier@ == wallet_list_spec(
            csv@,
            kind,
        )[k],
{
    let ids = parse_wallet_list(csv, kind);
    let n = ids.len();
    let mut r: Vec<WalletSource> = Vec::new();
    let mut i: usize = 0;
    while i < n
        invariant
            i <= n == ids@.len(),
            ids.deep_view() == wallet_list_spec(csv@, kind),
            ids.deep_view().len() == n,
            forall|k: int| 0 <= k < n ==> (#[trigger] ids@[k])@ == ids.deep_view()[k],
            r@.len() == i,
            forall|k: int| 0 <= k < i ==> (#[trigger] r@[k]).kind == kind && r@[k].name@
                == ids.deep_view()[k] && r@[k].identifier@ == ids.deep_view()[k],
        decreases n - i,
    {
        r.push(
            WalletSource { name: ids[i].clone(), kind, identifier: ids[i].clone() },
        );
        i += 1;
    }
    r
}

/// Merges the optional single-call exchange source into the mapping:
/// appended under its configured name when its adapter succeeded, left
/// out on failure, as one failed source never aborts the run.
pub fn merge_extra_source(
    values: &mut Vec<(String, u64)>,
    name: &str,
    outcome: Result<u64, AdapterError>,
)
    ensures
        match outcome {
            Ok(v) => final(values)@.len() == old(values)@.len() + 1 && final(values)@.take(
                old(values)@.len() as int,
            ) == old(values)@ && final(values)@.last().0@ == name@ && final(values)@.last().1 == v,
            Err(_) => final(values)@ == old(values)@,
        },
{
    match outcome {
        Ok(v) => {
            let owned = name.to_owned();
            values.push((owned, v));
            proof {
                assert(values@.take(values@.len() - 1) =~= old(values)@);
            }
        },
        Err(_) => {},
    }
}

} // verus!
