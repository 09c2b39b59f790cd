//! Verified text handling.
//!
//! The adapters hand the engine raw text: a scraped dashboard line such
//! as `$1,234.56`, decimal-string balances from an exchange account, a
//! decimal-string USD price from a market-data provider. This module
//! parses such text into fixed-point milliunit amounts, with the
//! accepted grammar and the computed value stated exactly over
//! character sequences.

use vstd::prelude::*;

verus! {

/// Character-wise string equality, proved by comparing the views.
pub fn str_eq(a: &str, b: &str) -> (r: bool)
    ensures
        r == (a@ == b@),
{
    let alen = a.unicode_len();
    let blen = b.unicode_len();
    if alen != blen {
        return false;
    }
    let mut i: usize = 0;
    while i < alen
        invariant
            i <= alen,
            alen == a@.len(),
            alen == b@.len(),
            forall|j: int| 0 <= j < i ==> a@[j] == b@[j],
        decreases alen - i,
    {
        if a.get_char(i) != b.get_char(i) {
            return false;
        }
        i += 1;
    }
    proof {
        assert(a@ =~= b@);
    }
    true
}

/// The characters of `s` as a vector, for index-based scanning.
pub fn chars_of(s: &str) -> (r: Vec<char>)
    ensures
        r@ == s@,
{
    let n = s.unicode_len();
    let mut r: Vec<char> = Vec::new();
    let mut i: usize = 0;
    while i < n
        invariant
            i <= n,
            n == s@.len(),
            r@ == s@.take(i as int),
        decreases n - i,
    {
        r.push(s.get_char(i));
        proof {
            assert(s@.take(i + 1) =~= s@.take(i as int).push(s@[i as int]));
        }
        i += 1;
    }
    proof {
        assert(s@.take(n as int) =~= s@);
    }
    r
}

/// A decimal digit.
pub open spec fn is_digit(c: char) -> bool {
    48 <= c as u32 <= 57
}

/// The numeric value of a digit character.
pub open spec fn digit_val(c: char) -> int {
    c as u32 - 48
}

pub open spec fn all_digits(s: Seq<char>) -> bool {
    forall|i: int| 0 <= i < s.len() ==> is_digit(s[i])
}

/// The value of a digit string, most significant digit first.
pub open spec fn digits_val(s: Seq<char>) -> int
    decreases s.len(),
{
    if s.len() == 0 {
        0
    } else {
        digits_val(s.drop_last()) * 10 + digit_val(s.last())
    }
}

pub proof fn lemma_digits_val_nonneg(s: Seq<char>)
    requires
        all_digits(s),
    ensures
        digits_val(s) >= 0,
    decreases s.len(),
{
    if s.len() > 0 {
        lemma_digits_val_nonneg(s.drop_last());
    }
}

/// The position of the first occurrence of `c` in `s`.
pub open spec fn first_index_of(s: Seq<char>, c: char) -> Option<int>
    decreases s.len(),
{
    if s.len() == 0 {
        None
    } else if s[0] == c {
        Some(0)
    } else {
        match first_index_of(s.drop_first(), c) {
            Some(i) => Some(i + 1),
            None => None,
        }
    }
}

pub proof fn lemma_first_index_of(s: Seq<char>, c: char)
    ensures
        match first_index_of(s, c) {
            Some(i) => 0 <= i < s.len() && s[i] == c && forall|j: int| 0 <= j < i ==> s[j] != c,
            None => forall|j: int| 0 <= j < s.len() ==> s[j] != c,
        },
    decreases s.len(),
{
    if s.len() > 0 && s[0] != c {
        lemma_first_index_of(s.drop_first(), c);
        match first_index_of(s.drop_first(), c) {
            Some(i) => {
                assert(s[i + 1] == s.drop_first()[i]);
                assert forall|j: int| 0 <= j < i + 1 implies s[j] != c by {
                    if j >= 1 {
                        assert(s.drop_first()[j - 1] != c);
                        assert(s[j] == s.drop_first()[j - 1]);
                    }
                }
            },
            None => {
                assert forall|j: int| 0 <= j < s.len() implies s[j] != c by {
                    if j >= 1 {
                        assert(s.drop_first()[j - 1] != c);
                        assert(s[j] == s.drop_first()[j - 1]);
                    }
                }
            },
        }
    }
}

/// Finds the first occurrence of `c` in `s`.
pub fn find_char(s: &Vec<char>, c: char) -> (r: Option<usize>)
    ensures
        match r {
            Some(i) => first_index_of(s@, c) == Some(i as int),
            None => first_index_of(s@, c) is None,
        },
{
    proof {
        lemma_first_index_of(s@, c);
    }
    let n = s.len();
    let mut i: usize = 0;
    while i < n
        invariant
            i <= n,
            n == s@.len(),
            forall|j: int| 0 <= j < i ==> s@[j] != c,
        decreases n - i,
    {
        if s[i] == c {
            proof {
                lemma_first_index_of(s@, c);
                match first_index_of(s@, c) {
                    Some(k) => {
                        if k < i as int {
                            assert(s@[k] != c);
                        } else if k > i as int {
                            assert(s@[i as int] != c);
                        }
                    },
                    None => {
                        assert(s@[i as int] != c);
                    },
                }
            }
            return Some(i);
        }
        i += 1;
    }
    None
}

/// The milliunit contribution of a fractional digit string: only the
/// first three fractional digits carry milliunit weight; deeper digits
/// are truncated.
pub open spec fn frac_milli(s: Seq<char>) -> int {
    if s.len() >= 3 {
        digits_val(s.take(3))
    } else if s.len() == 2 {
        digits_val(s) * 10
    } else if s.len() == 1 {
        digits_val(s) * 100
    } else {
        0
    }
}

/// The value, in milliunits, of an unsigned decimal literal: one or
/// more digits with at most one point somewhere among them
/// (`612.34`, `75`, `.5`, `1.`). Anything else has no value.
pub open spec fn decimal_milli(s: Seq<char>) -> Option<int> {
    match first_index_of(s, '.') {
        None => if s.len() > 0 && all_digits(s) {
            Some(digits_val(s) * 1000)
        } else {
            None
        },
        Some(p) => {
            let ip = s.take(p);
            let fp = s.skip(p + 1);
            if ip.len() + fp.len() > 0 && all_digits(ip) && all_digits(fp) {
                Some(digits_val(ip) * 1000 + frac_milli(fp))
            } else {
                None
            }
        },
    }
}

/// Outcome of scanning a digit run whose value may not fit the
/// fixed-point range.
enum DigitScan {
    NotDigits,
    TooBig,
    Value(u64),
}

/// Scans `s[from..to]`, expecting decimal digits only.
fn scan_digits(s: &Vec<char>, from: usize, to: usize) -> (r: DigitScan)
    requires
        from <= to <= s@.len(),
    ensures
        ({
            let sub = s@.subrange(from as int, to as int);
            match r {
                DigitScan::NotDigits => !all_digits(sub),
                DigitScan::TooBig => all_digits(sub) && digits_val(sub) > u64::MAX,
                DigitScan::Value(v) => all_digits(sub) && digits_val(sub) == v,
            }
        }),
{
    let mut i: usize = from;
    let mut v: u64 = 0;
    let mut too_big: bool = false;
    while i < to
        invariant
            from <= i <= to <= s@.len(),
            all_digits(s@.subrange(from as int, i as int)),
            !too_big ==> v == digits_val(s@.subrange(from as int, i as int)),
            too_big ==> digits_val(s@.subrange(from as int, i as int)) > u64::MAX,
        decreases to - i,
    {
        let c = s[i];
        let u = c as u32;
        if u < 48 || u > 57 {
            proof {
                assert(!is_digit(s@.subrange(from as int, to as int)[i - from]));
            }
            return DigitScan::NotDigits;
        }
        let d: u64 = (u - 48) as u64;
        proof {
            let pre = s@.subrange(from as int, i as int);
            let post = s@.subrange(from as int, i + 1);
            assert(is_digit(s@[i as int]));
            assert(post.drop_last() =~= pre);
            assert(post.last() == s@[i as int]);
            assert forall|k: int| 0 <= k < post.len() implies is_digit(post[k]) by {
                if k < post.len() - 1 {
                    assert(post[k] == pre[k]);
                }
            }
            assert(digits_val(post) == digits_val(pre) * 10 + digit_val(s@[i as int]));
            if too_big {
                lemma_digits_val_nonneg(pre);
            }
        }
        if too_big {
        } else {
            let nv: u128 = (v as u128) * 10 + (d as u128);
            if nv > u64::MAX as u128 {
                too_big = true;
            } else {
                v = nv as u64;
            }
        }
        i += 1;
    }
    if too_big {
        DigitScan::TooBig
    } else {
        DigitScan::Value(v)
    }
}

/// Scans the fractional digits `s[from..]` and returns their milliunit
/// weight: `None` when a non-digit appears.
fn frac_value(s: &Vec<char>, from: usize) -> (r: Option<u64>)
    requires
        from <= s@.len(),
    ensures
        ({
            let sub = s@.skip(from as int);
            match r {
                Some(v) => all_digits(sub) && v == frac_milli(sub) && v <= 999,
                None => !all_digits(sub),
            }
        }),
{
    let n = s.len();
    let mut i: usize = from;
    let mut v: u64 = 0;
    proof {
        assert(s@.skip(from as int) =~= s@.subrange(from as int, n as int));
    }
    while i < n
        invariant
            from <= i <= n == s@.len(),
            all_digits(s@.subrange(from as int, i as int)),
            i - from >= 3 ==> v == digits_val(s@.subrange(from as int, i as int).take(3)),
            i - from == 2 ==> v == digits_val(s@.subrange(from as int, i as int)) * 10,
            i - from == 1 ==> v == digits_val(s@.subrange(from as int, i as int)) * 100,
            i == from ==> v == 0,
            v <= 999,
        decreases n - i,
    {
        let c = s[i];
        let u = c as u32;
        if u < 48 || u > 57 {
            proof {
                assert(!is_digit(s@.subrange(from as int, n as int)[i - from]));
            }
            return None;
        }
        let d: u64 = (u - 48) as u64;
        proof {
            let pre = s@.subrange(from as int, i as int);
            let post = s@.subrange(from as int, i + 1);
            assert(is_digit(s@[i as int]));
            assert(post.drop_last() =~= pre);
            assert(post.last() == s@[i as int]);
            assert forall|k: int| 0 <= k < post.len() implies is_digit(post[k]) by {
                if k < post.len() - 1 {
                    assert(post[k] == pre[k]);
                }
            }
            assert(digits_val(post) == digits_val(pre) * 10 + digit_val(s@[i as int]));
            if i - from >= 3 {
                assert(post.take(3) =~= pre.take(3));
            } else if i - from == 2 {
                assert(post.take(3) =~= post);
            }
        }
        if i == from {
            v = d * 100;
        } else if i == from + 1 {
            v = v + d * 10;
        } else if i == from + 2 {
            v = v + d;
        }
        i += 1;
    }
    proof {
        let sub = s@.subrange(from as int, n as int);
        if n - from == 2 {
            assert(frac_milli(sub) == digits_val(sub) * 10);
        }
    }
    Some(v)
}

/// A decimal literal never has a negative value.
pub proof fn lemma_decimal_milli_nonneg(s: Seq<char>)
    ensures
        decimal_milli(s) matches Some(m) ==> m >= 0,
{
    match first_index_of(s, '.') {
        None => {
            if s.len() > 0 && all_digits(s) {
                lemma_digits_val_nonneg(s);
            }
        },
        Some(p) => {
            lemma_first_index_of(s, '.');
            let ip = s.take(p);
            let fp = s.skip(p + 1);
            if ip.len() + fp.len() > 0 && all_digits(ip) && all_digits(fp) {
                lemma_digits_val_nonneg(ip);
                if fp.len() >= 3 {
                    assert(all_digits(fp.take(3))) by {
                        assert(forall|i: int| 0 <= i < 3 ==> fp.take(3)[i] == fp[i]);
                    }
                    lemma_digits_val_nonneg(fp.take(3));
                } else {
                    lemma_digits_val_nonneg(fp);
                }
            }
        },
    }
}

/// How a parsed `u64` result must relate to the mathematical value of
/// a decimal literal: the exact value when there is one and it fits,
/// nothing otherwise.
pub open spec fn decimal_result(m: Option<int>, r: Option<u64>) -> bool {
    match m {
        Some(v) => if v <= u64::MAX {
            r == Some(v as u64)
        } else {
            r is None
        },
        None => r is None,
    }
}

/// Parses a character sequence as an unsigned decimal literal into
/// milliunits: exactly the values of `decimal_milli` that fit `u64`.
pub fn parse_decimal_chars(s: &Vec<char>) -> (r: Option<u64>)
    ensures
        decimal_result(decimal_milli(s@), r),
{
    let n = s.len();
    let dot = find_char(s, '.');
    match dot {
        None => {
            proof {
                assert(s@.subrange(0, n as int) =~= s@);
            }
            if n == 0 {
                return None;
            }
            match scan_digits(s, 0, n) {
                DigitScan::NotDigits => None,
                DigitScan::TooBig => {
                    proof {
                        lemma_digits_val_nonneg(s@);
                    }
                    None
                },
                DigitScan::Value(v) => {
                    if v <= u64::MAX / 1000 {
                        Some(v * 1000)
                    } else {
                        None
                    }
                },
            }
        },
        Some(p) => {
            proof {
                lemma_first_index_of(s@, '.');
                assert(p < n);
                assert(s@.subrange(0, p as int) =~= s@.take(p as int));
            }
            if n == 1 {
                proof {
                    assert(s@.take(p as int).len() + s@.skip(p + 1).len() == 0);
                }
                return None;
            }
            let ip = scan_digits(s, 0, p);
            match ip {
                DigitScan::NotDigits => None,
                DigitScan::TooBig => {
                    match frac_value(s, p + 1) {
                        Some(f) => {
                            proof {
                                lemma_digits_val_nonneg(s@.take(p as int));
                            }
                            None
                        },
                        None => None,
                    }
                },
                DigitScan::Value(v) => {
                    match frac_value(s, p + 1) {
                        Some(f) => {
                            let total: u128 = (v as u128) * 1000 + (f as u128);
                            if total <= u64::MAX as u128 {
                                Some(total as u64)
                            } else {
                                None
                            }
                        },
                        None => None,
                    }
                },
            }
        },
    }
}

/// Parses a decimal-string amount (an exchange balance, a quoted USD
/// price) into milliunits.
pub fn parse_decimal_str(s: &str) -> (r: Option<u64>)
    ensures
        decimal_result(decimal_milli(s@), r),
{
    let cs = chars_of(s);
    parse_decimal_chars(&cs)
}

/// The first line of a text: everything before the first line feed,
/// with a carriage return left by a CRLF ending dropped.
pub open spec fn first_line(s: Seq<char>) -> Seq<char> {
    match first_index_of(s, '\n') {
        None => s,
        Some(i) => {
            let l = s.take(i);
            if l.len() > 0 && l.last() == '\r' {
                l.drop_last()
            } else {
                l
            }
        },
    }
}

/// A text with every leading currency symbol removed.
pub open spec fn strip_dollars(s: Seq<char>) -> Seq<char>
    decreases s.len(),
{
    if s.len() > 0 && s[0] == '$' {
        strip_dollars(s.drop_first())
    } else {
        s
    }
}

/// A text with every comma (thousands separator) removed.
pub open spec fn without_commas(s: Seq<char>) -> Seq<char>
    decreases s.len(),
{
    if s.len() == 0 {
        Seq::empty()
    } else if s.last() == ',' {
        without_commas(s.drop_last())
    } else {
        without_commas(s.drop_last()).push(s.last())
    }
}

/// A text with every trailing repetition of `suf` removed.
pub open spec fn strip_suffix_rep(s: Seq<char>, suf: Seq<char>) -> Seq<char>
    decreases s.len(),
{
    if suf.len() > 0 && s.len() >= suf.len() && s.skip(s.len() - suf.len()) == suf {
        strip_suffix_rep(s.take(s.len() - suf.len()), suf)
    } else {
        s
    }
}

/// The milliunit USD amount shown by a scraped dashboard text: its
/// first line, leading `$` signs and thousands separators stripped,
/// read as a decimal, after trailing repetitions of `suffix` (a site's
/// page-title decoration) are removed.
pub open spec fn dashboard_milli(s: Seq<char>, suffix: Seq<char>) -> Option<int> {
    decimal_milli(without_commas(strip_suffix_rep(strip_dollars(first_line(s)), suffix)))
}

/// Whether `cs[hi - suf.len() .. hi]` spells out `suf`.
fn range_ends_with(cs: &Vec<char>, lo: usize, hi: usize, suf: &Vec<char>) -> (r: bool)
    requires
        lo <= hi <= cs@.len(),
        suf@.len() >= 1,
    ensures
        r == (hi - lo >= suf@.len() && cs@.subrange(lo as int, hi as int).skip(
            hi - lo - suf@.len()) =~= suf@),
{
    let m = suf.len();
    if hi - lo < m {
        return false;
    }
    let base = hi - m;
    let mut k: usize = 0;
    while k < m
        invariant
            k <= m == suf@.len(),
            lo <= base,
            base + m == hi <= cs@.len(),
            forall|j: int| 0 <= j < k ==> cs@[base + j] == suf@[j],
        decreases m - k,
    {
        if cs[base + k] != suf[k] {
            proof {
                let sub = cs@.subrange(lo as int, hi as int).skip(hi - lo - suf@.len());
                assert(sub[k as int] == cs@[base + k]);
            }
            return false;
        }
        k += 1;
    }
    proof {
        let sub = cs@.subrange(lo as int, hi as int).skip(hi - lo - suf@.len());
        assert forall|j: int| 0 <= j < m implies sub[j] == suf@[j] by {
            assert(sub[j] == cs@[base + j]);
        }
        assert(sub =~= suf@);
    }
    true
}

/// Extracts the USD amount from a scraped dashboard text, in
/// milliunits. The text's first line is used; leading `$` signs,
/// thousands separators and trailing repetitions of `suffix` are
/// stripped; what remains must be an unsigned decimal. `None` when the
/// page did not render a readable amount.
pub fn parse_dashboard_amount(text: &str, suffix: &str) -> (r: Option<u64>)
    ensures
        decimal_result(dashboard_milli(text@, suffix@), r),
{
    let cs = chars_of(text);
    let mut lo: usize = 0;
    let mut hi: usize = cs.len();
    match find_char(&cs, '\n') {
        Some(i) => {
            proof {
                lemma_first_index_of(cs@, '\n');
            }
            hi = i;
            if hi > 0 && cs[hi - 1] == '\r' {
                hi = hi - 1;
                proof {
                    assert(cs@.take(i as int).drop_last() =~= cs@.subrange(0, hi as int));
                }
            } else {
                proof {
                    assert(cs@.take(i as int) =~= cs@.subrange(0, hi as int));
                }
            }
        },
        None => {
            proof {
                assert(cs@ =~= cs@.subrange(0, hi as int));
            }
        },
    }
    let ghost line: Seq<char> = first_line(text@);
    proof {
        assert(line =~= cs@.subrange(lo as int, hi as int));
    }
    while lo < hi && cs[lo] == '$'
        invariant
            lo <= hi <= cs@.len(),
            strip_dollars(line) == strip_dollars(cs@.subrange(lo as int, hi as int)),
        decreases hi - lo,
    {
        proof {
            let cur = cs@.subrange(lo as int, hi as int);
            assert(cur[0] == cs@[lo as int]);
            assert(cur.drop_first() =~= cs@.subrange(lo + 1, hi as int));
        }
        lo += 1;
    }
    proof {
        let cur = cs@.subrange(lo as int, hi as int);
        assert(strip_dollars(cur) == cur);
    }
    let ghost unsigned: Seq<char> = strip_dollars(line);
    let sufc = chars_of(suffix);
    let m = sufc.len();
    if m > 0 {
        while range_ends_with(&cs, lo, hi, &sufc)
            invariant
                lo <= hi <= cs@.len(),
                m == sufc@.len(),
                sufc@ == suffix@,
                m >= 1,
                strip_suffix_rep(unsigned, suffix@) == strip_suffix_rep(
                    cs@.subrange(lo as int, hi as int),
                    suffix@,
                ),
            decreases hi - lo,
        {
            proof {
                let cur = cs@.subrange(lo as int, hi as int);
                assert(cur.skip(cur.len() - suffix@.len()) =~= suffix@);
                assert(cur.take(cur.len() - suffix@.len()) =~= cs@.subrange(
                    lo as int,
                    hi - suffix@.len(),
                ));
            }
            hi = hi - m;
        }
        proof {
            let cur = cs@.subrange(lo as int, hi as int);
            assert(strip_suffix_rep(cur, suffix@) == cur);
        }
    } else {
        proof {
            assert(strip_suffix_rep(unsigned, suffix@) == unsigned);
        }
    }
    let ghost trimmed: Seq<char> = strip_suffix_rep(unsigned, suffix@);
    let mut out: Vec<char> = Vec::new();
    let mut j: usize = lo;
    proof {
        assert(out@ =~= without_commas(cs@.subrange(lo as int, lo as int)));
    }
    while j < hi
        invariant
            lo <= j <= hi <= cs@.len(),
            out@ == without_commas(cs@.subrange(lo as int, j as int)),
        decreases hi - j,
    {
        proof {
            let pre = cs@.subrange(lo as int, j as int);
            let post = cs@.subrange(lo as int, j + 1);
            assert(post.drop_last() =~= pre);
            assert(post.last() == cs@[j as int]);
        }
        let c = cs[j];
        if c != ',' {
            out.push(c);
        }
        j += 1;
    }
    proof {
        assert(trimmed == cs@.subrange(lo as int, hi as int));
    }
    parse_decimal_chars(&out)
}

} // verus!
