//! Calendar dates as plain values.
//!
//! The engine never computes with wall-clock time; it only compares the
//! dates carried by ledger transactions against "today", which the
//! caller obtains once per run. A date is year, month and day held
//! directly, ordered lexicographically.

use vstd::prelude::*;

use crate::text::digit_val;
use crate::text::is_digit;
use vstd::string::StrSliceExecFns;
use vstd::string::StringExecFns;

verus! {

/// A calendar date. Well-formed values keep the fields in calendar
/// ranges and the year within four digits.
#[derive(Clone, Copy, PartialEq, Eq, Structural, Debug)]
pub struct Date {
    pub year: u16,
    pub month: u8,
    pub day: u8,
}

impl Date {
    pub open spec fn wf(self) -> bool {
        &&& 1 <= self.month <= 12
        &&& 1 <= self.day <= 31
        &&& self.year <= 9999
    }

    /// Lexicographic order on (year, month, day).
    pub open spec fn spec_before(self, other: Date) -> bool {
        ||| self.year < other.year
        ||| (self.year == other.year && self.month < other.month)
        ||| (self.year == other.year && self.month == other.month && self.day < other.day)
    }

    pub fn new(year: u16, month: u8, day: u8) -> (r: Option<Date>)
        ensures
            r is Some <==> (Date { year, month, day }).wf(),
            r is Some ==> r->0 == (Date { year, month, day }),
    {
        let d = Date { year, month, day };
        if 1 <= month && month <= 12 && 1 <= day && day <= 31 && year <= 9999 {
            Some(d)
        } else {
            None
        }
    }

    /// Whether `self` falls strictly earlier than `other`.
    pub fn before(&self, other: &Date) -> (r: bool)
        ensures
            r == self.spec_before(*other),
    {
        self.year < other.year || (self.year == other.year && (self.month < other.month || (
        self.month == other.month && self.day < other.day)))
    }
}

/// The digit character for a value from zero to nine.
pub open spec fn digit_char(d: int) -> char {
    if d == 0 {
        '0'
    } else if d == 1 {
        '1'
    } else if d == 2 {
        '2'
    } else if d == 3 {
        '3'
    } else if d == 4 {
        '4'
    } else if d == 5 {
        '5'
    } else if d == 6 {
        '6'
    } else if d == 7 {
        '7'
    } else if d == 8 {
        '8'
    } else {
        '9'
    }
}

/// A value below one hundred, zero-padded to two digits.
pub open spec fn two_digits(n: int) -> Seq<char> {
    seq![digit_char(n / 10), digit_char(n % 10)]
}

/// A value below ten thousand, zero-padded to four digits.
pub open spec fn four_digits(n: int) -> Seq<char> {
    seq![digit_char(n / 1000), digit_char((n / 100) % 10), digit_char((n / 10) % 10), digit_char(
        n % 10,
    )]
}

/// A date spelled the way the ledger's API writes dates.
pub open spec fn ymd_seq(d: Date) -> Seq<char> {
    four_digits(d.year as int) + seq!['-'] + two_digits(d.month as int) + seq!['-'] + two_digits(
        d.day as int,
    )
}

/// The one-character string for a digit value.
fn digit_str(d: u8) -> (r: &'static str)
    requires
        d <= 9,
    ensures
        r@ == seq![digit_char(d as int)],
{
    let r: &'static str = if d == 0 {
        "0"
    } else if d == 1 {
        "1"
    } else if d == 2 {
        "2"
    } else if d == 3 {
        "3"
    } else if d == 4 {
        "4"
    } else if d == 5 {
        "5"
    } else if d == 6 {
        "6"
    } else if d == 7 {
        "7"
    } else if d == 8 {
        "8"
    } else {
        "9"
    };
    proof {
        reveal_strlit("0");
        reveal_strlit("1");
        reveal_strlit("2");
        reveal_strlit("3");
        reveal_strlit("4");
        reveal_strlit("5");
        reveal_strlit("6");
        reveal_strlit("7");
        reveal_strlit("8");
        reveal_strlit("9");
        assert(r@ =~= seq![digit_char(d as int)]);
    }
    r
}

impl Date {
    /// Writes the date as the ledger's API spells dates,
    /// zero-padded with a four-digit year.
    pub fn format_ymd(&self) -> (r: String)
        requires
            self.wf(),
        ensures
            r@ == ymd_seq(*self),
    {
        let y = self.year;
        let m = self.month;
        let d = self.day;
        let mut s = String::new();
        s.append(digit_str((y / 1000) as u8));
        s.append(digit_str(((y / 100) % 10) as u8));
        s.append(digit_str(((y / 10) % 10) as u8));
        s.append(digit_str((y % 10) as u8));
        s.append("-");
        s.append(digit_str((m / 10) as u8));
        s.append(digit_str((m % 10) as u8));
        s.append("-");
        s.append(digit_str((d / 10) as u8));
        s.append(digit_str((d % 10) as u8));
        proof {
            reveal_strlit("-");
            assert(s@ =~= ymd_seq(*self));
        }
        s
    }

    /// Reads a ledger-spelled date: exactly ten characters, four digit
    /// year, two digit month and day, dashes between, in calendar
    /// range.
    pub fn parse_ymd(s: &str) -> (r: Option<Date>)
        ensures
            r == parse_ymd_spec(s@),
    {
        if s.unicode_len() != 10 {
            return None;
        }
        let c4 = s.get_char(4);
        let c7 = s.get_char(7);
        if c4 != '-' || c7 != '-' {
            return None;
        }
        let d0 = digit_of(s, 0);
        let d1 = digit_of(s, 1);
        let d2 = digit_of(s, 2);
        let d3 = digit_of(s, 3);
        let d5 = digit_of(s, 5);
        let d6 = digit_of(s, 6);
        let d8 = digit_of(s, 8);
        let d9 = digit_of(s, 9);
        match (d0, d1, d2, d3, d5, d6, d8, d9) {
            (
                Some(y0),
                Some(y1),
                Some(y2),
                Some(y3),
                Some(m0),
                Some(m1),
                Some(a0),
                Some(a1),
            ) => {
                let year: u32 = y0 * 1000 + y1 * 100 + y2 * 10 + y3;
                let month: u32 = m0 * 10 + m1;
                let day: u32 = a0 * 10 + a1;
                Date::new(year as u16, month as u8, day as u8)
            },
            _ => None,
        }
    }
}

/// The date a ledger-spelled string denotes, if well formed.
pub open spec fn parse_ymd_spec(s: Seq<char>) -> Option<Date> {
    if s.len() == 10 && s[4] == '-' && s[7] == '-' && is_digit(s[0]) && is_digit(s[1]) && is_digit(
        s[2],
    ) && is_digit(s[3]) && is_digit(s[5]) && is_digit(s[6]) && is_digit(s[8]) && is_digit(s[9]) {
        let y = digit_val(s[0]) * 1000 + digit_val(s[1]) * 100 + digit_val(s[2]) * 10 + digit_val(
            s[3],
        );
        let m = digit_val(s[5]) * 10 + digit_val(s[6]);
        let d = digit_val(s[8]) * 10 + digit_val(s[9]);
        let date = Date { year: y as u16, month: m as u8, day: d as u8 };
        if date.wf() {
            Some(date)
        } else {
            None
        }
    } else {
        None
    }
}

/// Reading a digit character back gives the digit.
proof fn lemma_digit_char_val(d: int)
    requires
        0 <= d <= 9,
    ensures
        is_digit(digit_char(d)),
        digit_val(digit_char(d)) == d,
{
}

/// Law (round trip): parsing a formatted date gives the date back, so
/// the entries the run writes are the entries a later run finds.
pub proof fn lemma_ymd_round_trip(d: Date)
    requires
        d.wf(),
    ensures
        parse_ymd_spec(ymd_seq(d)) == Some(d),
{
    let y = d.year as int;
    let m = d.month as int;
    let dd = d.day as int;
    let s = ymd_seq(d);
    assert(s =~= seq![
        digit_char(y / 1000),
        digit_char((y / 100) % 10),
        digit_char((y / 10) % 10),
        digit_char(y % 10),
        '-',
        digit_char(m / 10),
        digit_char(m % 10),
        '-',
        digit_char(dd / 10),
        digit_char(dd % 10),
    ]);
    lemma_digit_char_val(y / 1000);
    lemma_digit_char_val((y / 100) % 10);
    lemma_digit_char_val((y / 10) % 10);
    lemma_digit_char_val(y % 10);
    lemma_digit_char_val(m / 10);
    lemma_digit_char_val(m % 10);
    lemma_digit_char_val(dd / 10);
    lemma_digit_char_val(dd % 10);
    assert(y / 1000 <= 9) by {
        vstd::arithmetic::div_mod::lemma_div_is_ordered(y, 9999, 1000);
    }
    vstd::arithmetic::div_mod::lemma_fundamental_div_mod(y, 10);
    vstd::arithmetic::div_mod::lemma_fundamental_div_mod(y / 10, 10);
    vstd::arithmetic::div_mod::lemma_fundamental_div_mod(y / 100, 10);
    vstd::arithmetic::div_mod::lemma_div_denominator(y, 10, 10);
    vstd::arithmetic::div_mod::lemma_div_denominator(y, 100, 10);
    vstd::arithmetic::div_mod::lemma_div_denominator(y / 10, 10, 10);
    assert(y == (y / 1000) * 1000 + ((y / 100) % 10) * 100 + ((y / 10) % 10) * 10 + y % 10);
    vstd::arithmetic::div_mod::lemma_fundamental_div_mod(m, 10);
    vstd::arithmetic::div_mod::lemma_fundamental_div_mod(dd, 10);
    assert(m == (m / 10) * 10 + m % 10);
    assert(dd == (dd / 10) * 10 + dd % 10);
}

/// The digit value at one position of a string.
fn digit_of(s: &str, i: usize) -> (r: Option<u32>)
    requires
        i < s@.len(),
    ensures
        r is Some <==> is_digit(s@[i as int]),
        r is Some ==> r->0 == digit_val(s@[i as int]) && r->0 <= 9,
{
    let c = s.get_char(i);
    let u = c as u32;
    if 48 <= u && u <= 57 {
        Some(u - 48)
    } else {
        None
    }
}

/// Relies on chrono's `Utc::now`, `NaiveDate::year`, `Datelike::month`
/// and `Datelike::day` for the current UTC calendar date; chrono
/// documents month as 1 to 12 and day as 1 to 31. The year is passed on
/// untouched for the caller to range-check.
#[verifier::external_body]
fn now_ymd_utc() -> (r: (i32, u32, u32))
    ensures
        1 <= r.1 <= 12,
        1 <= r.2 <= 31,
{
    let now = chrono::Utc::now().date_naive();
    (
        chrono::Datelike::year(&now),
        chrono::Datelike::month(&now),
        chrono::Datelike::day(&now),
    )
}

/// The current UTC date, or `None` for a clock reading outside the
/// four-digit-year range the engine works in.
pub fn today_utc() -> (r: Option<Date>)
    ensures
        r is Some ==> r->0.wf(),
{
    let (y, m, d) = now_ymd_utc();
    if 0 <= y && y <= 9999 {
        Date::new(y as u16, m as u8, d as u8)
    } else {
        None
    }
}

} // verus!
