//! Calendar dates for the request-parameter template functions.
//!
//! The engine renders dates as `YYYY-MM-DD` and computes "N days ago" for
//! query templates. Dates are modelled as proleptic Gregorian calendar
//! days; the supported window is year 1 through year 9999, the range the
//! four-digit rendering covers. The one call that depends on the clock is
//! a trusted wrapper around `chrono`; everything on top of it is verified.

use vstd::prelude::*;
use crate::errors::ApitapError;
use crate::strutil::{chars_to_string, dchar, digit_char};

verus! {

/// A calendar date in the proleptic Gregorian calendar.
#[derive(Clone, Copy, Debug, PartialEq, Eq, Structural)]
pub struct Date {
    pub year: i32,
    pub month: u8,
    pub day: u8,
}

/// Gregorian leap-year rule.
pub open spec fn is_leap_year(y: int) -> bool {
    y % 4 == 0 && (y % 100 != 0 || y % 400 == 0)
}

/// Days in a month of a given year.
pub open spec fn days_in_month(y: int, m: int) -> int {
    if m == 1 || m == 3 || m == 5 || m == 7 || m == 8 || m == 10 || m == 12 {
        31
    } else if m == 4 || m == 6 || m == 9 || m == 11 {
        30
    } else if is_leap_year(y) {
        29
    } else {
        28
    }
}

impl Date {
    /// A well-formed date inside the supported window.
    pub open spec fn valid(&self) -> bool {
        1 <= self.year <= 9999 && 1 <= self.month <= 12 && 1 <= self.day && self.day
            <= days_in_month(self.year as int, self.month as int)
    }

    /// The first supported date.
    pub open spec fn is_min(&self) -> bool {
        self.year == 1 && self.month == 1 && self.day == 1
    }
}

/// The date one day earlier.
pub open spec fn prev_date(d: Date) -> Date {
    if d.day > 1 {
        Date { year: d.year, month: d.month, day: (d.day - 1) as u8 }
    } else if d.month > 1 {
        Date {
            year: d.year,
            month: (d.month - 1) as u8,
            day: days_in_month(d.year as int, d.month as int - 1) as u8,
        }
    } else {
        Date { year: (d.year - 1) as i32, month: 12, day: 31 }
    }
}

/// The date `n` days earlier, or `None` when that falls before the
/// supported window.
pub open spec fn minus_days_spec(d: Date, n: nat) -> Option<Date>
    decreases n,
{
    if n == 0 {
        Some(d)
    } else if d.is_min() {
        None
    } else {
        minus_days_spec(prev_date(d), (n - 1) as nat)
    }
}

pub proof fn lemma_minus_days_valid(d: Date, n: nat)
    requires
        d.valid(),
    ensures
        minus_days_spec(d, n) matches Some(x) ==> x.valid(),
    decreases n,
{
    if n > 0 && !d.is_min() {
        lemma_prev_valid(d);
        lemma_minus_days_valid(prev_date(d), (n - 1) as nat);
    }
}

pub proof fn lemma_prev_valid(d: Date)
    requires
        d.valid(),
        !d.is_min(),
    ensures
        prev_date(d).valid(),
        !(prev_date(d) == d),
{
}

/// Leap-year test.
pub fn leap_year(y: i32) -> (r: bool)
    requires
        y >= 1,
    ensures
        r == is_leap_year(y as int),
{
    y % 4 == 0 && (y % 100 != 0 || y % 400 == 0)
}

/// Days in a month.
pub fn month_len(y: i32, m: u8) -> (r: u8)
    requires
        y >= 1,
        1 <= m <= 12,
    ensures
        r as int == days_in_month(y as int, m as int),
{
    match m {
        1 | 3 | 5 | 7 | 8 | 10 | 12 => 31,
        4 | 6 | 9 | 11 => 30,
        _ => if leap_year(y) {
            29
        } else {
            28
        },
    }
}

/// Step one day back.
pub fn prev_day(d: &Date) -> (r: Date)
    requires
        d.valid(),
        !d.is_min(),
    ensures
        r == prev_date(*d),
        r.valid(),
{
    if d.day > 1 {
        Date { year: d.year, month: d.month, day: d.day - 1 }
    } else if d.month > 1 {
        Date { year: d.year, month: d.month - 1, day: month_len(d.year, d.month - 1) }
    } else {
        Date { year: d.year - 1, month: 12, day: 31 }
    }
}

/// Step `n` days back, or `None` when the result would fall before the
/// supported window.
pub fn minus_days(d: &Date, n: u64) -> (r: Option<Date>)
    requires
        d.valid(),
    ensures
        r == minus_days_spec(*d, n as nat),
        r matches Some(x) ==> x.valid(),
{
    let mut cur: Date = *d;
    let mut k: u64 = 0;
    while k < n
        invariant
            k <= n,
            cur.valid(),
            minus_days_spec(*d, n as nat) == minus_days_spec(cur, (n - k) as nat),
        decreases n - k,
    {
        if cur.year == 1 && cur.month == 1 && cur.day == 1 {
            proof {
                assert(cur.is_min());
                assert(minus_days_spec(cur, (n - k) as nat) is None);
            }
            return None;
        }
        proof {
            lemma_prev_valid(cur);
        }
        cur = prev_day(&cur);
        k = k + 1;
    }
    Some(cur)
}

/// The digits of `n` left-padded with zeros to width four.
pub open spec fn pad4(n: int) -> Seq<char> {
    seq![
        dchar((n / 1000 % 10) as nat),
        dchar((n / 100 % 10) as nat),
        dchar((n / 10 % 10) as nat),
        dchar((n % 10) as nat),
    ]
}

/// The digits of `n` left-padded with zeros to width two.
pub open spec fn pad2(n: int) -> Seq<char> {
    seq![dchar((n / 10 % 10) as nat), dchar((n % 10) as nat)]
}

/// The `YYYY-MM-DD` rendering of a date.
pub open spec fn format_date_spec(d: Date) -> Seq<char> {
    pad4(d.year as int) + seq!['-'] + pad2(d.month as int) + seq!['-'] + pad2(d.day as int)
}

/// A rendered date consists of digits and dashes only; in particular
/// it holds no brace.
pub proof fn lemma_format_no_brace(d: Date)
    ensures
        forall|j: int|
            0 <= j < format_date_spec(d).len() ==> #[trigger] format_date_spec(d)[j] != '{',
{
    let f = format_date_spec(d);
    assert(f.len() == 10);
    assert forall|j: int| 0 <= j < f.len() implies #[trigger] f[j] != '{' by {
        if j < 4 {
            assert(f[j] == pad4(d.year as int)[j]);
        } else if j == 4 {
            assert(f[j] == '-');
        } else if j < 7 {
            assert(f[j] == pad2(d.month as int)[j - 5]);
        } else if j == 7 {
            assert(f[j] == '-');
        } else {
            assert(f[j] == pad2(d.day as int)[j - 8]);
        }
    }
}

/// Render a date as `YYYY-MM-DD`.
pub fn format_date(d: &Date) -> (r: String)
    requires
        d.valid(),
    ensures
        r@ == format_date_spec(*d),
{
    let y: u64 = d.year as u64;
    let m: u64 = d.month as u64;
    let dy: u64 = d.day as u64;
    let mut v: Vec<char> = Vec::new();
    v.push(digit_char((y / 1000 % 10) as u8));
    v.push(digit_char((y / 100 % 10) as u8));
    v.push(digit_char((y / 10 % 10) as u8));
    v.push(digit_char((y % 10) as u8));
    v.push('-');
    v.push(digit_char((m / 10 % 10) as u8));
    v.push(digit_char((m % 10) as u8));
    v.push('-');
    v.push(digit_char((dy / 10 % 10) as u8));
    v.push(digit_char((dy % 10) as u8));
    proof {
        assert(v@ =~= format_date_spec(*d));
    }
    chars_to_string(&v)
}

/// Relies on `chrono`: `Local::now().date_naive()` is the current local
/// calendar date, and `Datelike::{year, month, day}` return a valid
/// Gregorian year, month in `1..=12` and day in `1..=days_in_month`.
/// On a system whose clock predates the Unix epoch, `chrono` aborts the
/// process inside `now` instead of returning.
#[verifier::external_body]
fn local_today_raw() -> (r: (i64, u8, u8))
    ensures
        1 <= r.1 <= 12,
        1 <= r.2 && r.2 as int <= days_in_month(r.0 as int, r.1 as int),
{
    let today = chrono::Local::now().date_naive();
    (
        chrono::Datelike::year(&today) as i64,
        chrono::Datelike::month(&today) as u8,
        chrono::Datelike::day(&today) as u8,
    )
}

/// The current local date, clamped into the supported window of year 1
/// through year 9999.
pub fn local_today() -> (r: Date)
    ensures
        r.valid(),
{
    let (y, m, d) = local_today_raw();
    if y < 1 {
        Date { year: 1, month: 1, day: 1 }
    } else if y > 9999 {
        Date { year: 9999, month: 12, day: 31 }
    } else {
        Date { year: y as i32, month: m, day: d }
    }
}

/// Today's date in `YYYY-MM-DD` form, from the local clock.
pub fn current_date() -> (r: String)
    ensures
        exists|t: Date| t.valid() && r@ == format_date_spec(t),
{
    let today = local_today();
    let r = format_date(&today);
    proof {
        assert(today.valid() && r@ == format_date_spec(today));
    }
    r
}

/// The date `days` days before `today`, rendered as `YYYY-MM-DD`.
///
/// Negative `days` is rejected; a result before the supported window is
/// rejected as out of range. With `days == 0` the result is `today`
/// itself, rendered.
pub fn few_date_ago_from(today: &Date, days: i64) -> (r: Result<String, ApitapError>)
    requires
        today.valid(),
    ensures
        days < 0 ==> (r matches Err(e) && e matches ApitapError::PipelineError(m) && m@
            == "days must be non-negative"@),
        days >= 0 ==> (match r {
            Ok(s) => {
                &&& minus_days_spec(*today, days as nat) matches Some(x)
                &&& s@ == format_date_spec(minus_days_spec(*today, days as nat)->Some_0)
            },
            Err(e) => minus_days_spec(*today, days as nat) is None && (e matches
                ApitapError::PipelineError(m) && m@ == "date out of range"@),
        }),
        days == 0 ==> (r matches Ok(s) && s@ == format_date_spec(*today)),
{
    if days < 0 {
        return Err(ApitapError::PipelineError(String::from_str("days must be non-negative")));
    }
    match minus_days(today, days as u64) {
        Some(target) => Ok(format_date(&target)),
        None => Err(ApitapError::PipelineError(String::from_str("date out of range"))),
    }
}

/// The date `days` days ago, from the local clock, as `YYYY-MM-DD`.
///
/// Negative `days` is the one rejected input; for any other the result
/// is the rendering of the clock date stepped back, or the out-of-range
/// error when that falls before the supported window — so zero days
/// always succeeds, the window's first day having nowhere to step.
pub fn few_date_ago(days: i64) -> (r: Result<String, ApitapError>)
    ensures
        days < 0 ==> (r matches Err(e) && e matches ApitapError::PipelineError(m) && m@
            == "days must be non-negative"@),
        days >= 0 ==> exists|t: Date|
            #[trigger] t.valid() && (match r {
                Ok(s) => minus_days_spec(t, days as nat) matches Some(x) && s@
                    == format_date_spec(x),
                Err(e) => minus_days_spec(t, days as nat) is None && (e matches
                    ApitapError::PipelineError(m) && m@ == "date out of range"@),
            }),
        days == 0 ==> r is Ok,
        r matches Ok(s) ==> exists|t: Date| t.valid() && s@ == format_date_spec(t),
{
    let today = local_today();
    let r = few_date_ago_from(&today, days);
    proof {
        if r is Ok {
            lemma_minus_days_valid(today, days as nat);
            let x = minus_days_spec(today, days as nat)->Some_0;
            assert(x.valid() && r->Ok_0@ == format_date_spec(x));
        }
        if days >= 0 {
            assert(today.valid() && (match r {
                Ok(s) => minus_days_spec(today, days as nat) matches Some(x) && s@
                    == format_date_spec(x),
                Err(e) => minus_days_spec(today, days as nat) is None && (e matches
                    ApitapError::PipelineError(m) && m@ == "date out of range"@),
            }));
        }
    }
    r
}

} // verus!
