//! Calendar instants and the proleptic Gregorian calendar they live in.
use chrono::{Datelike, Days, NaiveDate, NaiveTime};
use crate::text::{fixed_digits, push_fixed_digits, string_of};
use vstd::prelude::*;

verus! {

/// A calendar instant in UTC, to the second.
#[derive(Clone, Copy, Debug, PartialEq, Eq, Structural)]
pub struct Timestamp {
    pub year: i32,
    pub month: u32,
    pub day: u32,
    pub hour: u32,
    pub minute: u32,
    pub second: u32,
}

pub open spec fn is_leap(y: int) -> bool {
    (y % 4 == 0 && y % 100 != 0) || y % 400 == 0
}

pub open spec fn days_in_month(y: int, m: int) -> int {
    if m == 2 {
        if is_leap(y) {
            29
        } else {
            28
        }
    } else if m == 4 || m == 6 || m == 9 || m == 11 {
        30
    } else {
        31
    }
}

pub open spec fn is_valid_date(y: int, m: int, d: int) -> bool {
    1 <= m <= 12 && 1 <= d <= days_in_month(y, m)
}

pub open spec fn is_valid_time(h: int, mi: int, s: int) -> bool {
    0 <= h < 24 && 0 <= mi < 60 && 0 <= s < 60
}

pub open spec fn year_len(y: int) -> int {
    if is_leap(y) {
        366
    } else {
        365
    }
}

/// Days from 0000-01-01 to the first day of year `y` (for `y >= 0`).
pub open spec fn days_before_year(y: int) -> int
    decreases y,
{
    if y <= 0 {
        0
    } else {
        days_before_year(y - 1) + year_len(y - 1)
    }
}

/// Days from the first of January to the first day of month `m` of year `y`.
pub open spec fn days_before_month(y: int, m: int) -> int
    decreases m,
{
    if m <= 1 {
        0
    } else {
        days_before_month(y, m - 1) + days_in_month(y, m - 1)
    }
}

/// Days from 0000-01-01 to the given day.
pub open spec fn day_number(y: int, m: int, d: int) -> int {
    days_before_year(y) + days_before_month(y, m) + d - 1
}

impl Timestamp {
    /// A real day of the years 0 to 9999 and a real time of that day.
    pub open spec fn wf(&self) -> bool {
        &&& 0 <= self.year <= 9999
        &&& is_valid_date(self.year as int, self.month as int, self.day as int)
        &&& is_valid_time(self.hour as int, self.minute as int, self.second as int)
    }
}

/// The instant with these fields, when it exists.
pub open spec fn timestamp_of(y: int, mo: int, d: int, h: int, mi: int, s: int) -> Option<Timestamp> {
    if 0 <= y <= 9999 && is_valid_date(y, mo, d) && is_valid_time(h, mi, s) {
        Some(
            Timestamp {
                year: y as i32,
                month: mo as u32,
                day: d as u32,
                hour: h as u32,
                minute: mi as u32,
                second: s as u32,
            },
        )
    } else {
        None
    }
}

/// Relies on chrono's `NaiveDate::from_ymd_opt`, which is `Some` exactly for
/// the days of the proleptic Gregorian calendar within its year range (which
/// holds the years 0 to 9999).
#[verifier::external_body]
fn date_exists(year: i32, month: u32, day: u32) -> (r: bool)
    requires
        0 <= year <= 9999,
    ensures
        r == is_valid_date(year as int, month as int, day as int),
{
    NaiveDate::from_ymd_opt(year, month, day).is_some()
}

/// Relies on chrono's `NaiveTime::from_hms_opt`, which is `Some` exactly when
/// the hour is below 24 and the minute and second below 60.
#[verifier::external_body]
fn time_exists(hour: u32, minute: u32, second: u32) -> (r: bool)
    ensures
        r == is_valid_time(hour as int, minute as int, second as int),
{
    NaiveTime::from_hms_opt(hour, minute, second).is_some()
}

/// Relies on chrono's `NaiveDate::checked_add_days`: the day `days` days after
/// the given one, in the proleptic Gregorian calendar (the date is built with
/// `NaiveDate::from_ymd_opt` and read back through `Datelike`).
#[verifier::external_body]
fn add_days(year: i32, month: u32, day: u32, days: u32) -> (r: (i32, u32, u32))
    requires
        0 <= year <= 9999,
        is_valid_date(year as int, month as int, day as int),
        days <= 100000,
    ensures
        r.0 >= year,
        is_valid_date(r.0 as int, r.1 as int, r.2 as int),
        day_number(r.0 as int, r.1 as int, r.2 as int) == day_number(
            year as int,
            month as int,
            day as int,
        ) + days,
{
    let start = NaiveDate::from_ymd_opt(year, month, day).unwrap();
    let end = start.checked_add_days(Days::new(days as u64)).unwrap();
    (end.year(), end.month(), end.day())
}

/// The instant with these fields, when it is a real day and time of the
/// years 0 to 9999.
pub fn timestamp_from(y: u32, mo: u32, d: u32, h: u32, mi: u32, s: u32) -> (r: Option<Timestamp>)
    ensures
        r == timestamp_of(y as int, mo as int, d as int, h as int, mi as int, s as int),
        r matches Some(t) ==> t.wf(),
{
    if y > 9999 {
        return None;
    }
    if date_exists(y as i32, mo, d) && time_exists(h, mi, s) {
        Some(Timestamp { year: y as i32, month: mo, day: d, hour: h, minute: mi, second: s })
    } else {
        None
    }
}

/// The midnight that starts the day `n` days after 1904-01-01.
pub open spec fn is_spreadsheet_day(n: int, t: Timestamp) -> bool {
    &&& t.wf()
    &&& t.hour == 0 && t.minute == 0 && t.second == 0
    &&& day_number(t.year as int, t.month as int, t.day as int) == day_number(1904, 1, 1) + n
}

pub proof fn lemma_days_before_month_nonneg(y: int, m: int)
    ensures
        days_before_month(y, m) >= 0,
    decreases m,
{
    if m > 1 {
        lemma_days_before_month_nonneg(y, m - 1);
    }
}

pub proof fn lemma_years_apart(a: int, b: int)
    requires
        0 <= a <= b,
    ensures
        days_before_year(b) >= days_before_year(a) + 365 * (b - a),
    decreases b,
{
    if b > a {
        lemma_years_apart(a, b - 1);
    }
}

/// The day `n` days after 1904-01-01, at midnight.
pub fn spreadsheet_day(n: u32) -> (r: Timestamp)
    requires
        n <= 99999,
    ensures
        is_spreadsheet_day(n as int, r),
{
    let (y, m, d) = add_days(1904, 1, 1, n);
    proof {
        lemma_days_before_month_nonneg(y as int, m as int);
        lemma_years_apart(1904, y as int);
        assert(days_before_month(1904, 1) == 0);
    }
    Timestamp { year: y, month: m, day: d, hour: 0, minute: 0, second: 0 }
}


/// `YYYY-MM-DDThh:mm:ss`.
pub open spec fn iso_text(t: Timestamp) -> Seq<char> {
    fixed_digits(t.year as nat, 4) + seq!['-'] + fixed_digits(t.month as nat, 2) + seq!['-']
        + fixed_digits(t.day as nat, 2) + seq!['T'] + fixed_digits(t.hour as nat, 2) + seq![':']
        + fixed_digits(t.minute as nat, 2) + seq![':'] + fixed_digits(t.second as nat, 2)
}

impl Timestamp {
    /// The instant as `YYYY-MM-DDThh:mm:ss`.
    pub fn to_iso(&self) -> (r: String)
        requires
            self.wf(),
        ensures
            r@ == iso_text(*self),
    {
        let mut v: Vec<char> = Vec::new();
        push_fixed_digits(&mut v, self.year as u128, 4);
        v.push('-');
        push_fixed_digits(&mut v, self.month as u128, 2);
        v.push('-');
        push_fixed_digits(&mut v, self.day as u128, 2);
        v.push('T');
        push_fixed_digits(&mut v, self.hour as u128, 2);
        v.push(':');
        push_fixed_digits(&mut v, self.minute as u128, 2);
        v.push(':');
        push_fixed_digits(&mut v, self.second as u128, 2);
        assert(v@ =~= iso_text(*self));
        string_of(&v)
    }
}

} // verus!
