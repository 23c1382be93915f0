//! The date grammars, tried in a fixed order on a value's text.
use crate::calendar::{
    is_spreadsheet_day, iso_text, spreadsheet_day, timestamp_from, timestamp_of, Timestamp,
};
use crate::text::{
    all_digits, ch, ch_at, chars_of, digits, digits_at, fixed_digits, is_space, is_space_char,
    lemma_digit_run_exact, lemma_fixed_digits, lemma_value_below, lit, lit_at, lower_seq,
    lower_vec, number_at, or_skip, pos, pow10, some_digits, some_digits_at, spaces, spaces_at,
    value_at,
};
use vstd::prelude::*;

verus! {

/// The three-letter stem (`full == false`) or the full English name of month
/// `k + 1`, in lower case.
pub open spec fn month_word(k: int, full: bool) -> Seq<char> {
    if full {
        if k == 0 {
            "january"@
        } else if k == 1 {
            "february"@
        } else if k == 2 {
            "march"@
        } else if k == 3 {
            "april"@
        } else if k == 4 {
            "may"@
        } else if k == 5 {
            "june"@
        } else if k == 6 {
            "july"@
        } else if k == 7 {
            "august"@
        } else if k == 8 {
            "september"@
        } else if k == 9 {
            "october"@
        } else if k == 10 {
            "november"@
        } else {
            "december"@
        }
    } else {
        if k == 0 {
            "jan"@
        } else if k == 1 {
            "feb"@
        } else if k == 2 {
            "mar"@
        } else if k == 3 {
            "apr"@
        } else if k == 4 {
            "may"@
        } else if k == 5 {
            "jun"@
        } else if k == 6 {
            "jul"@
        } else if k == 7 {
            "aug"@
        } else if k == 8 {
            "sep"@
        } else if k == 9 {
            "oct"@
        } else if k == 10 {
            "nov"@
        } else {
            "dec"@
        }
    }
}

fn month_word_str(k: usize, full: bool) -> (r: &'static str)
    requires
        k < 12,
    ensures
        r@ == month_word(k as int, full),
{
    if full {
        if k == 0 {
            "january"
        } else if k == 1 {
            "february"
        } else if k == 2 {
            "march"
        } else if k == 3 {
            "april"
        } else if k == 4 {
            "may"
        } else if k == 5 {
            "june"
        } else if k == 6 {
            "july"
        } else if k == 7 {
            "august"
        } else if k == 8 {
            "september"
        } else if k == 9 {
            "october"
        } else if k == 10 {
            "november"
        } else {
            "december"
        }
    } else {
        if k == 0 {
            "jan"
        } else if k == 1 {
            "feb"
        } else if k == 2 {
            "mar"
        } else if k == 3 {
            "apr"
        } else if k == 4 {
            "may"
        } else if k == 5 {
            "jun"
        } else if k == 6 {
            "jul"
        } else if k == 7 {
            "aug"
        } else if k == 8 {
            "sep"
        } else if k == 9 {
            "oct"
        } else if k == 10 {
            "nov"
        } else {
            "dec"
        }
    }
}

/// The first month, from index `k` on, whose word stands at `i` of `l`;
/// 12 when none does.
pub open spec fn month_from(l: Seq<char>, i: int, full: bool, k: int) -> int
    decreases 12 - k,
{
    if k >= 12 {
        12
    } else if lit(l, i, month_word(k, full)) >= 0 {
        k
    } else {
        month_from(l, i, full, k + 1)
    }
}

/// Index of the first month whose word stands at `i` of `l`; 12 when none.
pub open spec fn month_at(l: Seq<char>, i: int, full: bool) -> int {
    month_from(l, i, full, 0)
}

/// Position after the month word found at `i`, or `-1`.
pub open spec fn month_end(l: Seq<char>, i: int, full: bool) -> int {
    let k = month_at(l, i, full);
    if k < 12 {
        lit(l, i, month_word(k, full))
    } else {
        -1
    }
}

fn month_at_exec(l: &Vec<char>, i: usize, full: bool) -> (r: (usize, Option<usize>))
    requires
        i <= l.len(),
    ensures
        r.0 == month_at(l@, i as int, full),
        pos(r.1) == month_end(l@, i as int, full),
        r.1 is Some ==> r.1->0 <= l.len(),
{
    let mut k: usize = 0;
    while k < 12
        invariant
            k <= 12,
            i <= l.len(),
            month_from(l@, i as int, full, 0) == month_from(l@, i as int, full, k as int),
        decreases 12 - k,
    {
        let e = lit_at(l, i, month_word_str(k, full));
        if e.is_some() {
            return (k, e);
        }
        k = k + 1;
    }
    (12, None)
}

/// The month that a name denotes: the first month whose three-letter stem
/// starts the name, in any case (`mai` counts for May too); shorter or other
/// names denote none.
pub open spec fn month_of_name(s: Seq<char>) -> Option<u32> {
    let l = lower_seq(s);
    let k = month_at(l, 0, false);
    if k < 12 {
        Some((k + 1) as u32)
    } else if lit(l, 0, "mai"@) >= 0 {
        Some(5)
    } else {
        None
    }
}

/// The number (1 to 12) of the month that `month_name` names.
pub fn month_to_int(month_name: &str) -> (r: Option<u32>)
    ensures
        r == month_of_name(month_name@),
        r matches Some(m) ==> 1 <= m <= 12,
{
    let l = lower_vec(&chars_of(month_name));
    let (k, _) = month_at_exec(&l, 0, false);
    if k < 12 {
        Some((k + 1) as u32)
    } else if lit_at(&l, 0, "mai").is_some() {
        Some(5)
    } else {
        None
    }
}


/// `YYYY-MM-DD` from `i`: the position after it, or `-1`.
pub open spec fn ymd_from(t: Seq<char>, i: int) -> int {
    let a = digits(t, i, 4, 4);
    let b = ch(t, a, '-');
    let c = digits(t, b, 2, 2);
    let d = ch(t, c, '-');
    digits(t, d, 2, 2)
}

fn ymd_at(t: &Vec<char>, i: usize) -> (r: Option<usize>)
    requires
        i <= t.len(),
    ensures
        pos(r) == ymd_from(t@, i as int),
        r matches Some(e) ==> {
            &&& e == i + 10
            &&& e <= t.len()
            &&& all_digits(t@.subrange(i as int, i + 4))
            &&& all_digits(t@.subrange(i + 5, i + 7))
            &&& all_digits(t@.subrange(i + 8, i + 10))
        },
{
    let a = digits_at(t, i, 4, 4)?;
    let b = ch_at(t, a, '-')?;
    let c = digits_at(t, b, 2, 2)?;
    let d = ch_at(t, c, '-')?;
    digits_at(t, d, 2, 2)
}

/// The value of the digits in `t[from..to]`, when it fits a `u32`.
fn field(t: &Vec<char>, from: usize, to: usize) -> (r: Option<u32>)
    requires
        from <= to <= t.len(),
        all_digits(t@.subrange(from as int, to as int)),
    ensures
        r is Some <==> value_at(t@, from as int, to as int) <= u32::MAX,
        r is Some ==> r->0 == value_at(t@, from as int, to as int),
{
    match number_at(t, from, to, 0xffff_ffff) {
        Some(v) => Some(v as u32),
        None => None,
    }
}

/// Five digits: a day count from 1904-01-01, as spreadsheets store dates.
pub open spec fn spreadsheet_form(t: Seq<char>) -> bool {
    digits(t, 0, 5, 5) == t.len()
}

/// `YYYY-MM-DDThh:mm`, with an optional `:ss`.
pub open spec fn iso_time_form(t: Seq<char>) -> Option<Timestamp> {
    let h0 = ch(t, ymd_from(t, 0), 'T');
    let h1 = some_digits(t, h0);
    let m0 = ch(t, h1, ':');
    let m1 = some_digits(t, m0);
    let s0 = ch(t, m1, ':');
    let s1 = some_digits(t, s0);
    if or_skip(m1, s1) == t.len() {
        timestamp_of(
            value_at(t, 0, 4) as int,
            value_at(t, 5, 7) as int,
            value_at(t, 8, 10) as int,
            value_at(t, h0, h1) as int,
            value_at(t, m0, m1) as int,
            if s1 >= 0 {
                value_at(t, s0, s1) as int
            } else {
                0
            },
        )
    } else {
        None
    }
}

fn iso_time_form_exec(t: &Vec<char>) -> (r: Option<Timestamp>)
    ensures
        r == iso_time_form(t@),
{
    let d = ymd_at(t, 0)?;
    let h0 = ch_at(t, d, 'T')?;
    let h1 = some_digits_at(t, h0)?;
    let m0 = ch_at(t, h1, ':')?;
    let m1 = some_digits_at(t, m0)?;
    let mut end = m1;
    let mut sec: Option<(usize, usize)> = None;
    if let Some(s0) = ch_at(t, m1, ':') {
        if let Some(s1) = some_digits_at(t, s0) {
            end = s1;
            sec = Some((s0, s1));
        }
    }
    if end != t.len() {
        return None;
    }
    let y = field(t, 0, 4)?;
    let mo = field(t, 5, 7)?;
    let dd = field(t, 8, 10)?;
    let h = field(t, h0, h1)?;
    let mi = field(t, m0, m1)?;
    let s = match sec {
        Some((s0, s1)) => field(t, s0, s1)?,
        None => 0,
    };
    timestamp_from(y, mo, dd, h, mi, s)
}

/// `YYYY-MM-DDZ`: midnight UTC.
pub open spec fn utc_day_form(t: Seq<char>) -> Option<Timestamp> {
    if ch(t, ymd_from(t, 0), 'Z') == t.len() {
        timestamp_of(value_at(t, 0, 4) as int, value_at(t, 5, 7) as int, value_at(t, 8, 10) as int, 0, 0, 0)
    } else {
        None
    }
}

/// `YYYY-MM-DD/YYYY-MM-DD`: the first day of the range.
pub open spec fn day_range_form(t: Seq<char>) -> Option<Timestamp> {
    if ymd_from(t, ch(t, ymd_from(t, 0), '/')) == t.len() {
        timestamp_of(value_at(t, 0, 4) as int, value_at(t, 5, 7) as int, value_at(t, 8, 10) as int, 0, 0, 0)
    } else {
        None
    }
}

/// The day `YYYY-MM-DD` at the start of `t` at midnight, once the caller has
/// seen that the whole text has the expected shape.
fn leading_day(t: &Vec<char>) -> (r: Option<Timestamp>)
    requires
        10 <= t.len(),
        all_digits(t@.subrange(0, 4)),
        all_digits(t@.subrange(5, 7)),
        all_digits(t@.subrange(8, 10)),
    ensures
        r == timestamp_of(value_at(t@, 0, 4) as int, value_at(t@, 5, 7) as int, value_at(t@, 8, 10) as int, 0, 0, 0),
{
    let y = field(t, 0, 4)?;
    let mo = field(t, 5, 7)?;
    let d = field(t, 8, 10)?;
    timestamp_from(y, mo, d, 0, 0, 0)
}

fn utc_day_form_exec(t: &Vec<char>) -> (r: Option<Timestamp>)
    ensures
        r == utc_day_form(t@),
{
    let d = ymd_at(t, 0)?;
    let e = ch_at(t, d, 'Z')?;
    if e != t.len() {
        return None;
    }
    leading_day(t)
}

fn day_range_form_exec(t: &Vec<char>) -> (r: Option<Timestamp>)
    ensures
        r == day_range_form(t@),
{
    let d = ymd_at(t, 0)?;
    let b = ch_at(t, d, '/')?;
    let e = ymd_at(t, b)?;
    if e != t.len() {
        return None;
    }
    leading_day(t)
}


/// `YYYY-M` or `YYYY-MM`, optionally followed by `/YYYY-M[M]`: the first day
/// of the first month.
pub open spec fn month_range_form(t: Seq<char>) -> Option<Timestamp> {
    let b = ch(t, digits(t, 0, 4, 4), '-');
    let c = digits(t, b, 1, 2);
    let g = digits(t, ch(t, digits(t, ch(t, c, '/'), 4, 4), '-'), 1, 2);
    if or_skip(c, g) == t.len() {
        timestamp_of(value_at(t, 0, 4) as int, value_at(t, b, c) as int, 1, 0, 0, 0)
    } else {
        None
    }
}

fn month_range_form_exec(t: &Vec<char>) -> (r: Option<Timestamp>)
    ensures
        r == month_range_form(t@),
{
    let a = digits_at(t, 0, 4, 4)?;
    let b = ch_at(t, a, '-')?;
    let c = digits_at(t, b, 1, 2)?;
    let mut end = c;
    if let Some(d) = ch_at(t, c, '/') {
        if let Some(e) = digits_at(t, d, 4, 4) {
            if let Some(f) = ch_at(t, e, '-') {
                if let Some(g) = digits_at(t, f, 1, 2) {
                    end = g;
                }
            }
        }
    }
    if end != t.len() {
        return None;
    }
    let y = field(t, 0, 4)?;
    let mo = field(t, b, c)?;
    timestamp_from(y, mo, 1, 0, 0, 0)
}

/// `YYYYMMDD`.
pub open spec fn compact_form(t: Seq<char>) -> Option<Timestamp> {
    if digits(t, 0, 8, 8) == t.len() {
        timestamp_of(value_at(t, 0, 4) as int, value_at(t, 4, 6) as int, value_at(t, 6, 8) as int, 0, 0, 0)
    } else {
        None
    }
}

fn compact_form_exec(t: &Vec<char>) -> (r: Option<Timestamp>)
    ensures
        r == compact_form(t@),
{
    let e = digits_at(t, 0, 8, 8)?;
    if e != t.len() {
        return None;
    }
    proof {
        assert(t@.subrange(0, 4) =~= t@.subrange(0, 8).subrange(0, 4));
        assert(t@.subrange(4, 6) =~= t@.subrange(0, 8).subrange(4, 6));
        assert(t@.subrange(6, 8) =~= t@.subrange(0, 8).subrange(6, 8));
    }
    let y = field(t, 0, 4)?;
    let mo = field(t, 4, 6)?;
    let d = field(t, 6, 8)?;
    timestamp_from(y, mo, d, 0, 0, 0)
}

/// `M/YY` or `MM/YY`, optionally followed by `-M[M]/YY`: the first day of the
/// first month, in the year 2000 + YY.
pub open spec fn short_month_form(t: Seq<char>) -> Option<Timestamp> {
    let a = digits(t, 0, 1, 2);
    let b = ch(t, a, '/');
    let c = digits(t, b, 2, 2);
    let g = digits(t, ch(t, digits(t, ch(t, c, '-'), 1, 2), '/'), 2, 2);
    if or_skip(c, g) == t.len() {
        timestamp_of(2000 + value_at(t, b, c) as int, value_at(t, 0, a) as int, 1, 0, 0, 0)
    } else {
        None
    }
}

fn short_month_form_exec(t: &Vec<char>) -> (r: Option<Timestamp>)
    ensures
        r == short_month_form(t@),
{
    let a = digits_at(t, 0, 1, 2)?;
    let b = ch_at(t, a, '/')?;
    let c = digits_at(t, b, 2, 2)?;
    let mut end = c;
    if let Some(d) = ch_at(t, c, '-') {
        if let Some(e) = digits_at(t, d, 1, 2) {
            if let Some(f) = ch_at(t, e, '/') {
                if let Some(g) = digits_at(t, f, 2, 2) {
                    end = g;
                }
            }
        }
    }
    if end != t.len() {
        return None;
    }
    let yy = field(t, b, c)?;
    let mo = field(t, 0, a)?;
    if yy > 7999 {
        return None;
    }
    timestamp_from(2000 + yy, mo, 1, 0, 0, 0)
}


/// `p` separates a leading month stem from a trailing year: a comma or a
/// hyphen, with no hyphen between the stem and it and only white space after.
pub open spec fn stem_separator_at(l: Seq<char>, p: int) -> bool {
    &&& 3 <= p < l.len() - 4
    &&& (l[p] == ',' || l[p] == '-')
    &&& forall|i: int| 3 <= i < p ==> l[i] != '-'
    &&& forall|i: int| p < i < l.len() - 4 ==> is_space(l[i])
}

/// A month stem, then anything without a hyphen, a comma or hyphen, optional
/// white space and a four-digit year (`Dec-2015`, `May, 2017`): the first day
/// of that month. Letters match in any case.
pub open spec fn stem_year_form(t: Seq<char>) -> Option<Timestamp> {
    let l = lower_seq(t);
    let n = l.len();
    let k = month_at(l, 0, false);
    if k < 12 && n >= 8 && digits(l, n - 4, 4, 4) == n && exists|p: int| stem_separator_at(l, p) {
        timestamp_of(value_at(l, n - 4, n as int) as int, k + 1, 1, 0, 0, 0)
    } else {
        None
    }
}

fn stem_year_form_exec(t: &Vec<char>, l: &Vec<char>) -> (r: Option<Timestamp>)
    requires
        l@ == lower_seq(t@),
    ensures
        r == stem_year_form(t@),
{
    let n = l.len();
    let (k, _) = month_at_exec(l, 0, false);
    if k >= 12 || n < 8 {
        return None;
    }
    let e = digits_at(l, n - 4, 4, 4)?;
    if e != n {
        return None;
    }
    // the separator is the last character before the year that is not white space
    let mut j: usize = n - 4;
    while j > 3 && is_space_char(l[j - 1])
        invariant
            3 <= j <= n - 4,
            n == l.len(),
            forall|i: int| j <= i < n - 4 ==> is_space(l@[i]),
        decreases j,
    {
        j = j - 1;
    }
    if j == 3 {
        proof {
            assert forall|p: int| !stem_separator_at(l@, p) by {
                if stem_separator_at(l@, p) {
                    assert(is_space(l@[p as int]));
                }
            }
        }
        return None;
    }
    let p = j - 1;
    if !(l[p] == ',' || l[p] == '-') {
        proof {
            assert forall|q: int| !stem_separator_at(l@, q) by {
                if stem_separator_at(l@, q) {
                    if q < p {
                        assert(is_space(l@[p as int]));
                    } else if q > p {
                        assert(is_space(l@[q]));
                    }
                }
            }
        }
        return None;
    }
    let mut i: usize = 3;
    while i < p
        invariant
            3 <= i <= p,
            p < n - 4,
            n == l.len(),
            l@ == lower_seq(t@),
            l@[p as int] == ',' || l@[p as int] == '-',
            forall|m: int| p < m < n - 4 ==> is_space(l@[m]),
            forall|m: int| 3 <= m < i ==> l@[m] != '-',
        decreases p - i,
    {
        if l[i] == '-' {
            proof {
                assert forall|q: int| !stem_separator_at(l@, q) by {
                    if stem_separator_at(l@, q) {
                        if q == p {
                            assert(l@[i as int] == '-');
                        } else if q < p {
                            assert(is_space(l@[p as int]));
                        } else if q > p {
                            assert(is_space(l@[q]));
                        }
                    }
                }
            }
            return None;
        }
        i = i + 1;
    }
    assert(stem_separator_at(l@, p as int));
    let y = field(l, n - 4, n)?;
    timestamp_from(y, (k + 1) as u32, 1, 0, 0, 0)
}

/// Two full month names joined by a hyphen, white space and a four-digit
/// year (`March-April 2017`): the first day of the first month.
pub open spec fn month_pair_form(t: Seq<char>) -> Option<Timestamp> {
    let l = lower_seq(t);
    let b = ch(l, month_end(l, 0, true), '-');
    let d = spaces(l, month_end(l, b, true), ""@, 1);
    let e = digits(l, d, 4, 4);
    if e == l.len() {
        timestamp_of(value_at(l, d, e) as int, month_at(l, 0, true) + 1, 1, 0, 0, 0)
    } else {
        None
    }
}

fn month_pair_form_exec(t: &Vec<char>, l: &Vec<char>) -> (r: Option<Timestamp>)
    requires
        l@ == lower_seq(t@),
    ensures
        r == month_pair_form(t@),
{
    let (k, a) = month_at_exec(l, 0, true);
    let b = ch_at(l, a?, '-')?;
    let (_, c) = month_at_exec(l, b, true);
    let d = spaces_at(l, c?, "", 1)?;
    let e = digits_at(l, d, 4, 4)?;
    if e != l.len() {
        return None;
    }
    let y = field(l, d, e)?;
    timestamp_from(y, (k + 1) as u32, 1, 0, 0, 0)
}

/// A full month name, `of` and a four-digit year, apart by white space
/// (`July of 2011`): the first day of that month.
pub open spec fn month_of_year_form(t: Seq<char>) -> Option<Timestamp> {
    let l = lower_seq(t);
    let c = lit(l, spaces(l, month_end(l, 0, true), ""@, 1), "of"@);
    let d = spaces(l, c, ""@, 1);
    let e = digits(l, d, 4, 4);
    if e == l.len() {
        timestamp_of(value_at(l, d, e) as int, month_at(l, 0, true) + 1, 1, 0, 0, 0)
    } else {
        None
    }
}

fn month_of_year_form_exec(t: &Vec<char>, l: &Vec<char>) -> (r: Option<Timestamp>)
    requires
        l@ == lower_seq(t@),
    ensures
        r == month_of_year_form(t@),
{
    let (k, a) = month_at_exec(l, 0, true);
    let b = spaces_at(l, a?, "", 1)?;
    let c = lit_at(l, b, "of")?;
    let d = spaces_at(l, c, "", 1)?;
    let e = digits_at(l, d, 4, 4)?;
    if e != l.len() {
        return None;
    }
    let y = field(l, d, e)?;
    timestamp_from(y, (k + 1) as u32, 1, 0, 0, 0)
}

/// A four-digit year, white space and a full month name (`2008 August`): the
/// first day of that month.
pub open spec fn year_month_form(t: Seq<char>) -> Option<Timestamp> {
    let l = lower_seq(t);
    let b = spaces(l, digits(l, 0, 4, 4), ""@, 1);
    if month_end(l, b, true) == l.len() {
        timestamp_of(value_at(l, 0, 4) as int, month_at(l, b, true) + 1, 1, 0, 0, 0)
    } else {
        None
    }
}

fn year_month_form_exec(t: &Vec<char>, l: &Vec<char>) -> (r: Option<Timestamp>)
    requires
        l@ == lower_seq(t@),
    ensures
        r == year_month_form(t@),
{
    let a = digits_at(l, 0, 4, 4)?;
    let b = spaces_at(l, a, "", 1)?;
    let (k, c) = month_at_exec(l, b, true);
    if c != Some(l.len()) {
        return None;
    }
    let y = field(l, 0, 4)?;
    timestamp_from(y, (k + 1) as u32, 1, 0, 0, 0)
}

/// The first of the two options that holds an instant.
pub open spec fn or_else(a: Option<Timestamp>, b: Option<Timestamp>) -> Option<Timestamp> {
    if a is Some {
        a
    } else {
        b
    }
}

/// The grammars after the spreadsheet day count, in the order they are tried.
pub open spec fn later_forms(t: Seq<char>) -> Option<Timestamp> {
    or_else(
        iso_time_form(t),
        or_else(
            utc_day_form(t),
            or_else(
                day_range_form(t),
                or_else(
                    month_range_form(t),
                    or_else(
                        compact_form(t),
                        or_else(
                            short_month_form(t),
                            or_else(
                                stem_year_form(t),
                                or_else(
                                    month_pair_form(t),
                                    or_else(month_of_year_form(t), year_month_form(t)),
                                ),
                            ),
                        ),
                    ),
                ),
            ),
        ),
    )
}

/// The instant that a date text denotes: the first of the grammars that
/// matches the whole text and names a real day (and time) gives it; a text
/// that no grammar takes denotes none. Five digits are a day count from
/// 1904-01-01; elsewhere a missing time is midnight and a missing day the first.
pub fn parse_datetime(val: &str) -> (r: Option<Timestamp>)
    ensures
        spreadsheet_form(val@) ==> (r matches Some(t) && is_spreadsheet_day(
            value_at(val@, 0, 5) as int,
            t,
        )),
        !spreadsheet_form(val@) ==> r == later_forms(val@),
        r matches Some(t) ==> t.wf(),
{
    let t = chars_of(val);
    let l = lower_vec(&t);
    if let Some(e) = digits_at(&t, 0, 5, 5) {
        if e == t.len() {
            let n = number_at(&t, 0, 5, 99999);
            proof {
                assert(t@.subrange(0, 5) =~= t@.subrange(0, 5).subrange(0, 5));
                lemma_value_below(t@.subrange(0, 5));
                reveal_with_fuel(pow10, 6);
            }
            return Some(spreadsheet_day(n.unwrap() as u32));
        }
    }
    if let Some(r) = iso_time_form_exec(&t) {
        return Some(r);
    }
    if let Some(r) = utc_day_form_exec(&t) {
        return Some(r);
    }
    if let Some(r) = day_range_form_exec(&t) {
        return Some(r);
    }
    if let Some(r) = month_range_form_exec(&t) {
        return Some(r);
    }
    if let Some(r) = compact_form_exec(&t) {
        return Some(r);
    }
    if let Some(r) = short_month_form_exec(&t) {
        return Some(r);
    }
    if let Some(r) = stem_year_form_exec(&t, &l) {
        return Some(r);
    }
    if let Some(r) = month_pair_form_exec(&t, &l) {
        return Some(r);
    }
    if let Some(r) = month_of_year_form_exec(&t, &l) {
        return Some(r);
    }
    year_month_form_exec(&t, &l)
}


/// Reading the ISO text of an instant (`YYYY-MM-DDThh:mm:ss`) through the
/// whole cascade gives the same instant back.
pub proof fn lemma_iso_round_trip(t: Timestamp)
    requires
        t.wf(),
    ensures
        !spreadsheet_form(iso_text(t)),
        later_forms(iso_text(t)) == Some(t),
        iso_time_form(iso_text(t)) == Some(t),
{
    let s = iso_text(t);
    reveal_with_fuel(pow10, 5);
    lemma_fixed_digits(t.year as nat, 4);
    lemma_fixed_digits(t.month as nat, 2);
    lemma_fixed_digits(t.day as nat, 2);
    lemma_fixed_digits(t.hour as nat, 2);
    lemma_fixed_digits(t.minute as nat, 2);
    lemma_fixed_digits(t.second as nat, 2);
    assert(s.len() == 19);
    assert(s.subrange(0, 4) =~= fixed_digits(t.year as nat, 4));
    assert(s.subrange(5, 7) =~= fixed_digits(t.month as nat, 2));
    assert(s.subrange(8, 10) =~= fixed_digits(t.day as nat, 2));
    assert(s.subrange(11, 13) =~= fixed_digits(t.hour as nat, 2));
    assert(s.subrange(14, 16) =~= fixed_digits(t.minute as nat, 2));
    assert(s.subrange(17, 19) =~= fixed_digits(t.second as nat, 2));
    assert(s[4] == '-' && s[7] == '-' && s[10] == 'T' && s[13] == ':' && s[16] == ':');
    lemma_digit_run_exact(s, 0, 4);
    lemma_digit_run_exact(s, 5, 2);
    lemma_digit_run_exact(s, 8, 2);
    lemma_digit_run_exact(s, 11, 2);
    lemma_digit_run_exact(s, 14, 2);
    lemma_digit_run_exact(s, 17, 2);
    assert(ymd_from(s, 0) == 10);
}

} // verus!
