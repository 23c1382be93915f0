//! Geographic coordinates written in degrees, minutes and seconds.
use crate::text::{
    all_digits, ch, ch_at, chars_of, decimal_digits, digit_run, digit_run_at, digits_value,
    fixed_digits, lemma_digit_run_digits, lemma_pow10_grows, number_at, one_of, one_of_at, or_skip,
    pow10, pow10_exec, push_decimal_digits, push_fixed_digits, slice_vec, some_digits,
    some_digits_at, space_run, space_run_at, spaces, spaces_at, string_of,
};
use vstd::prelude::*;

verus! {

/// A non-empty run of digits and nothing else.
pub open spec fn whole_number(s: Seq<char>) -> bool {
    s.len() >= 1 && digit_run(s, 0) == s.len()
}

/// Seconds from `i`: digits, optionally followed by a point and digits; the
/// position after them, or `-1`.
pub open spec fn seconds_from(t: Seq<char>, i: int) -> int {
    let a = some_digits(t, i);
    or_skip(a, some_digits(t, ch(t, a, '.')))
}

/// The digits of a seconds text, the point left out.
pub open spec fn seconds_mantissa(s: Seq<char>) -> nat {
    let a = digit_run(s, 0) as int;
    if a < s.len() {
        digits_value(s.subrange(0, a) + s.subrange(a + 1, s.len() as int))
    } else {
        digits_value(s)
    }
}

/// How many digits of a seconds text follow its point.
pub open spec fn seconds_scale(s: Seq<char>) -> nat {
    let a = digit_run(s, 0) as int;
    if a < s.len() {
        (s.len() - a - 1) as nat
    } else {
        0
    }
}

/// `d + m/60 + (s / 10^k)/3600` degrees in units of `10^-5` degree, rounded
/// to the nearest unit, halves away from zero.
pub open spec fn rounded_degrees(d: nat, m: nat, s: nat, k: nat) -> nat {
    let den = 3600 * pow10(k);
    let num = ((3600 * d + 60 * m) * pow10(k) + s) * 100000;
    ((2 * num + den) / (2 * den)) as nat
}

/// `q` units of `10^-5` degree as text with five decimals, negated on request.
pub open spec fn decimal_text(q: nat, negate: bool) -> Seq<char> {
    let sign = if negate {
        seq!['-']
    } else {
        Seq::<char>::empty()
    };
    sign + decimal_digits(q / 100000) + seq!['.'] + fixed_digits(q % 100000, 5)
}

/// The decimal degrees, as text, of degrees, minutes and seconds given as
/// text: whole degrees and minutes, seconds with an optional fraction. Degrees
/// and minutes must fit a `u32`, the digits of the seconds a `u64`, with at
/// most 18 of them after the point.
pub open spec fn dms_text(deg: Seq<char>, min: Seq<char>, sec: Seq<char>, negate: bool) -> Option<Seq<char>> {
    if whole_number(deg) && whole_number(min) && seconds_from(sec, 0) == sec.len() {
        let d = digits_value(deg);
        let m = digits_value(min);
        let s = seconds_mantissa(sec);
        let k = seconds_scale(sec);
        if d <= u32::MAX && m <= u32::MAX && s <= u64::MAX && k <= 18 {
            Some(decimal_text(rounded_degrees(d, m, s, k), negate))
        } else {
            None
        }
    } else {
        None
    }
}

fn whole_number_value(s: &Vec<char>) -> (r: Option<u64>)
    ensures
        r is Some <==> whole_number(s@) && digits_value(s@) <= u32::MAX,
        r matches Some(v) ==> v == digits_value(s@),
{
    let a = digit_run_at(s, 0);
    if a == 0 || a != s.len() {
        return None;
    }
    proof {
        lemma_digit_run_digits(s@, 0, a as int);
        assert(s@.subrange(0, a as int) =~= s@);
    }
    number_at(s, 0, a, 0xffff_ffff)
}

fn dms_chars(deg: &Vec<char>, min: &Vec<char>, sec: &Vec<char>, negate: bool) -> (r: Option<Vec<char>>)
    ensures
        match dms_text(deg@, min@, sec@, negate) {
            Some(x) => r matches Some(v) && v@ == x,
            None => r is None,
        },
{
    let d = whole_number_value(deg)?;
    let m = whole_number_value(min)?;
    let a = some_digits_at(sec, 0)?;
    let mut end = a;
    if let Some(b) = ch_at(sec, a, '.') {
        if let Some(c) = some_digits_at(sec, b) {
            end = c;
        }
    }
    if end != sec.len() {
        return None;
    }
    proof {
        lemma_digit_run_digits(sec@, 0, a as int);
    }
    let mut ds: Vec<char> = Vec::new();
    let mut k: usize = 0;
    while k < sec.len()
        invariant
            k <= sec.len(),
            a <= sec.len(),
            all_digits(sec@.subrange(0, a as int)),
            a < sec.len() ==> all_digits(sec@.subrange(a + 1, sec.len() as int)),
            ds@ == if k <= a {
                sec@.subrange(0, k as int)
            } else {
                sec@.subrange(0, a as int) + sec@.subrange(a + 1, k as int)
            },
        decreases sec.len() - k,
    {
        if k != a {
            ds.push(sec[k]);
        }
        k = k + 1;
        if k <= a {
            assert(ds@ =~= sec@.subrange(0, k as int));
        } else {
            assert(ds@ =~= sec@.subrange(0, a as int) + sec@.subrange(a + 1, k as int));
        }
    }
    let scale: usize = if a < sec.len() {
        sec.len() - a - 1
    } else {
        0
    };
    if scale > 18 {
        return None;
    }
    proof {
        assert(sec@.subrange(0, sec.len() as int) =~= sec@);
        assert(all_digits(ds@));
        assert(ds@.subrange(0, ds@.len() as int) =~= ds@);
    }
    let s = number_at(&ds, 0, ds.len(), 0xffff_ffff_ffff_ffff)?;
    let p = pow10_exec(scale as u32);
    proof {
        lemma_pow10_grows(scale as nat, 18);
        lemma_pow10_grows(0, scale as nat);
    }
    let q = round_degrees(d, m, s, p);
    let mut out: Vec<char> = Vec::new();
    if negate {
        out.push('-');
    }
    push_decimal_digits(&mut out, q / 100000);
    out.push('.');
    push_fixed_digits(&mut out, q % 100000, 5);
    proof {
        let sign = if negate {
            seq!['-']
        } else {
            Seq::<char>::empty()
        };
        assert(out@ =~= sign + decimal_digits((q / 100000) as nat) + seq!['.'] + fixed_digits(
            (q % 100000) as nat,
            5,
        ));
    }
    Some(out)
}

fn round_degrees(d: u64, m: u64, s: u64, p: u64) -> (r: u128)
    requires
        d <= u32::MAX,
        m <= u32::MAX,
        1 <= p <= pow10(18),
    ensures
        r == ({
            let den = 3600 * p;
            let num = ((3600 * d + 60 * m) * p + s) * 100000;
            (2 * num + den) / (2 * den)
        }),
{
    proof {
        reveal_with_fuel(pow10, 19);
    }
    let whole = 3600 * (d as u128) + 60 * (m as u128);
    assert(whole * p <= 16000000000000 * 1000000000000000000) by (nonlinear_arith)
        requires
            whole <= 16000000000000,
            p <= 1000000000000000000,
    ;
    let num = (whole * (p as u128) + s as u128) * 100000;
    let den = 3600 * (p as u128);
    (2 * num + den) / (2 * den)
}

/// The decimal degrees of `degree` degrees, `min` minutes and `sec` seconds,
/// as text with five decimals (rounded half away from zero), with a leading
/// minus sign when `negate` holds.
pub fn dms2decimal(degree: &str, min: &str, sec: &str, negate: &bool) -> (r: Option<String>)
    ensures
        match dms_text(degree@, min@, sec@, *negate) {
            Some(x) => r matches Some(v) && v@ == x,
            None => r is None,
        },
{
    let v = dms_chars(&chars_of(degree), &chars_of(min), &chars_of(sec), *negate)?;
    Some(string_of(&v))
}


pub open spec fn is_degree_sign(c: char) -> bool {
    c == 'º' || c == 'Á' || c == '°'
}

pub open spec fn is_second_mark(c: char) -> bool {
    c == '\'' || c == '’'
}

/// Degrees and minutes from `i`, as `(end of degrees, start of minutes, end
/// of minutes)`, or `-1`s. After a run of digits, a degree sign ends the
/// degrees and a second run gives the minutes; with no sign the last digit of
/// the run is the minutes.
pub open spec fn minutes_span(t: Seq<char>, i: int) -> (int, int, int) {
    let l = digit_run(t, i) as int;
    let signed = 0 <= i && i + l < t.len() && is_degree_sign(t[i + l]);
    if 0 <= i && l >= 1 && signed && digit_run(t, i + l + 1) >= 1 {
        (i + l, i + l + 1, i + l + 1 + digit_run(t, i + l + 1))
    } else if 0 <= i && l >= 2 && !signed {
        (i + l - 1, i + l - 1, i + l)
    } else {
        (-1, -1, -1)
    }
}

/// Start of the seconds: after the minutes and one minute mark.
pub open spec fn seconds_start(t: Seq<char>, i: int) -> int {
    one_of(t, minutes_span(t, i).2, ",’'"@)
}

pub open spec fn seconds_end(t: Seq<char>, i: int) -> int {
    seconds_from(t, seconds_start(t, i))
}

/// After the seconds and exactly two second marks.
pub open spec fn marks_end(t: Seq<char>, i: int) -> int {
    let j = seconds_end(t, i);
    if 0 <= j && j + 2 <= t.len() && is_second_mark(t[j]) && is_second_mark(t[j + 1]) {
        j + 2
    } else {
        -1
    }
}

/// Position of the direction letter (one of `dirs`, after white space and
/// apostrophes), or `-1` when there is none.
pub open spec fn direction_pos(t: Seq<char>, i: int, dirs: Seq<char>) -> int {
    let q = marks_end(t, i);
    let r = space_run(t, q, "'"@) as int;
    if 0 <= q && q + r < t.len() && dirs.contains(t[q + r]) {
        q + r
    } else {
        -1
    }
}

/// End of one half `<deg>[º]<min>,<sec>''[dir]` that starts at `i`.
pub open spec fn half_end(t: Seq<char>, i: int, dirs: Seq<char>) -> int {
    let d = direction_pos(t, i, dirs);
    if d >= 0 {
        d + 1
    } else {
        marks_end(t, i)
    }
}

/// The half that starts at `i` has a direction letter out of `negative`.
pub open spec fn half_negated(t: Seq<char>, i: int, dirs: Seq<char>, negative: Seq<char>) -> bool {
    let d = direction_pos(t, i, dirs);
    d >= 0 && negative.contains(t[d])
}

/// Decimal degrees of the half that starts at `i`.
pub open spec fn half_text(t: Seq<char>, i: int, dirs: Seq<char>, negative: Seq<char>) -> Option<Seq<char>> {
    let (de, ms, me) = minutes_span(t, i);
    dms_text(
        t.subrange(i, de),
        t.subrange(ms, me),
        t.subrange(seconds_start(t, i), seconds_end(t, i)),
        half_negated(t, i, dirs, negative),
    )
}

/// Between the halves: white space, or a comma with optional white space
/// around it.
pub open spec fn gap_end(t: Seq<char>, i: int) -> int {
    let a = spaces(t, i, ""@, 0);
    let b = ch(t, a, ',');
    if b >= 0 {
        spaces(t, b, ""@, 0)
    } else if a > i && i >= 0 {
        a
    } else {
        -1
    }
}

/// A latitude half (direction `N` or `S`) and a longitude half (`E` or `W`),
/// after optional leading white space, as decimal degrees; `S` and `W`
/// negate, in either case.
pub open spec fn lat_lon_text(t: Seq<char>) -> Option<(Seq<char>, Seq<char>)> {
    let i0 = spaces(t, 0, ""@, 0);
    let i1 = gap_end(t, half_end(t, i0, "NSns"@));
    if half_end(t, i1, "EWew"@) == t.len() {
        match (half_text(t, i0, "NSns"@, "Ss"@), half_text(t, i1, "EWew"@, "Ww"@)) {
            (Some(a), Some(b)) => Some((a, b)),
            _ => None,
        }
    } else {
        None
    }
}

struct HalfSpan {
    deg_end: usize,
    min_start: usize,
    min_end: usize,
    sec_start: usize,
    sec_end: usize,
    end: usize,
    negated: bool,
}

fn half_exec(t: &Vec<char>, i: usize, dirs: &str, negative: &str) -> (r: Option<HalfSpan>)
    requires
        i <= t.len(),
    ensures
        match r {
            Some(h) => {
                &&& half_end(t@, i as int, dirs@) == h.end
                &&& minutes_span(t@, i as int) == (h.deg_end as int, h.min_start as int, h.min_end as int)
                &&& seconds_start(t@, i as int) == h.sec_start
                &&& seconds_end(t@, i as int) == h.sec_end
                &&& half_negated(t@, i as int, dirs@, negative@) == h.negated
                &&& i <= h.deg_end <= h.min_start <= h.min_end <= h.sec_start <= h.sec_end <= h.end <= t.len()
            },
            None => half_end(t@, i as int, dirs@) == -1,
        },
{
    let l = digit_run_at(t, i);
    let signed = i + l < t.len() && is_degree_sign_exec(t[i + l]);
    let (de, ms, me) = if l >= 1 && signed && digit_run_at(t, i + l + 1) >= 1 {
        (i + l, i + l + 1, i + l + 1 + digit_run_at(t, i + l + 1))
    } else if l >= 2 && !signed {
        (i + l - 1, i + l - 1, i + l)
    } else {
        return None;
    };
    let s0 = one_of_at(t, me, ",’'")?;
    let a = some_digits_at(t, s0)?;
    let mut s1 = a;
    if let Some(b) = ch_at(t, a, '.') {
        if let Some(c) = some_digits_at(t, b) {
            s1 = c;
        }
    }
    if !(s1 < t.len() && t.len() - s1 >= 2 && is_second_mark_exec(t[s1]) && is_second_mark_exec(t[s1 + 1])) {
        return None;
    }
    let q = s1 + 2;
    let r = space_run_at(t, q, "'");
    if q + r < t.len() && crate::text::contains_char(dirs, t[q + r]) {
        Some(
            HalfSpan {
                deg_end: de,
                min_start: ms,
                min_end: me,
                sec_start: s0,
                sec_end: s1,
                end: q + r + 1,
                negated: crate::text::contains_char(negative, t[q + r]),
            },
        )
    } else {
        Some(
            HalfSpan {
                deg_end: de,
                min_start: ms,
                min_end: me,
                sec_start: s0,
                sec_end: s1,
                end: q,
                negated: false,
            },
        )
    }
}

fn is_degree_sign_exec(c: char) -> (r: bool)
    ensures
        r == is_degree_sign(c),
{
    c == 'º' || c == 'Á' || c == '°'
}

fn is_second_mark_exec(c: char) -> (r: bool)
    ensures
        r == is_second_mark(c),
{
    c == '\'' || c == '’'
}

fn gap_exec(t: &Vec<char>, i: usize) -> (r: Option<usize>)
    requires
        i <= t.len(),
    ensures
        crate::text::pos(r) == gap_end(t@, i as int),
        r matches Some(k) ==> k <= t.len(),
{
    let a = spaces_at(t, i, "", 0)?;
    if let Some(b) = ch_at(t, a, ',') {
        spaces_at(t, b, "", 0)
    } else if a > i {
        Some(a)
    } else {
        None
    }
}

fn half_chars(t: &Vec<char>, i: usize, h: &HalfSpan) -> (r: Option<Vec<char>>)
    requires
        i <= h.deg_end <= h.min_start <= h.min_end <= h.sec_start <= h.sec_end <= t.len(),
    ensures
        match dms_text(
            t@.subrange(i as int, h.deg_end as int),
            t@.subrange(h.min_start as int, h.min_end as int),
            t@.subrange(h.sec_start as int, h.sec_end as int),
            h.negated,
        ) {
            Some(x) => r matches Some(v) && v@ == x,
            None => r is None,
        },
{
    dms_chars(
        &slice_vec(t, i, h.deg_end),
        &slice_vec(t, h.min_start, h.min_end),
        &slice_vec(t, h.sec_start, h.sec_end),
        h.negated,
    )
}

/// Latitude and longitude, as decimal-degree texts, of a text such as
/// `41º40,13.5''N 2º48'00.6''E`; `None` unless both halves convert.
pub fn parse_lat_lon_combined(val: &str) -> (r: Option<(String, String)>)
    ensures
        match lat_lon_text(val@) {
            Some((a, b)) => r matches Some((x, y)) && x@ == a && y@ == b,
            None => r is None,
        },
{
    let t = chars_of(val);
    let i0 = spaces_at(&t, 0, "", 0);
    let i0 = match i0 {
        Some(k) => k,
        None => 0,
    };
    let lat = half_exec(&t, i0, "NSns", "Ss")?;
    let i1 = gap_exec(&t, lat.end)?;
    let lon = half_exec(&t, i1, "EWew", "Ww")?;
    if lon.end != t.len() {
        return None;
    }
    let a = half_chars(&t, i0, &lat)?;
    let b = half_chars(&t, i1, &lon)?;
    Some((string_of(&a), string_of(&b)))
}

} // verus!
