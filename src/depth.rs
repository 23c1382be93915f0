//! Depths: a number with an optional metric unit, normalised to metres.
use crate::text::{
    all_digits, ch, ch_at, chars_of, digit_run, digit_run_at, digits_value, lemma_digit_run_digits,
    lit, lit_at, lower_seq, lower_vec, number_at, spaces, spaces_at, word_run, word_run_at,
};
use vstd::prelude::*;

verus! {

/// A length in metres, `mantissa / 10^scale`, kept exact.
#[derive(Clone, Copy, Debug, PartialEq, Eq, Structural)]
pub struct Meters {
    pub mantissa: u64,
    pub scale: u32,
}

/// `m`, `meter` or `meters` from `i` to the end of `u`.
pub open spec fn metre_word_at(u: Seq<char>, i: int) -> bool {
    lit(u, i, "m"@) == u.len() || lit(u, i, "meter"@) == u.len() || lit(u, i, "meters"@) == u.len()
}

/// Power of ten by which a lower-case unit divides: an optional prefix
/// (`c` or `centi`: 2; `m` or `milli`: 3) before `m`, `meter` or `meters`.
/// A bare metre word, or a word that is no metric unit, divides by one.
pub open spec fn unit_exponent(u: Seq<char>) -> nat {
    if metre_word_at(u, 0) {
        0
    } else if metre_word_at(u, ch(u, 0, 'c')) || metre_word_at(u, lit(u, 0, "centi"@)) {
        2
    } else if metre_word_at(u, ch(u, 0, 'm')) || metre_word_at(u, lit(u, 0, "milli"@)) {
        3
    } else {
        0
    }
}

fn metre_word_exec(u: &Vec<char>, i: Option<usize>) -> (r: bool)
    requires
        i matches Some(k) ==> k <= u.len(),
    ensures
        r == metre_word_at(u@, crate::text::pos(i)),
{
    match i {
        Some(k) => lit_at(u, k, "m") == Some(u.len()) || lit_at(u, k, "meter") == Some(u.len())
            || lit_at(u, k, "meters") == Some(u.len()),
        None => false,
    }
}

fn unit_exponent_exec(u: &Vec<char>) -> (r: u32)
    ensures
        r == unit_exponent(u@),
{
    if metre_word_exec(u, Some(0)) {
        0
    } else if metre_word_exec(u, ch_at(u, 0, 'c')) || metre_word_exec(u, lit_at(u, 0, "centi")) {
        2
    } else if metre_word_exec(u, ch_at(u, 0, 'm')) || metre_word_exec(u, lit_at(u, 0, "milli")) {
        3
    } else {
        0
    }
}

/// End of the leading number: digits, then optionally a point and digits,
/// with at least one digit before the point or after it; `-1` when none.
pub open spec fn number_end(t: Seq<char>) -> int {
    let a = digit_run(t, 0) as int;
    let b = ch(t, a, '.');
    let c = if b >= 0 {
        b + digit_run(t, b)
    } else {
        a
    };
    if a >= 1 || (b >= 0 && c > b) {
        c
    } else {
        -1
    }
}

/// The digits of the leading number, the point left out.
pub open spec fn number_digits(t: Seq<char>) -> Seq<char> {
    let a = digit_run(t, 0) as int;
    let b = ch(t, a, '.');
    if b >= 0 {
        t.subrange(0, a) + t.subrange(b, number_end(t))
    } else {
        t.subrange(0, a)
    }
}

/// Digits after the point of the leading number.
pub open spec fn fraction_len(t: Seq<char>) -> nat {
    let a = digit_run(t, 0) as int;
    let b = ch(t, a, '.');
    if b >= 0 {
        (number_end(t) - b) as nat
    } else {
        0
    }
}

/// A depth text: a number, optional white space and an optional unit word
/// (ASCII letters, digits, `_`) that runs to the end. Its value in metres is
/// `(mantissa, scale)`, that is `mantissa / 10^scale`.
pub open spec fn depth_of(t: Seq<char>) -> Option<(nat, nat)> {
    let c = number_end(t);
    let sp = spaces(t, c, ""@, 0);
    if c >= 0 && sp + word_run(t, sp) == t.len() {
        let unit = lower_seq(t).subrange(sp, t.len() as int);
        Some((digits_value(number_digits(t)), fraction_len(t) + unit_exponent(unit)))
    } else {
        None
    }
}

/// What `parse_depth` gives for a text.
pub open spec fn depth_result(t: Seq<char>) -> Option<Meters> {
    match depth_of(t) {
        Some((m, s)) => if m <= u64::MAX && s <= u32::MAX {
            Some(Meters { mantissa: m as u64, scale: s as u32 })
        } else {
            None
        },
        None => None,
    }
}

/// The depth in metres that a text gives, kept exact: `None` for a text that
/// is no number with an optional unit, and for one whose digits do not fit a
/// `u64` (or whose scale does not fit a `u32`).
pub fn parse_depth(val: &str) -> (r: Option<Meters>)
    ensures
        r is Some <==> (depth_of(val@) matches Some(d) && d.0 <= u64::MAX && d.1 <= u32::MAX),
        r matches Some(m) ==> depth_of(val@) == Some((m.mantissa as nat, m.scale as nat)),
        r == depth_result(val@),
{
    let t = chars_of(val);
    let a = digit_run_at(&t, 0);
    let b = ch_at(&t, a, '.');
    let c = match b {
        Some(b) => b + digit_run_at(&t, b),
        None => a,
    };
    let ok = a >= 1 || match b {
        Some(b) => c > b,
        None => false,
    };
    if !ok {
        return None;
    }
    let sp = spaces_at(&t, c, "", 0);
    let sp = match sp {
        Some(k) => k,
        None => c,
    };
    let w = word_run_at(&t, sp);
    if sp + w != t.len() {
        return None;
    }
    let mut ds: Vec<char> = Vec::new();
    let mut k: usize = 0;
    while k < a
        invariant
            k <= a <= t.len(),
            ds@ == t@.subrange(0, k as int),
        decreases a - k,
    {
        ds.push(t[k]);
        k = k + 1;
        assert(ds@ =~= t@.subrange(0, k as int));
    }
    let mut frac: usize = 0;
    if let Some(b) = b {
        let mut k: usize = b;
        while k < c
            invariant
                b <= k <= c <= t.len(),
                ds@ == t@.subrange(0, a as int) + t@.subrange(b as int, k as int),
            decreases c - k,
        {
            ds.push(t[k]);
            k = k + 1;
            assert(ds@ =~= t@.subrange(0, a as int) + t@.subrange(b as int, k as int));
        }
        frac = c - b;
    }
    proof {
        lemma_digit_run_digits(t@, 0, a as int);
        if let Some(b) = b {
            lemma_digit_run_digits(t@, b as int, (c - b) as int);
        }
        assert(ds@ == number_digits(t@));
        assert(all_digits(ds@));
        assert(ds@.subrange(0, ds@.len() as int) =~= ds@);
    }
    let l = lower_vec(&t);
    let mut unit: Vec<char> = Vec::new();
    let mut k: usize = sp;
    while k < t.len()
        invariant
            sp <= k <= t.len(),
            l@ == lower_seq(t@),
            unit@ == l@.subrange(sp as int, k as int),
        decreases t.len() - k,
    {
        unit.push(l[k]);
        k = k + 1;
        assert(unit@ =~= l@.subrange(sp as int, k as int));
    }
    let exp = unit_exponent_exec(&unit);
    let mantissa = number_at(&ds, 0, ds.len(), 0xffff_ffff_ffff_ffff)?;
    if frac as u64 > (0xffff_ffff - exp) as u64 {
        return None;
    }
    Some(Meters { mantissa, scale: frac as u32 + exp })
}

} // verus!
