//! Character classes and a small cursor vocabulary for anchored grammars.
//!
//! A cursor function takes a position and returns the position after what it
//! consumed, or `-1` when it does not match; every cursor function returns
//! `-1` when handed `-1`, so a grammar is a chain of calls.
use vstd::prelude::*;

verus! {

pub open spec fn is_digit(c: char) -> bool {
    '0' <= c && c <= '9'
}

pub open spec fn digit_value(c: char) -> nat {
    (c as int - '0' as int) as nat
}

/// Position carried by an executable cursor result.
pub open spec fn pos(o: Option<usize>) -> int {
    match o {
        Some(k) => k as int,
        None => -1,
    }
}

/// Number of digits in the run that starts at `i`.
pub open spec fn digit_run(t: Seq<char>, i: int) -> nat
    decreases t.len() - i,
{
    if 0 <= i < t.len() && is_digit(t[i]) {
        1 + digit_run(t, i + 1)
    } else {
        0
    }
}

pub fn digit_run_at(t: &Vec<char>, i: usize) -> (r: usize)
    requires
        i <= t.len(),
    ensures
        r == digit_run(t@, i as int),
        i + r <= t.len(),
{
    let mut j: usize = i;
    while j < t.len() && '0' <= t[j] && t[j] <= '9'
        invariant
            i <= j <= t.len(),
            digit_run(t@, i as int) == (j - i) + digit_run(t@, j as int),
        decreases t.len() - j,
    {
        j = j + 1;
    }
    j - i
}

/// The ASCII lower-case form of a character; other characters stay as they are.
pub open spec fn lower(c: char) -> char {
    if 'A' <= c && c <= 'Z' {
        ((c as u32) + 32) as char
    } else {
        c
    }
}

pub fn lower_char(c: char) -> (r: char)
    ensures
        r == lower(c),
{
    if 'A' <= c && c <= 'Z' {
        ((c as u8) + 32) as char
    } else {
        c
    }
}


/// Unicode white space, the class that `\s` denotes in the usual regex syntax.
pub open spec fn is_space(c: char) -> bool {
    ||| c == ' '
    ||| ('\t' <= c && c <= '\r')
    ||| c == '\u{85}'
    ||| c == '\u{A0}'
    ||| c == '\u{1680}'
    ||| ('\u{2000}' <= c && c <= '\u{200A}')
    ||| c == '\u{2028}'
    ||| c == '\u{2029}'
    ||| c == '\u{202F}'
    ||| c == '\u{205F}'
    ||| c == '\u{3000}'
}

pub fn is_space_char(c: char) -> (r: bool)
    ensures
        r == is_space(c),
{
    c == ' ' || ('\t' <= c && c <= '\r') || c == '\u{85}' || c == '\u{A0}' || c == '\u{1680}'
        || ('\u{2000}' <= c && c <= '\u{200A}') || c == '\u{2028}' || c == '\u{2029}'
        || c == '\u{202F}' || c == '\u{205F}' || c == '\u{3000}'
}

/// ASCII letters, digits and the underscore.
pub open spec fn is_word(c: char) -> bool {
    ('a' <= c && c <= 'z') || ('A' <= c && c <= 'Z') || is_digit(c) || c == '_'
}

/// Length of the run at `i` of white space and of the characters in `extra`.
pub open spec fn space_run(t: Seq<char>, i: int, extra: Seq<char>) -> nat
    decreases t.len() - i,
{
    if 0 <= i < t.len() && (is_space(t[i]) || extra.contains(t[i])) {
        1 + space_run(t, i + 1, extra)
    } else {
        0
    }
}

/// Length of the run of word characters at `i`.
pub open spec fn word_run(t: Seq<char>, i: int) -> nat
    decreases t.len() - i,
{
    if 0 <= i < t.len() && is_word(t[i]) {
        1 + word_run(t, i + 1)
    } else {
        0
    }
}

/// The literal `p` at `i`.
pub open spec fn lit(t: Seq<char>, i: int, p: Seq<char>) -> int {
    if 0 <= i && i + p.len() <= t.len() && t.subrange(i, i + p.len()) == p {
        i + p.len()
    } else {
        -1
    }
}

/// One character out of `set` at `i`.
pub open spec fn one_of(t: Seq<char>, i: int, set: Seq<char>) -> int {
    if 0 <= i < t.len() && set.contains(t[i]) {
        i + 1
    } else {
        -1
    }
}

/// One white-space character, or one out of `extra`, at `i`.
pub open spec fn space_or(t: Seq<char>, i: int, extra: Seq<char>) -> int {
    if 0 <= i < t.len() && (is_space(t[i]) || extra.contains(t[i])) {
        i + 1
    } else {
        -1
    }
}

/// The longest run of white space (and of characters of `extra`) at `i`,
/// which must hold at least `least` characters.
pub open spec fn spaces(t: Seq<char>, i: int, extra: Seq<char>, least: nat) -> int {
    if 0 <= i && space_run(t, i, extra) >= least {
        i + space_run(t, i, extra)
    } else {
        -1
    }
}

/// The longest run of at most `most` digits at `i`, which must hold at least
/// `least` digits.
pub open spec fn digits(t: Seq<char>, i: int, least: nat, most: nat) -> int {
    let k = if digit_run(t, i) < most {
        digit_run(t, i)
    } else {
        most
    };
    if 0 <= i && k >= least {
        i + k
    } else {
        -1
    }
}

/// The character `c` at `i`.
pub open spec fn ch(t: Seq<char>, i: int, c: char) -> int {
    if 0 <= i < t.len() && t[i] == c {
        i + 1
    } else {
        -1
    }
}

/// A run of at least one digit at `i`, as long as it goes.
pub open spec fn some_digits(t: Seq<char>, i: int) -> int {
    digits(t, i, 1, t.len())
}

/// `j` when the optional element that ended at `j` matched, else `i`.
pub open spec fn or_skip(i: int, j: int) -> int {
    if j >= 0 {
        j
    } else {
        i
    }
}

/// Decimal value of a sequence of digits.
pub open spec fn digits_value(s: Seq<char>) -> nat
    decreases s.len(),
{
    if s.len() == 0 {
        0
    } else {
        digits_value(s.drop_last()) * 10 + digit_value(s.last())
    }
}

pub open spec fn all_digits(s: Seq<char>) -> bool {
    forall|k: int| 0 <= k < s.len() ==> is_digit(#[trigger] s[k])
}

/// Value of the digits between `from` and `to`.
pub open spec fn value_at(t: Seq<char>, from: int, to: int) -> nat {
    digits_value(t.subrange(from, to))
}

pub open spec fn lower_seq(s: Seq<char>) -> Seq<char> {
    s.map_values(|c: char| lower(c))
}

pub fn space_run_at(t: &Vec<char>, i: usize, extra: &str) -> (r: usize)
    requires
        i <= t.len(),
    ensures
        r == space_run(t@, i as int, extra@),
        i + r <= t.len(),
{
    let mut j: usize = i;
    while j < t.len() && (is_space_char(t[j]) || contains_char(extra, t[j]))
        invariant
            i <= j <= t.len(),
            space_run(t@, i as int, extra@) == (j - i) + space_run(t@, j as int, extra@),
        decreases t.len() - j,
    {
        j = j + 1;
    }
    j - i
}

pub fn word_run_at(t: &Vec<char>, i: usize) -> (r: usize)
    requires
        i <= t.len(),
    ensures
        r == word_run(t@, i as int),
        i + r <= t.len(),
{
    let mut j: usize = i;
    while j < t.len() && (('a' <= t[j] && t[j] <= 'z') || ('A' <= t[j] && t[j] <= 'Z') || ('0'
        <= t[j] && t[j] <= '9') || t[j] == '_')
        invariant
            i <= j <= t.len(),
            word_run(t@, i as int) == (j - i) + word_run(t@, j as int),
        decreases t.len() - j,
    {
        j = j + 1;
    }
    j - i
}

pub fn contains_char(set: &str, c: char) -> (r: bool)
    ensures
        r == set@.contains(c),
{
    let n = set.unicode_len();
    let mut k: usize = 0;
    while k < n
        invariant
            n == set@.len(),
            k <= n,
            forall|m: int| 0 <= m < k ==> set@[m] != c,
        decreases n - k,
    {
        if set.get_char(k) == c {
            return true;
        }
        k = k + 1;
    }
    false
}

pub fn lit_at(t: &Vec<char>, i: usize, p: &str) -> (r: Option<usize>)
    requires
        i <= t.len(),
    ensures
        pos(r) == lit(t@, i as int, p@),
        r is Some ==> r->0 <= t.len(),
{
    let n = p.unicode_len();
    if n > t.len() - i {
        return None;
    }
    let mut k: usize = 0;
    while k < n
        invariant
            n == p@.len(),
            i + n <= t.len(),
            k <= n,
            forall|m: int| 0 <= m < k ==> t@[i + m] == p@[m],
        decreases n - k,
    {
        if t[i + k] != p.get_char(k) {
            assert(t@.subrange(i as int, i + n)[k as int] != p@[k as int]);
            return None;
        }
        k = k + 1;
    }
    assert(t@.subrange(i as int, i + n) =~= p@);
    Some(i + n)
}

pub fn one_of_at(t: &Vec<char>, i: usize, set: &str) -> (r: Option<usize>)
    requires
        i <= t.len(),
    ensures
        pos(r) == one_of(t@, i as int, set@),
        r is Some ==> r->0 <= t.len(),
{
    if i < t.len() && contains_char(set, t[i]) {
        Some(i + 1)
    } else {
        None
    }
}

pub fn space_or_at(t: &Vec<char>, i: usize, extra: &str) -> (r: Option<usize>)
    requires
        i <= t.len(),
    ensures
        pos(r) == space_or(t@, i as int, extra@),
        r is Some ==> r->0 <= t.len(),
{
    if i < t.len() && (is_space_char(t[i]) || contains_char(extra, t[i])) {
        Some(i + 1)
    } else {
        None
    }
}

pub fn spaces_at(t: &Vec<char>, i: usize, extra: &str, least: usize) -> (r: Option<usize>)
    requires
        i <= t.len(),
    ensures
        pos(r) == spaces(t@, i as int, extra@, least as nat),
        r is Some ==> r->0 <= t.len(),
{
    let k = space_run_at(t, i, extra);
    if k >= least {
        Some(i + k)
    } else {
        None
    }
}

pub fn digits_at(t: &Vec<char>, i: usize, least: usize, most: usize) -> (r: Option<usize>)
    requires
        i <= t.len(),
    ensures
        pos(r) == digits(t@, i as int, least as nat, most as nat),
        r is Some ==> r->0 <= t.len() && all_digits(t@.subrange(i as int, r->0 as int)),
{
    let run = digit_run_at(t, i);
    let k = if run < most {
        run
    } else {
        most
    };
    proof {
        lemma_digit_run_digits(t@, i as int, k as int);
    }
    if k >= least {
        Some(i + k)
    } else {
        None
    }
}

pub proof fn lemma_digit_run_digits(t: Seq<char>, i: int, k: int)
    requires
        0 <= i <= t.len(),
        0 <= k <= digit_run(t, i),
    ensures
        i + k <= t.len(),
        all_digits(t.subrange(i, i + k)),
    decreases k,
{
    if k > 0 {
        lemma_digit_run_digits(t, i + 1, k - 1);
        assert forall|m: int| 0 <= m < k implies is_digit(#[trigger] t.subrange(i, i + k)[m]) by {
            if m > 0 {
                assert(t.subrange(i, i + k)[m] == t.subrange(i + 1, i + k)[m - 1]);
            } else {
                assert(t.subrange(i, i + k)[m] == t[i]);
            }
        }
    }
}


pub open spec fn pow10(n: nat) -> nat
    decreases n,
{
    if n == 0 {
        1
    } else {
        10 * pow10((n - 1) as nat)
    }
}

pub open spec fn digit_char(d: nat) -> char {
    (d + 48) as char
}

/// The last `w` decimal digits of `n`, with leading zeros.
pub open spec fn fixed_digits(n: nat, w: nat) -> Seq<char>
    decreases w,
{
    if w == 0 {
        Seq::empty()
    } else {
        fixed_digits(n / 10, (w - 1) as nat).push(digit_char(n % 10))
    }
}

/// The decimal digits of `n`, without leading zeros (`0` is one digit).
pub open spec fn decimal_digits(n: nat) -> Seq<char>
    decreases n,
{
    if n < 10 {
        seq![digit_char(n)]
    } else {
        decimal_digits(n / 10).push(digit_char(n % 10))
    }
}

/// The characters of `s`, in order.
pub fn chars_of(s: &str) -> (r: Vec<char>)
    ensures
        r@ == s@,
{
    let mut v: Vec<char> = Vec::new();
    for c in it: s.chars()
        invariant
            v@ == it.seq().take(it.index() as int),
    {
        v.push(c);
        assert(v@ =~= it.seq().take(it.index() as int + 1));
    }
    assert(v@ =~= s@);
    v
}

/// The ASCII lower-case form of every character of `t`.
pub fn lower_vec(t: &Vec<char>) -> (r: Vec<char>)
    ensures
        r@ == lower_seq(t@),
{
    let mut v: Vec<char> = Vec::new();
    let mut k: usize = 0;
    while k < t.len()
        invariant
            k <= t.len(),
            v@ == lower_seq(t@.subrange(0, k as int)),
        decreases t.len() - k,
    {
        v.push(lower_char(t[k]));
        k = k + 1;
        assert(v@ =~= lower_seq(t@.subrange(0, k as int)));
    }
    assert(t@.subrange(0, t.len() as int) =~= t@);
    v
}

/// Relies on std's `FromIterator<char>` for `String`: the string holds the
/// characters in their order.
#[verifier::external_body]
pub(crate) fn string_of(v: &Vec<char>) -> (r: String)
    ensures
        r@ == v@,
{
    v.iter().collect()
}

pub proof fn lemma_value_grows(s: Seq<char>, k: int)
    requires
        0 <= k <= s.len(),
    ensures
        digits_value(s.subrange(0, k)) <= digits_value(s),
    decreases s.len(),
{
    if k < s.len() {
        lemma_value_grows(s.drop_last(), k);
        assert(s.drop_last().subrange(0, k) =~= s.subrange(0, k));
    } else {
        assert(s.subrange(0, k) =~= s);
    }
}

/// The value of the digits in `t[from..to]`, when it is at most `limit`.
pub fn number_at(t: &Vec<char>, from: usize, to: usize, limit: u64) -> (r: Option<u64>)
    requires
        from <= to <= t.len(),
        all_digits(t@.subrange(from as int, to as int)),
    ensures
        r is Some <==> value_at(t@, from as int, to as int) <= limit,
        r is Some ==> r->0 == value_at(t@, from as int, to as int),
{
    let ghost whole = t@.subrange(from as int, to as int);
    let mut acc: u64 = 0;
    let mut j: usize = from;
    while j < to
        invariant
            from <= j <= to <= t.len(),
            whole == t@.subrange(from as int, to as int),
            all_digits(whole),
            acc == value_at(t@, from as int, j as int),
            acc <= limit,
        decreases to - j,
    {
        let ghost prev = t@.subrange(from as int, j as int);
        let ghost next = t@.subrange(from as int, j + 1);
        assert(next.drop_last() =~= prev);
        assert(next.last() == whole[j - from]);
        let d = (t[j] as u32 - '0' as u32) as u64;
        if d > limit || acc > (limit - d) / 10 {
            proof {
                if d <= limit {
                    assert(acc * 10 + d > limit) by (nonlinear_arith)
                        requires
                            acc > (limit - d) / 10,
                            d <= limit,
                    ;
                }
                assert(whole.subrange(0, j + 1 - from) =~= next);
                lemma_value_grows(whole, j + 1 - from);
            }
            return None;
        }
        acc = acc * 10 + d;
        j = j + 1;
    }
    assert(t@.subrange(from as int, j as int) =~= whole);
    Some(acc)
}

/// Appends the last `w` digits of `n`, with leading zeros.
pub fn push_fixed_digits(out: &mut Vec<char>, n: u128, w: usize)
    ensures
        final(out)@ == old(out)@ + fixed_digits(n as nat, w as nat),
    decreases w,
{
    if w == 0 {
        assert(old(out)@ + fixed_digits(n as nat, 0) =~= old(out)@);
        return;
    }
    push_fixed_digits(out, n / 10, w - 1);
    out.push(((n % 10) as u8 + 48u8) as char);
    assert(final(out)@ =~= old(out)@ + fixed_digits(n as nat, w as nat));
}

/// Appends the decimal digits of `n`.
pub fn push_decimal_digits(out: &mut Vec<char>, n: u128)
    ensures
        final(out)@ == old(out)@ + decimal_digits(n as nat),
    decreases n,
{
    if n >= 10 {
        push_decimal_digits(out, n / 10);
    }
    out.push(((n % 10) as u8 + 48u8) as char);
    assert(final(out)@ =~= old(out)@ + decimal_digits(n as nat));
}


pub fn ch_at(t: &Vec<char>, i: usize, c: char) -> (r: Option<usize>)
    requires
        i <= t.len(),
    ensures
        pos(r) == ch(t@, i as int, c),
        r is Some ==> r->0 <= t.len(),
{
    if i < t.len() && t[i] == c {
        Some(i + 1)
    } else {
        None
    }
}

pub fn some_digits_at(t: &Vec<char>, i: usize) -> (r: Option<usize>)
    requires
        i <= t.len(),
    ensures
        pos(r) == some_digits(t@, i as int),
        r is Some ==> r->0 <= t.len() && all_digits(t@.subrange(i as int, r->0 as int)),
{
    digits_at(t, i, 1, t.len())
}


pub proof fn lemma_value_below(s: Seq<char>)
    requires
        all_digits(s),
    ensures
        digits_value(s) < pow10(s.len()),
    decreases s.len(),
{
    if s.len() > 0 {
        let p = s.drop_last();
        assert(all_digits(p)) by {
            assert forall|k: int| 0 <= k < p.len() implies is_digit(#[trigger] p[k]) by {
                assert(p[k] == s[k]);
            }
        }
        lemma_value_below(p);
        assert(is_digit(s[s.len() - 1]));
        assert(digits_value(s) < pow10(s.len())) by (nonlinear_arith)
            requires
                digits_value(s) == digits_value(p) * 10 + digit_value(s.last()),
                digit_value(s.last()) < 10,
                digits_value(p) < pow10(p.len()),
                pow10(s.len()) == 10 * pow10(p.len()),
        ;
    }
}


/// A copy of `t[from..to]`.
pub fn slice_vec(t: &Vec<char>, from: usize, to: usize) -> (r: Vec<char>)
    requires
        from <= to <= t.len(),
    ensures
        r@ == t@.subrange(from as int, to as int),
{
    let mut v: Vec<char> = Vec::new();
    let mut k: usize = from;
    while k < to
        invariant
            from <= k <= to <= t.len(),
            v@ == t@.subrange(from as int, k as int),
        decreases to - k,
    {
        v.push(t[k]);
        k = k + 1;
        assert(v@ =~= t@.subrange(from as int, k as int));
    }
    v
}

/// `10^k`.
pub fn pow10_exec(k: u32) -> (r: u64)
    requires
        k <= 19,
    ensures
        r == pow10(k as nat),
{
    let mut r: u64 = 1;
    let mut j: u32 = 0;
    proof {
        lemma_pow10_grows(0, 19);
    }
    while j < k
        invariant
            j <= k <= 19,
            r == pow10(j as nat),
            r <= pow10(19),
        decreases k - j,
    {
        proof {
            lemma_pow10_grows(j as nat + 1, 19);
            reveal_with_fuel(pow10, 20);
        }
        r = r * 10;
        j = j + 1;
    }
    r
}

pub proof fn lemma_pow10_grows(a: nat, b: nat)
    requires
        a <= b,
    ensures
        pow10(a) <= pow10(b),
    decreases b,
{
    if a < b {
        lemma_pow10_grows(a, (b - 1) as nat);
    }
}


/// `lit` on a position that may already have failed.
pub fn lit_opt(t: &Vec<char>, i: Option<usize>, p: &str) -> (r: Option<usize>)
    requires
        i matches Some(k) ==> k <= t.len(),
    ensures
        pos(r) == lit(t@, pos(i), p@),
        r matches Some(k) ==> k <= t.len(),
{
    match i {
        Some(k) => lit_at(t, k, p),
        None => None,
    }
}

/// `ch` on a position that may already have failed.
pub fn ch_opt(t: &Vec<char>, i: Option<usize>, c: char) -> (r: Option<usize>)
    requires
        i matches Some(k) ==> k <= t.len(),
    ensures
        pos(r) == ch(t@, pos(i), c),
        r matches Some(k) ==> k <= t.len(),
{
    match i {
        Some(k) => ch_at(t, k, c),
        None => None,
    }
}

/// `spaces` on a position that may already have failed.
pub fn spaces_opt(t: &Vec<char>, i: Option<usize>, extra: &str, least: usize) -> (r: Option<usize>)
    requires
        i matches Some(k) ==> k <= t.len(),
    ensures
        pos(r) == spaces(t@, pos(i), extra@, least as nat),
        r matches Some(k) ==> k <= t.len(),
{
    match i {
        Some(k) => spaces_at(t, k, extra, least),
        None => None,
    }
}

/// `space_or` on a position that may already have failed.
pub fn space_or_opt(t: &Vec<char>, i: Option<usize>, extra: &str) -> (r: Option<usize>)
    requires
        i matches Some(k) ==> k <= t.len(),
    ensures
        pos(r) == space_or(t@, pos(i), extra@),
        r matches Some(k) ==> k <= t.len(),
{
    match i {
        Some(k) => space_or_at(t, k, extra),
        None => None,
    }
}

/// `or_skip` on executable positions.
pub fn or_skip_opt(i: Option<usize>, j: Option<usize>) -> (r: Option<usize>)
    ensures
        pos(r) == or_skip(pos(i), pos(j)),
        r == i || r == j,
{
    match j {
        Some(k) => Some(k),
        None => i,
    }
}


/// Whether two texts hold the same characters.
pub fn same_text(a: &str, b: &str) -> (r: bool)
    ensures
        r == (a@ == b@),
{
    let x = chars_of(a);
    let y = chars_of(b);
    if x.len() != y.len() {
        assert(x@.len() != y@.len());
        return false;
    }
    let mut k: usize = 0;
    while k < x.len()
        invariant
            x@ == a@,
            y@ == b@,
            x.len() == y.len(),
            k <= x.len(),
            forall|m: int| 0 <= m < k ==> x@[m] == y@[m],
        decreases x.len() - k,
    {
        if x[k] != y[k] {
            assert(x@[k as int] != y@[k as int]);
            return false;
        }
        k = k + 1;
    }
    assert(x@ =~= y@);
    true
}

/// Whether `s` starts with `prefix`.
pub fn starts_with_text(s: &str, prefix: &str) -> (r: bool)
    ensures
        r == (lit(s@, 0, prefix@) >= 0),
{
    lit_at(&chars_of(s), 0, prefix).is_some()
}


pub proof fn lemma_fixed_digits(n: nat, w: nat)
    requires
        n < pow10(w),
    ensures
        fixed_digits(n, w).len() == w,
        all_digits(fixed_digits(n, w)),
        digits_value(fixed_digits(n, w)) == n,
    decreases w,
{
    if w > 0 {
        let p = fixed_digits(n / 10, (w - 1) as nat);
        lemma_fixed_digits(n / 10, (w - 1) as nat);
        let s = fixed_digits(n, w);
        assert(s.drop_last() =~= p);
        assert forall|k: int| 0 <= k < s.len() implies is_digit(#[trigger] s[k]) by {
            if k < p.len() {
                assert(s[k] == p[k]);
            }
        }
    }
}

/// A run of exactly `k` digits at `i`.
pub proof fn lemma_digit_run_exact(t: Seq<char>, i: int, k: nat)
    requires
        0 <= i,
        i + k <= t.len(),
        all_digits(t.subrange(i, i + k)),
        i + k == t.len() || !is_digit(t[i + k]),
    ensures
        digit_run(t, i) == k,
    decreases k,
{
    if k > 0 {
        assert(t.subrange(i, i + k)[0] == t[i]);
        assert forall|m: int| 0 <= m < k - 1 implies is_digit(#[trigger] t.subrange(i + 1, i + k)[m]) by {
            assert(t.subrange(i + 1, i + k)[m] == t.subrange(i, i + k)[m + 1]);
        }
        lemma_digit_run_exact(t, i + 1, (k - 1) as nat);
    }
}

} // verus!
