//! Number literals: which texts are numbers, and which numbers are whole.
//!
//! A literal is kept as it was written; a target gives it its value. What
//! the parser needs is the form of a number (the grammar of `f64::from_str`)
//! and, for a count or a rotation, whether it names a whole number of cells.

use vstd::prelude::*;
use crate::text::{ascii_digit, is_ascii_digit};

verus! {

/// The length of the run of ASCII digits at the front of `s`.
pub open spec fn digit_run(s: Seq<char>) -> nat
    decreases s.len(),
{
    if s.len() > 0 && ascii_digit(s[0]) {
        1 + digit_run(s.drop_first())
    } else {
        0
    }
}

pub open spec fn is_sign(c: char) -> bool {
    c == '+' || c == '-'
}

/// `s` without a leading sign.
pub open spec fn unsigned_part(s: Seq<char>) -> Seq<char> {
    if s.len() > 0 && is_sign(s[0]) {
        s.drop_first()
    } else {
        s
    }
}

/// The code of `c` with ASCII capitals taken to lower case.
pub open spec fn lower(c: char) -> u32 {
    if 'A' <= c <= 'Z' {
        ((c as u32) + 32) as u32
    } else {
        c as u32
    }
}

/// Equal to `word` (written in lower case) ignoring ASCII case.
pub open spec fn same_word(s: Seq<char>, word: Seq<char>) -> bool {
    s.len() == word.len() && forall|i: int| 0 <= i < s.len() ==> lower(#[trigger] s[i]) == word[i] as u32
}

/// `inf`, `infinity` or `nan`, in any case.
pub open spec fn special_number(b: Seq<char>) -> bool {
    same_word(b, "inf"@) || same_word(b, "infinity"@) || same_word(b, "nan"@)
}

/// An exponent: `e` or `E`, an optional sign, and at least one digit.
pub open spec fn exponent_ok(e: Seq<char>) -> bool {
    e.len() == 0 || ((e[0] == 'e' || e[0] == 'E') && {
        let d = unsigned_part(e.drop_first());
        d.len() >= 1 && digit_run(d) == d.len()
    })
}

/// `Digit+ | Digit+ '.' Digit* | Digit* '.' Digit+`, then an optional
/// exponent.
pub open spec fn decimal_form(b: Seq<char>) -> bool {
    let a = digit_run(b);
    let rest = b.skip(a as int);
    if rest.len() > 0 && rest[0] == '.' {
        let f = digit_run(rest.drop_first());
        a + f >= 1 && exponent_ok(rest.drop_first().skip(f as int))
    } else {
        a >= 1 && exponent_ok(rest)
    }
}

/// Whether `s` is a number as `f64::from_str` reads one: an optional sign,
/// then `inf`, `infinity`, `nan` (in any case), or a decimal with an
/// optional exponent.
pub open spec fn float_literal(s: Seq<char>) -> bool {
    let b = unsigned_part(s);
    special_number(b) || decimal_form(b)
}

pub proof fn lemma_digit_run(s: Seq<char>)
    ensures
        digit_run(s) <= s.len(),
        forall|j: int| 0 <= j < digit_run(s) ==> ascii_digit(#[trigger] s[j]),
        digit_run(s) < s.len() ==> !ascii_digit(s[digit_run(s) as int]),
    decreases s.len(),
{
    if s.len() > 0 && ascii_digit(s[0]) {
        lemma_digit_run(s.drop_first());
        assert forall|j: int| 0 <= j < digit_run(s) implies ascii_digit(#[trigger] s[j]) by {
            if j > 0 {
                assert(s[j] == s.drop_first()[j - 1]);
            }
        }
    }
}

proof fn lemma_digit_run_at(s: Seq<char>, k: int)
    requires
        0 <= k <= s.len(),
        forall|j: int| 0 <= j < k ==> ascii_digit(#[trigger] s[j]),
        k < s.len() ==> !ascii_digit(s[k]),
    ensures
        digit_run(s) == k,
    decreases k,
{
    if k > 0 {
        assert forall|j: int| 0 <= j < k - 1 implies ascii_digit(#[trigger] s.drop_first()[j]) by {
            assert(s.drop_first()[j] == s[j + 1]);
        }
        lemma_digit_run_at(s.drop_first(), k - 1);
    }
}

/// The length of the run of digits in `s` from position `i`.
pub(crate) fn digits_from(s: &[char], i: usize) -> (r: usize)
    requires
        i <= s.len(),
    ensures
        i + r <= s.len(),
        r == digit_run(s@.skip(i as int)),
{
    let mut k = i;
    while k < s.len() && is_ascii_digit(s[k])
        invariant
            i <= k <= s.len(),
            forall|j: int| i <= j < k ==> ascii_digit(s@[j]),
        decreases s.len() - k,
    {
        k = k + 1;
    }
    proof {
        let t = s@.skip(i as int);
        assert forall|j: int| 0 <= j < k - i implies ascii_digit(#[trigger] t[j]) by {
            assert(t[j] == s@[i + j]);
        }
        lemma_digit_run_at(t, k - i);
    }
    k - i
}

fn lower_char(c: char) -> (r: u32)
    ensures
        r == lower(c),
{
    if 'A' <= c && c <= 'Z' {
        (c as u32) + 32
    } else {
        c as u32
    }
}

fn same_word_exec(s: &[char], from: usize, word: &str) -> (r: bool)
    requires
        from <= s.len(),
    ensures
        r == same_word(s@.skip(from as int), word@),
{
    let w = crate::text::chars_of(word);
    if s.len() - from != w.len() {
        return false;
    }
    let mut i: usize = 0;
    while i < w.len()
        invariant
            i <= w.len(),
            s.len() - from == w.len(),
            w@ == word@,
            forall|j: int| 0 <= j < i ==> lower(#[trigger] s@.skip(from as int)[j]) == w@[j] as u32,
        decreases w.len() - i,
    {
        if lower_char(s[from + i]) != (w[i] as u32) {
            assert(s@.skip(from as int)[i as int] == s@[from + i]);
            return false;
        }
        assert(s@.skip(from as int)[i as int] == s@[from + i]);
        i = i + 1;
    }
    true
}

/// Whether `s` is a number as `f64::from_str` reads one.
pub fn is_float_literal(s: &[char]) -> (r: bool)
    ensures
        r == float_literal(s@),
{
    let start: usize = if s.len() > 0 && (s[0] == '+' || s[0] == '-') { 1 } else { 0 };
    let ghost b = unsigned_part(s@);
    proof {
        if start == 1 {
            assert(b =~= s@.skip(1));
        } else {
            assert(b =~= s@.skip(0));
        }
    }
    proof {
        reveal_strlit("inf");
        reveal_strlit("infinity");
        reveal_strlit("nan");
    }
    if same_word_exec(s, start, "inf") || same_word_exec(s, start, "infinity") || same_word_exec(s, start, "nan") {
        return true;
    }
    let a = digits_from(s, start);
    let after = start + a;
    proof {
        assert(b.skip(a as int) =~= s@.skip(after as int));
    }
    if after < s.len() && s[after] == '.' {
        let f = digits_from(s, after + 1);
        proof {
            assert(s@.skip(after as int).drop_first() =~= s@.skip(after + 1));
            assert(s@.skip(after as int).drop_first().skip(f as int) =~= s@.skip(after + 1 + f));
        }
        a + f >= 1 && exponent_at(s, after + 1 + f)
    } else {
        a >= 1 && exponent_at(s, after)
    }
}

/// Whether `s` from position `i` is an exponent, or nothing.
fn exponent_at(s: &[char], i: usize) -> (r: bool)
    requires
        i <= s.len(),
    ensures
        r == exponent_ok(s@.skip(i as int)),
{
    let ghost e = s@.skip(i as int);
    if i == s.len() {
        return true;
    }
    if s[i] != 'e' && s[i] != 'E' {
        return false;
    }
    let mut j = i + 1;
    proof {
        assert(e.drop_first() =~= s@.skip(j as int));
    }
    if j < s.len() && (s[j] == '+' || s[j] == '-') {
        j = j + 1;
        proof {
            assert(unsigned_part(e.drop_first()) =~= s@.skip(j as int));
        }
    } else {
        proof {
            assert(unsigned_part(e.drop_first()) =~= s@.skip(j as int));
        }
    }
    let d = digits_from(s, j);
    d >= 1 && j + d == s.len()
}


// ---------------------------------------------------------------- whole numbers

/// The value of an ASCII digit.
pub open spec fn digit_val(c: char) -> nat {
    if ascii_digit(c) {
        ((c as u32) - 48) as nat
    } else {
        0
    }
}

/// The number that a run of digits writes, read from the left.
pub open spec fn digits_value(d: Seq<char>) -> nat
    decreases d.len(),
{
    if d.len() == 0 {
        0
    } else {
        10 * digits_value(d.drop_last()) + digit_val(d.last())
    }
}

pub open spec fn pow10(n: nat) -> nat
    decreases n,
{
    if n == 0 {
        1
    } else {
        10 * pow10((n - 1) as nat)
    }
}

/// The digits before the point.
pub open spec fn int_digits(b: Seq<char>) -> Seq<char> {
    b.take(digit_run(b) as int)
}

/// Whether a point follows the digits before it.
pub open spec fn has_point(b: Seq<char>) -> bool {
    let r = b.skip(digit_run(b) as int);
    r.len() > 0 && r[0] == '.'
}

/// The digits after the point.
pub open spec fn frac_digits(b: Seq<char>) -> Seq<char> {
    let r = b.skip(digit_run(b) as int).drop_first();
    if has_point(b) {
        r.take(digit_run(r) as int)
    } else {
        Seq::empty()
    }
}

/// What follows the digits: the exponent, or nothing.
pub open spec fn exponent_text(b: Seq<char>) -> Seq<char> {
    let r = b.skip(digit_run(b) as int);
    if has_point(b) {
        r.drop_first().skip(digit_run(r.drop_first()) as int)
    } else {
        r
    }
}

/// The power of ten that an exponent writes.
pub open spec fn exponent_value(e: Seq<char>) -> int {
    if e.len() == 0 {
        0
    } else {
        let u = e.drop_first();
        let m = digits_value(unsigned_part(u)) as int;
        if u.len() > 0 && u[0] == '-' {
            -m
        } else {
            m
        }
    }
}

/// All the digits of a decimal literal, before and after its point.
pub open spec fn mantissa(b: Seq<char>) -> Seq<char> {
    int_digits(b) + frac_digits(b)
}

/// Where the point falls among the digits of `mantissa(b)` once the
/// exponent has moved it.
pub open spec fn point(b: Seq<char>) -> int {
    int_digits(b).len() + exponent_value(exponent_text(b))
}

/// No digit after the point is other than zero.
pub open spec fn fraction_is_zero(d: Seq<char>, p: int) -> bool {
    forall|j: int| 0 <= j < d.len() && p <= j ==> d[j] == '0'
}

/// The digits before the point, as a number.
pub open spec fn integer_part(d: Seq<char>, p: int) -> nat {
    if p <= 0 {
        0
    } else if p <= d.len() {
        digits_value(d.take(p))
    } else {
        digits_value(d) * pow10((p - d.len()) as nat)
    }
}

/// The whole number that a decimal literal writes, if it writes one.
pub open spec fn whole_value(s: Seq<char>) -> Option<int> {
    let b = unsigned_part(s);
    if !decimal_form(b) {
        None
    } else {
        let d = mantissa(b);
        let p = point(b);
        if fraction_is_zero(d, p) {
            let m = integer_part(d, p) as int;
            Some(if s.len() > 0 && s[0] == '-' { -m } else { m })
        } else {
            None
        }
    }
}

/// A whole number of at most a thousand million either way, as a literal
/// writes it.
pub open spec fn small_whole(s: Seq<char>) -> Option<int> {
    match whole_value(s) {
        Some(w) => if -1_000_000_000 <= w <= 1_000_000_000 {
            Some(w)
        } else {
            None
        },
        None => None,
    }
}

proof fn lemma_pow10_positive(n: nat)
    ensures
        pow10(n) >= 1,
    decreases n,
{
    if n > 0 {
        lemma_pow10_positive((n - 1) as nat);
    }
}

proof fn lemma_pow10_grows(n: nat, m: nat)
    requires
        n <= m,
    ensures
        1 <= pow10(n) <= pow10(m),
    decreases m,
{
    lemma_pow10_positive(n);
    if n < m {
        lemma_pow10_grows(n, (m - 1) as nat);
    }
}

proof fn lemma_pow10_ten()
    ensures
        pow10(10) == 10_000_000_000,
{
    reveal_with_fuel(pow10, 11);
}

proof fn lemma_digits_zero(d: Seq<char>)
    requires
        forall|j: int| 0 <= j < d.len() ==> d[j] == '0',
    ensures
        digits_value(d) == 0,
    decreases d.len(),
{
    if d.len() > 0 {
        lemma_digits_zero(d.drop_last());
    }
}

proof fn lemma_digits_nonzero(d: Seq<char>, k: int)
    requires
        0 <= k < d.len(),
        ascii_digit(d[k]),
        d[k] != '0',
    ensures
        digits_value(d) >= 1,
    decreases d.len(),
{
    if k < d.len() - 1 {
        lemma_digits_nonzero(d.drop_last(), k);
    }
}

pub proof fn lemma_digits_prefix(d: Seq<char>, i: int, j: int)
    requires
        0 <= i <= j <= d.len(),
    ensures
        digits_value(d.take(i)) <= digits_value(d.take(j)),
    decreases j - i,
{
    if i < j {
        assert(d.take(j).drop_last() =~= d.take(j - 1));
        lemma_digits_prefix(d, i, j - 1);
    }
}

/// A power of two beyond which an exponent is taken as huge: larger than
/// any text's length.
const HUGE_EXPONENT: u128 = 36893488147419103232u128;

/// The digits of `s` from `k` to its end, as a number, or `None` once that
/// number reaches `HUGE_EXPONENT`.
fn exponent_magnitude(s: &[char], k: usize) -> (r: Option<u128>)
    requires
        k <= s.len(),
        forall|j: int| k <= j < s.len() ==> ascii_digit(#[trigger] s@[j]),
    ensures
        match r {
            Some(v) => v == digits_value(s@.skip(k as int)) && v < HUGE_EXPONENT,
            None => digits_value(s@.skip(k as int)) >= HUGE_EXPONENT,
        },
{
    let ghost x = s@.skip(k as int);
    let mut v: u128 = 0;
    let mut i = k;
    assert(x.take(0) =~= Seq::<char>::empty());
    while i < s.len()
        invariant
            k <= i <= s.len(),
            x == s@.skip(k as int),
            forall|j: int| k <= j < s.len() ==> ascii_digit(#[trigger] s@[j]),
            v == digits_value(x.take(i - k)),
            v < HUGE_EXPONENT,
        decreases s.len() - i,
    {
        let c = s[i];
        assert(x.take(i + 1 - k).drop_last() =~= x.take(i - k));
        assert(x.take(i + 1 - k).last() == c);
        let dv = (c as u32 - 48) as u128;
        let next = v * 10 + dv;
        i = i + 1;
        if next >= HUGE_EXPONENT {
            proof {
                lemma_digits_prefix(x, i - k, x.len() as int);
                assert(x.take(x.len() as int) =~= x);
            }
            return None;
        }
        v = next;
    }
    assert(x.take(i - k) =~= x);
    Some(v)
}

/// Whether any digit of `d` is other than zero.
fn any_nonzero(d: &Vec<char>) -> (r: bool)
    ensures
        r == exists|j: int| 0 <= j < d.len() && d@[j] != '0',
{
    let mut i: usize = 0;
    while i < d.len()
        invariant
            i <= d.len(),
            forall|j: int| 0 <= j < i ==> d@[j] == '0',
        decreases d.len() - i,
    {
        if d[i] != '0' {
            return true;
        }
        i = i + 1;
    }
    false
}

/// The digits of `d` before position `p`, as a number, or `None` once that
/// number passes a thousand million.
fn bounded_prefix_value(d: &Vec<char>, p: usize) -> (r: Option<u64>)
    requires
        p <= d.len(),
        forall|j: int| 0 <= j < d.len() ==> ascii_digit(#[trigger] d@[j]),
    ensures
        match r {
            Some(v) => v == digits_value(d@.take(p as int)) && v <= 1_000_000_000,
            None => digits_value(d@.take(p as int)) > 1_000_000_000,
        },
{
    let mut v: u64 = 0;
    let mut i: usize = 0;
    assert(d@.take(0) =~= Seq::<char>::empty());
    while i < p
        invariant
            i <= p <= d.len(),
            forall|j: int| 0 <= j < d.len() ==> ascii_digit(#[trigger] d@[j]),
            v == digits_value(d@.take(i as int)),
            v <= 1_000_000_000,
        decreases p - i,
    {
        let c = d[i];
        assert(d@.take(i + 1).drop_last() =~= d@.take(i as int));
        assert(d@.take(i + 1).last() == c);
        let next = v * 10 + (c as u32 - 48) as u64;
        i = i + 1;
        if next > 1_000_000_000 {
            proof {
                lemma_digits_prefix(d@, i as int, p as int);
            }
            return None;
        }
        v = next;
    }
    Some(v)
}

/// Where the pieces of a decimal literal lie in `s`: the digits before the
/// point from `start` to `after`, those after it from `fs` to `es`, and the
/// exponent from `es` on.
fn decimal_layout(s: &[char]) -> (r: Option<(usize, usize, usize, usize)>)
    ensures
        r is None <==> !decimal_form(unsigned_part(s@)),
        r matches Some((start, after, fs, es)) ==> {
            let b = unsigned_part(s@);
            &&& start <= after <= fs <= es <= s.len()
            &&& int_digits(b) == s@.subrange(start as int, after as int)
            &&& frac_digits(b) == s@.subrange(fs as int, es as int)
            &&& exponent_text(b) == s@.skip(es as int)
            &&& exponent_ok(s@.skip(es as int))
        },
{
    let start: usize = if s.len() > 0 && (s[0] == '+' || s[0] == '-') { 1 } else { 0 };
    let ghost b = unsigned_part(s@);
    proof {
        assert(b =~= s@.skip(start as int));
    }
    let a = digits_from(s, start);
    let after = start + a;
    proof {
        assert(b.skip(a as int) =~= s@.skip(after as int));
        assert(int_digits(b) =~= s@.subrange(start as int, after as int));
    }
    let point_here = after < s.len() && s[after] == '.';
    let (fs, f) = if point_here {
        let f = digits_from(s, after + 1);
        proof {
            assert(s@.skip(after as int).drop_first() =~= s@.skip(after + 1));
            assert(s@.skip(after as int).drop_first().skip(f as int) =~= s@.skip(after + 1 + f));
        }
        (after + 1, f)
    } else {
        (after, 0)
    };
    let es = fs + f;
    proof {
        lemma_digit_run(s@.skip(start as int));
        if point_here {
            lemma_digit_run(s@.skip(fs as int));
            assert(frac_digits(b) =~= s@.subrange(fs as int, es as int));
            assert(exponent_text(b) =~= s@.skip(es as int));
        } else {
            assert(frac_digits(b) =~= Seq::<char>::empty());
            assert(exponent_text(b) =~= s@.skip(es as int));
        }
    }
    let well_formed = if point_here { a + f >= 1 } else { a >= 1 };
    if !well_formed || !exponent_at(s, es) {
        return None;
    }
    Some((start, after, fs, es))
}

/// The parts of a decimal literal: its mantissa's digits, how many of them
/// stand before the point, the exponent's sign, and its size unless it is
/// huge.
fn literal_parts(s: &[char]) -> (r: Option<(Vec<char>, usize, bool, Option<u128>)>)
    ensures
        r is None <==> !decimal_form(unsigned_part(s@)),
        r matches Some((d, a, neg, mag)) ==> {
            let b = unsigned_part(s@);
            let e = exponent_value(exponent_text(b));
            &&& d@ == mantissa(b)
            &&& a == int_digits(b).len()
            &&& a <= d.len()
            &&& forall|j: int| 0 <= j < d.len() ==> ascii_digit(#[trigger] d@[j])
            &&& mag matches Some(v) ==> e == (if neg { -v } else { v as int }) && v < HUGE_EXPONENT
            &&& mag is None ==> (if neg { e <= -HUGE_EXPONENT } else { e >= HUGE_EXPONENT })
        },
{
    let ghost b = unsigned_part(s@);
    let (start, after, fs, es) = match decimal_layout(s) {
        Some(x) => x,
        None => return None,
    };
    proof {
        lemma_digit_run(b);
        lemma_digit_run(b.skip(digit_run(b) as int).drop_first());
    }
    let mut d: Vec<char> = Vec::new();
    let mut i = start;
    while i < after
        invariant
            start <= i <= after <= s.len(),
            d@ == s@.subrange(start as int, i as int),
        decreases after - i,
    {
        d.push(s[i]);
        i = i + 1;
        assert(d@ =~= s@.subrange(start as int, i as int));
    }
    let mut i = fs;
    while i < es
        invariant
            fs <= i <= es <= s.len(),
            d@ == s@.subrange(start as int, after as int) + s@.subrange(fs as int, i as int),
        decreases es - i,
    {
        d.push(s[i]);
        i = i + 1;
        assert(d@ =~= s@.subrange(start as int, after as int) + s@.subrange(fs as int, i as int));
    }
    let a = after - start;
    proof {
        assert(d@ =~= mantissa(b));
        assert forall|j: int| 0 <= j < d.len() implies ascii_digit(#[trigger] d@[j]) by {
            if j < a {
                assert(d@[j] == int_digits(b)[j]);
            } else {
                assert(d@[j] == frac_digits(b)[j - a]);
            }
        }
    }
    let ghost e = s@.skip(es as int);
    if es == s.len() {
        proof {
            assert(e.len() == 0);
        }
        return Some((d, a, false, Some(0u128)));
    }
    let mut k = es + 1;
    proof {
        assert(e.drop_first() =~= s@.skip(k as int));
    }
    let mut negative = false;
    if k < s.len() && (s[k] == '+' || s[k] == '-') {
        negative = s[k] == '-';
        k = k + 1;
    }
    proof {
        assert(unsigned_part(e.drop_first()) =~= s@.skip(k as int));
        let dd = unsigned_part(e.drop_first());
        lemma_digit_run(dd);
        assert forall|j: int| k <= j < s.len() implies ascii_digit(#[trigger] s@[j]) by {
            assert(s@[j] == dd[j - k]);
        }
        assert(negative == (e.drop_first().len() > 0 && e.drop_first()[0] == '-'));
    }
    let mag = exponent_magnitude(s, k);
    Some((d, a, negative, mag))
}

/// The whole number that the digits `d` write with the point at `p`, when
/// no digit after the point is other than zero and the number is at most a
/// thousand million. The point is `a` moved by the exponent: `mag` places,
/// or, when `mag` is `None`, farther than any text is long.
fn placed_value(d: &Vec<char>, a: usize, negative: bool, mag: Option<u128>, Ghost(p): Ghost<int>) -> (r: Option<u64>)
    requires
        a <= d.len(),
        forall|j: int| 0 <= j < d.len() ==> ascii_digit(#[trigger] d@[j]),
        mag matches Some(v) ==> p == a + (if negative { -v } else { v as int }) && v < HUGE_EXPONENT,
        mag is None ==> (if negative { p <= a - HUGE_EXPONENT } else { p >= a + HUGE_EXPONENT }),
    ensures
        match r {
            Some(v) => fraction_is_zero(d@, p) && v == integer_part(d@, p) && v <= 1_000_000_000,
            None => !(fraction_is_zero(d@, p) && integer_part(d@, p) <= 1_000_000_000),
        },
{
    let n = d.len();
    let nonzero = any_nonzero(d);
    let mag = match mag {
        Some(v) => v,
        None => {
            // So far from the point that nothing of a nonzero mantissa is
            // in range, and a zero one is zero.
            proof {
                if nonzero {
                    let k = choose|j: int| 0 <= j < d.len() && d@[j] != '0';
                    lemma_digits_nonzero(d@, k);
                    if !negative {
                        lemma_pow10_grows(10, (p - n) as nat);
                        lemma_pow10_ten();
                        assert(digits_value(d@) * pow10((p - n) as nat) >= pow10((p - n) as nat))
                            by (nonlinear_arith)
                            requires
                                digits_value(d@) >= 1,
                        ;
                    } else {
                        assert(!fraction_is_zero(d@, p));
                    }
                } else {
                    lemma_digits_zero(d@);
                    assert(fraction_is_zero(d@, p));
                    if p > n {
                        assert(integer_part(d@, p) == 0);
                    } else {
                        assert(p <= 0);
                    }
                }
            }
            return if nonzero {
                None
            } else {
                Some(0)
            };
        },
    };
    let pt: i128 = if negative { a as i128 - mag as i128 } else { a as i128 + mag as i128 };
    let mut j: usize = if pt <= 0 { 0 } else if pt >= n as i128 { n } else { pt as usize };
    while j < n
        invariant
            j <= n == d.len(),
            pt == p,
            forall|q: int| 0 <= q < j && pt <= q ==> d@[q] == '0',
            pt > 0 ==> j >= pt || j == n,
        decreases n - j,
    {
        if d[j] != '0' {
            return None;
        }
        j = j + 1;
    }
    assert(fraction_is_zero(d@, p));
    if pt <= 0 {
        return Some(0);
    }
    if pt <= n as i128 {
        return bounded_prefix_value(d, pt as usize);
    }
    let base = match bounded_prefix_value(d, n) {
        Some(v) => v,
        None => {
            proof {
                assert(d@.take(n as int) =~= d@);
                lemma_pow10_grows(0, (p - n) as nat);
                assert(digits_value(d@) * pow10((p - n) as nat) >= digits_value(d@)) by (nonlinear_arith)
                    requires
                        pow10((p - n) as nat) >= 1,
                ;
            }
            return None;
        },
    };
    proof {
        assert(d@.take(n as int) =~= d@);
    }
    if base == 0 {
        return Some(0);
    }
    assert(pow10(0) == 1);
    let shift: u128 = (pt - n as i128) as u128;
    let mut v: u64 = base;
    let mut t: u128 = 0;
    while t < shift
        invariant
            t <= shift,
            shift == p - n,
            n == d.len(),
            base == digits_value(d@),
            base >= 1,
            v == base * pow10(t as nat),
            v <= 1_000_000_000,
        decreases shift - t,
    {
        let next = v * 10;
        t = t + 1;
        assert(pow10(t as nat) == 10 * pow10((t - 1) as nat));
        assert(next == base * pow10(t as nat)) by (nonlinear_arith)
            requires
                next == v * 10,
                v == base * pow10((t - 1) as nat),
                pow10(t as nat) == 10 * pow10((t - 1) as nat),
        ;
        if next > 1_000_000_000 {
            proof {
                lemma_pow10_grows(t as nat, shift as nat);
                assert(base * pow10(shift as nat) >= base * pow10(t as nat)) by (nonlinear_arith)
                    requires
                        pow10(shift as nat) >= pow10(t as nat),
                        base >= 1,
                ;
            }
            return None;
        }
        v = next;
    }
    Some(v)
}

/// The whole number a literal writes, when it writes one of at most a
/// thousand million either way: a count or a rotation written in a program.
pub fn whole_literal(s: &[char]) -> (r: Option<i64>)
    ensures
        match r {
            Some(v) => small_whole(s@) == Some(v as int),
            None => small_whole(s@) is None,
        },
{
    let negative = s.len() > 0 && s[0] == '-';
    let parts = literal_parts(s);
    let (d, a, exp_negative, mag) = match parts {
        Some(x) => x,
        None => return None,
    };
    let ghost b = unsigned_part(s@);
    let ghost p = point(b);
    proof {
        lemma_digit_run(b);
    }
    match placed_value(&d, a, exp_negative, mag, Ghost(p)) {
        Some(v) => Some(if negative { -(v as i64) } else { v as i64 }),
        None => None,
    }
}

} // verus!
