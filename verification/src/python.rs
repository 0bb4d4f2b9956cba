//! Names and shapes as the JAX target spells them in Python.

use vstd::prelude::*;
use crate::error::{disruption_view, DisruptionV, HarmonyDisruption};
use crate::text::{ascii_alnum, ascii_digit, chars_of, dims_joined, is_ascii_alnum, is_ascii_digit, push_char, push_dims_joined, push_str};

verus! {

/// A construct the JAX subset lacks.
pub fn unsupported(what: &str, line: usize) -> (r: HarmonyDisruption)
    ensures
        disruption_view(r) == (DisruptionV::LoweringErr {
            detail: what@ + " is not in the JAX subset (--emit-jax)"@,
            line,
        }),
{
    let mut m = String::new();
    push_str(&mut m, what);
    push_str(&mut m, " is not in the JAX subset (--emit-jax)");
    HarmonyDisruption::LoweringErr { detail: m, line }
}

/// The character of one hexadecimal digit, in lower case.
pub open spec fn hex_char(d: nat) -> char {
    if d < 10 {
        crate::text::digit_char(d)
    } else if d == 10 {
        'a'
    } else if d == 11 {
        'b'
    } else if d == 12 {
        'c'
    } else if d == 13 {
        'd'
    } else if d == 14 {
        'e'
    } else {
        'f'
    }
}

/// The hexadecimal digits of `n`, in lower case.
pub open spec fn hex_lower(n: nat) -> Seq<char>
    decreases n,
{
    if n < 16 {
        seq![hex_char(n)]
    } else {
        hex_lower(n / 16).push(hex_char(n % 16))
    }
}

/// At least four hexadecimal digits: `{:04x}`.
pub open spec fn hex4(n: nat) -> Seq<char> {
    let h = hex_lower(n);
    if h.len() < 4 {
        Seq::new((4 - h.len()) as nat, |i: int| '0') + h
    } else {
        h
    }
}

/// What a character of a name becomes in Python.
pub open spec fn py_piece(c: char) -> Seq<char> {
    if ascii_alnum(c) || c == '_' {
        seq![c]
    } else {
        "_u"@ + hex4((c as u32) as nat) + "_"@
    }
}

pub open spec fn py_body(s: Seq<char>) -> Seq<char>
    decreases s.len(),
{
    if s.len() == 0 {
        Seq::empty()
    } else {
        py_body(s.drop_last()) + py_piece(s.last())
    }
}

/// A name as a Python identifier: every character outside `[A-Za-z0-9_]`
/// spelled by its code, and an underscore before a leading digit.
pub open spec fn py_name_spec(s: Seq<char>) -> Seq<char> {
    let b = py_body(s);
    if b.len() > 0 && ascii_digit(b[0]) {
        seq!['_'] + b
    } else {
        b
    }
}

fn hex_digit_char(d: u32) -> (c: char)
    requires
        d < 16,
    ensures
        c == hex_char(d as nat),
{
    if d == 0 { '0' } else if d == 1 { '1' } else if d == 2 { '2' } else if d == 3 { '3' } else if d == 4 {
        '4'
    } else if d == 5 { '5' } else if d == 6 { '6' } else if d == 7 { '7' } else if d == 8 { '8' } else if d == 9 {
        '9'
    } else if d == 10 { 'a' } else if d == 11 { 'b' } else if d == 12 { 'c' } else if d == 13 { 'd' } else if d == 14 {
        'e'
    } else { 'f' }
}

fn hex_string(n: u32) -> (r: Vec<char>)
    ensures
        r@ == hex_lower(n as nat),
    decreases n,
{
    if n < 16 {
        let mut v = Vec::new();
        v.push(hex_digit_char(n));
        assert(v@ =~= hex_lower(n as nat));
        v
    } else {
        let mut v = hex_string(n / 16);
        v.push(hex_digit_char(n % 16));
        v
    }
}

/// The lower-case hexadecimal digits of a number.
pub(crate) fn push_lower_hex(s: &mut String, n: u64)
    ensures
        final(s)@ == old(s)@ + hex_lower(n as nat),
    decreases n,
{
    if n < 16 {
        push_char(s, hex_digit_char(n as u32));
        assert(final(s)@ =~= old(s)@ + hex_lower(n as nat)) by {
            assert(hex_lower(n as nat) == seq![hex_char(n as nat)]);
        }
    } else {
        push_lower_hex(s, n / 16);
        push_char(s, hex_digit_char((n % 16) as u32));
        assert(s@ =~= old(s)@ + hex_lower(n as nat));
    }
}

fn push_hex4(s: &mut String, n: u32)
    ensures
        final(s)@ == old(s)@ + hex4(n as nat),
{
    let h = hex_string(n);
    if h.len() < 4 {
        let pad = 4 - h.len();
        let mut i: usize = 0;
        while i < pad
            invariant
                i <= pad,
                pad == 4 - h.len(),
                s@ == old(s)@ + Seq::new(i as nat, |j: int| '0'),
            decreases pad - i,
        {
            push_char(s, '0');
            i = i + 1;
            assert(s@ =~= old(s)@ + Seq::new(i as nat, |j: int| '0'));
        }
    }
    crate::text::push_chars(s, h.as_slice());
    assert(s@ =~= old(s)@ + hex4(n as nat));
}

/// A ρ name as a Python identifier: a name may carry `·` from a function's
/// expansion, which Python identifiers cannot.
pub fn py_name(name: &str) -> (r: String)
    ensures
        r@ == py_name_spec(name@),
{
    let cs = chars_of(name);
    let mut out = String::new();
    let mut i: usize = 0;
    assert(cs@.take(0) =~= Seq::<char>::empty());
    while i < cs.len()
        invariant
            i <= cs.len(),
            out@ == py_body(cs@.take(i as int)),
        decreases cs.len() - i,
    {
        let c = cs[i];
        assert(cs@.take(i + 1).drop_last() =~= cs@.take(i as int));
        assert(cs@.take(i + 1).last() == c);
        let ghost before = out@;
        if is_ascii_alnum(c) || c == '_' {
            push_char(&mut out, c);
        } else {
            push_str(&mut out, "_u");
            push_hex4(&mut out, c as u32);
            push_str(&mut out, "_");
            assert(out@ =~= before + py_piece(c));
        }
        i = i + 1;
        assert(out@ =~= py_body(cs@.take(i as int)));
    }
    assert(cs@.take(cs.len() as int) =~= name@);
    let body = chars_of(out.as_str());
    if body.len() > 0 && is_ascii_digit(body[0]) {
        let mut r = String::new();
        push_char(&mut r, '_');
        push_str(&mut r, out.as_str());
        return r;
    }
    out
}

/// A shape as a Python tuple, which `jax.jit` can hash where a list cannot.
pub fn py_tuple(shape: &[usize]) -> (r: String)
    ensures
        r@ == "("@ + dims_joined(shape@, seq![',', ' ']) + ",)"@,
{
    let mut s = String::new();
    push_str(&mut s, "(");
    let sep = vec![',', ' '];
    assert(sep@ =~= seq![',', ' ']);
    push_dims_joined(&mut s, shape, sep.as_slice());
    push_str(&mut s, ",)");
    s
}

} // verus!
