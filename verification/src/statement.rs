//! One line of a program: a declaration, a binding, a flow, an iteration,
//! a constraint or a trace.

use vstd::prelude::*;
use vstd::slice::slice_subrange;
use crate::ast::{
    expr_view, statement_view, ExternalBinding, FlowTarget, Function, SpaceDecl, Statement, StatementV, TargetV,
};
use crate::error::{disruption_view, DisruptionV, HarmonyDisruption};
use crate::expression::{outcome, parse_chars, parse_spec, signatures, usize_text, word_char, usize_word};
use crate::lexer::{find_chars, find_from, split_words, words_of};
use crate::text::{chars_of, is_alphanumeric, push_chars, push_str, string_from, trim, trim_range};

verus! {

// ---------------------------------------------------------------- splitting

/// Where `c` first occurs in `s`.
pub open spec fn char_index(s: Seq<char>, c: char) -> Option<int>
    decreases s.len(),
{
    if s.len() == 0 {
        None
    } else if s[0] == c {
        Some(0)
    } else {
        match char_index(s.drop_first(), c) {
            Some(i) => Some(i + 1),
            None => None,
        }
    }
}

pub proof fn lemma_char_index(s: Seq<char>, c: char)
    ensures
        char_index(s, c) matches Some(i) ==> 0 <= i < s.len() && s[i] == c && forall|j: int| 0 <= j < i ==> s[j] != c,
        char_index(s, c) is None ==> forall|j: int| 0 <= j < s.len() ==> s[j] != c,
    decreases s.len(),
{
    if s.len() > 0 {
        lemma_char_index(s.drop_first(), c);
        if s[0] != c {
            assert forall|j: int| 0 < j < s.len() implies s[j] == s.drop_first()[j - 1] by {}
        }
    }
}

proof fn lemma_char_index_at(s: Seq<char>, c: char, k: int)
    requires
        0 <= k <= s.len(),
        forall|j: int| 0 <= j < k ==> s[j] != c,
        k < s.len() ==> s[k] == c,
    ensures
        char_index(s, c) == (if k < s.len() { Some(k) } else { None::<int> }),
    decreases k,
{
    if k > 0 {
        assert forall|j: int| 0 <= j < k - 1 implies s.drop_first()[j] != c by {
            assert(s.drop_first()[j] == s[j + 1]);
        }
        lemma_char_index_at(s.drop_first(), c, k - 1);
    }
}

/// The pieces of `s` between occurrences of `c`, as `str::split` gives
/// them.
pub open spec fn split_char(s: Seq<char>, c: char) -> Seq<Seq<char>>
    decreases s.len(),
{
    proof {
        lemma_char_index(s, c);
    }
    match char_index(s, c) {
        Some(i) => seq![s.take(i)] + split_char(s.skip(i + 1), c),
        None => seq![s],
    }
}

/// The pieces of `s` between occurrences of `c`.
pub fn split_on(s: &[char], c: char) -> (r: Vec<Vec<char>>)
    ensures
        r@.map_values(|v: Vec<char>| v@) == split_char(s@, c),
{
    let mut out: Vec<Vec<char>> = Vec::new();
    let mut start: usize = 0;
    let mut i: usize = 0;
    assert(s@.skip(0) =~= s@);
    assert(out@.map_values(|v: Vec<char>| v@) =~= Seq::<Seq<char>>::empty());
    while i < s.len()
        invariant
            start <= i <= s.len(),
            forall|j: int| start <= j < i ==> s@[j] != c,
            split_char(s@, c) == out@.map_values(|v: Vec<char>| v@) + split_char(s@.skip(start as int), c),
        decreases s.len() - i,
    {
        if s[i] == c {
            let ghost rest = s@.skip(start as int);
            proof {
                lemma_char_index_at(rest, c, i - start);
                assert(rest.take(i - start) =~= s@.subrange(start as int, i as int));
                assert(rest.skip(i - start + 1) =~= s@.skip(i + 1));
            }
            let mut piece: Vec<char> = Vec::new();
            let mut k = start;
            while k < i
                invariant
                    start <= k <= i < s.len(),
                    piece@ == s@.subrange(start as int, k as int),
                decreases i - k,
            {
                piece.push(s[k]);
                k = k + 1;
                assert(piece@ =~= s@.subrange(start as int, k as int));
            }
            let ghost before = out@.map_values(|v: Vec<char>| v@);
            out.push(piece);
            assert(out@.map_values(|v: Vec<char>| v@) =~= before.push(s@.subrange(start as int, i as int)));
            assert(before + split_char(rest, c) =~= out@.map_values(|v: Vec<char>| v@) + split_char(s@.skip(i + 1), c));
            start = i + 1;
        }
        i = i + 1;
    }
    let ghost rest = s@.skip(start as int);
    proof {
        lemma_char_index_at(rest, c, rest.len() as int);
    }
    let mut piece: Vec<char> = Vec::new();
    let mut k = start;
    while k < s.len()
        invariant
            start <= k <= s.len(),
            piece@ == s@.subrange(start as int, k as int),
        decreases s.len() - k,
    {
        piece.push(s[k]);
        k = k + 1;
        assert(piece@ =~= s@.subrange(start as int, k as int));
    }
    let ghost before = out@.map_values(|v: Vec<char>| v@);
    out.push(piece);
    assert(piece@ =~= rest) by {
        assert(s@.subrange(start as int, s.len() as int) =~= rest);
    }
    assert(out@.map_values(|v: Vec<char>| v@) =~= before + seq![rest]);
    out
}

/// Where `c` first occurs in `s`.
pub(crate) fn char_position(s: &[char], c: char) -> (r: Option<usize>)
    ensures
        match r {
            Some(i) => char_index(s@, c) == Some(i as int) && i < s.len() && s@[i as int] == c,
            None => char_index(s@, c) is None,
        },
{
    let mut i: usize = 0;
    while i < s.len()
        invariant
            i <= s.len(),
            forall|j: int| 0 <= j < i ==> s@[j] != c,
        decreases s.len() - i,
    {
        if s[i] == c {
            proof {
                lemma_char_index_at(s@, c, i as int);
            }
            return Some(i);
        }
        i = i + 1;
    }
    proof {
        lemma_char_index_at(s@, c, s.len() as int);
    }
    None
}

// ---------------------------------------------------------------- stripping

/// Leading copies of `p` dropped, as `str::trim_start_matches` drops them.
pub open spec fn strip_leading(s: Seq<char>, p: Seq<char>) -> Seq<char>
    decreases s.len(),
{
    if p.len() > 0 && p.len() <= s.len() && s.take(p.len() as int) == p {
        strip_leading(s.skip(p.len() as int), p)
    } else {
        s
    }
}

/// Trailing copies of `c` dropped.
pub open spec fn strip_trailing(s: Seq<char>, c: char) -> Seq<char>
    decreases s.len(),
{
    if s.len() > 0 && s.last() == c {
        strip_trailing(s.drop_last(), c)
    } else {
        s
    }
}

pub open spec fn paren(c: char) -> bool {
    c == '(' || c == ')'
}

/// Parentheses dropped from the front.
pub open spec fn strip_parens_front(s: Seq<char>) -> Seq<char>
    decreases s.len(),
{
    if s.len() > 0 && paren(s[0]) {
        strip_parens_front(s.drop_first())
    } else {
        s
    }
}

/// Parentheses dropped from the back.
pub open spec fn strip_parens_back(s: Seq<char>) -> Seq<char>
    decreases s.len(),
{
    if s.len() > 0 && paren(s.last()) {
        strip_parens_back(s.drop_last())
    } else {
        s
    }
}

/// Parentheses dropped from both ends, as `str::trim_matches` drops them.
pub open spec fn strip_parens(s: Seq<char>) -> Seq<char> {
    strip_parens_back(strip_parens_front(s))
}

pub(crate) fn strip_leading_range(s: &[char], a: usize, b: usize, p: &[char]) -> (r: usize)
    requires
        a <= b <= s.len(),
    ensures
        a <= r <= b,
        s@.subrange(r as int, b as int) == strip_leading(s@.subrange(a as int, b as int), p@),
{
    let mut i = a;
    while p.len() > 0 && p.len() <= b - i && slice_eq_at(s, i, p)
        invariant
            a <= i <= b <= s.len(),
            strip_leading(s@.subrange(a as int, b as int), p@) == strip_leading(s@.subrange(i as int, b as int), p@),
        decreases b - i,
    {
        proof {
            assert(s@.subrange(i as int, b as int).take(p.len() as int) =~= p@);
            assert(s@.subrange(i as int, b as int).skip(p.len() as int) =~= s@.subrange(i + p.len(), b as int));
        }
        i = i + p.len();
    }
    proof {
        if p.len() > 0 && p.len() <= b - i {
            assert(s@.subrange(i as int, b as int).take(p.len() as int) =~= s@.subrange(i as int, i + p.len()));
        }
    }
    i
}

fn slice_eq_at(s: &[char], i: usize, p: &[char]) -> (r: bool)
    requires
        i + p.len() <= s.len(),
    ensures
        r == (s@.subrange(i as int, i + p.len()) == p@),
{
    let mut j: usize = 0;
    while j < p.len()
        invariant
            j <= p.len(),
            i + p.len() <= s.len(),
            forall|q: int| 0 <= q < j ==> s@[i + q] == p@[q],
        decreases p.len() - j,
    {
        if s[i + j] != p[j] {
            assert(s@.subrange(i as int, i + p.len())[j as int] != p@[j as int]);
            return false;
        }
        j = j + 1;
    }
    assert(s@.subrange(i as int, i + p.len()) =~= p@);
    true
}

// ---------------------------------------------------------------- numbers

/// The value of a hexadecimal digit.
pub open spec fn hex_digit(c: char) -> Option<nat> {
    if '0' <= c <= '9' {
        Some(((c as u32) - 48) as nat)
    } else if 'a' <= c <= 'f' {
        Some(((c as u32) - 87) as nat)
    } else if 'A' <= c <= 'F' {
        Some(((c as u32) - 55) as nat)
    } else {
        None
    }
}

pub open spec fn hex_value(d: Seq<char>) -> nat
    decreases d.len(),
{
    if d.len() == 0 {
        0
    } else {
        16 * hex_value(d.drop_last()) + match hex_digit(d.last()) {
            Some(v) => v,
            None => 0,
        }
    }
}

/// Whether every character of `d` is a hexadecimal digit.
pub open spec fn all_hex(d: Seq<char>) -> bool {
    forall|j: int| 0 <= j < d.len() ==> hex_digit(#[trigger] d[j]) is Some
}

/// A `u64` as `u64::from_str_radix(_, 16)` reads one: an optional `+`,
/// then hexadecimal digits.
pub open spec fn hex_u64(w: Seq<char>) -> Option<u64> {
    let d = if w.len() > 0 && w[0] == '+' {
        w.drop_first()
    } else {
        w
    };
    if d.len() == 0 || !all_hex(d) {
        None
    } else if hex_value(d) > u64::MAX {
        None
    } else {
        Some(hex_value(d) as u64)
    }
}

/// The address a binding's first part writes: `&[0x7A4F]`, or 0 when it
/// writes none.
pub open spec fn address_of(part: Seq<char>) -> u64 {
    let a = strip_trailing(strip_leading(trim(part), seq!['&', '[']), ']');
    match hex_u64(strip_leading(a, seq!['0', 'x'])) {
        Some(v) => v,
        None => 0,
    }
}

/// `s` without the frame glyphs `◯` and `□`.
pub open spec fn without_frame(s: Seq<char>) -> Seq<char>
    decreases s.len(),
{
    if s.len() == 0 {
        Seq::empty()
    } else if s.last() == '◯' || s.last() == '□' {
        without_frame(s.drop_last())
    } else {
        without_frame(s.drop_last()).push(s.last())
    }
}

/// The words that write a `usize`, read in order; the others are passed
/// over.
pub open spec fn usize_words(ws: Seq<Seq<char>>) -> Seq<usize>
    decreases ws.len(),
{
    if ws.len() == 0 {
        Seq::empty()
    } else {
        let r = usize_words(ws.drop_last());
        match usize_text(ws.last()) {
            Some(v) => r.push(v),
            None => r,
        }
    }
}

/// The dimensions a declaration's text lists.
pub open spec fn dims_of_text(part: Seq<char>) -> Seq<usize> {
    usize_words(words_of(without_frame(part)))
}

fn hex_of(w: &[char]) -> (r: Option<u64>)
    ensures
        r == hex_u64(w@),
{
    let start: usize = if w.len() > 0 && w[0] == '+' { 1 } else { 0 };
    let d = slice_subrange(w, start, w.len());
    proof {
        if start == 1 {
            assert(d@ =~= w@.drop_first());
        } else {
            assert(d@ =~= w@);
        }
    }
    if d.len() == 0 {
        return None;
    }
    let mut v: u64 = 0;
    let mut i: usize = 0;
    let mut overflow = false;
    assert(d@.take(0) =~= Seq::<char>::empty());
    while i < d.len()
        invariant
            i <= d.len(),
            d@ == (if w@.len() > 0 && w@[0] == '+' { w@.drop_first() } else { w@ }),
            forall|j: int| 0 <= j < i ==> hex_digit(#[trigger] d@[j]) is Some,
            !overflow ==> v == hex_value(d@.take(i as int)),
            overflow ==> hex_value(d@.take(i as int)) > u64::MAX,
        decreases d.len() - i,
    {
        let c = d[i];
        let dv: u64 = if '0' <= c && c <= '9' {
            (c as u32 - 48) as u64
        } else if 'a' <= c && c <= 'f' {
            (c as u32 - 87) as u64
        } else if 'A' <= c && c <= 'F' {
            (c as u32 - 55) as u64
        } else {
            proof {
                assert(hex_digit(d@[i as int]) is None);
                assert(!all_hex(d@));
            }
            return None;
        };
        assert(d@.take(i + 1).drop_last() =~= d@.take(i as int));
        assert(d@.take(i + 1).last() == c);
        if !overflow {
            match v.checked_mul(16) {
                Some(x) => match x.checked_add(dv) {
                    Some(y) => {
                        v = y;
                    },
                    None => {
                        overflow = true;
                    },
                },
                None => {
                    overflow = true;
                },
            }
        }
        i = i + 1;
    }
    assert(d@.take(d.len() as int) =~= d@);
    if overflow {
        None
    } else {
        Some(v)
    }
}

/// The text of `s` without the frame glyphs.
fn frameless(s: &[char]) -> (r: Vec<char>)
    ensures
        r@ == without_frame(s@),
{
    let mut out: Vec<char> = Vec::new();
    let mut i: usize = 0;
    assert(s@.take(0) =~= Seq::<char>::empty());
    while i < s.len()
        invariant
            i <= s.len(),
            out@ == without_frame(s@.take(i as int)),
        decreases s.len() - i,
    {
        assert(s@.take(i + 1).drop_last() =~= s@.take(i as int));
        if s[i] != '◯' && s[i] != '□' {
            out.push(s[i]);
        }
        i = i + 1;
    }
    assert(s@.take(s.len() as int) =~= s@);
    out
}

/// The dimensions a declaration's text lists.
fn dims_from(part: &[char]) -> (r: Vec<usize>)
    ensures
        r@ == dims_of_text(part@),
{
    let text = frameless(part);
    let words = split_words(text.as_slice());
    let ghost ws = words@.map_values(|x: Vec<char>| x@);
    let mut out: Vec<usize> = Vec::new();
    let mut i: usize = 0;
    assert(ws.take(0) =~= Seq::<Seq<char>>::empty());
    while i < words.len()
        invariant
            i <= words.len(),
            ws == words@.map_values(|x: Vec<char>| x@),
            out@ == usize_words(ws.take(i as int)),
        decreases words.len() - i,
    {
        assert(ws.take(i + 1).drop_last() =~= ws.take(i as int));
        assert(ws.take(i + 1).last() == words@[i as int]@);
        match usize_word(words[i].as_slice()) {
            Some(v) => {
                out.push(v);
            },
            None => {},
        }
        i = i + 1;
    }
    assert(ws.take(words.len() as int) =~= ws);
    out
}

// ---------------------------------------------------------------- declarations

/// What a declaration `NAME:◯ □ D1 D2 ...` declares.
pub open spec fn space_decl_spec(line: Seq<char>) -> StatementV {
    let parts = split_char(line, ':');
    StatementV::SpaceDef { name: trim(parts[0]), dims: dims_of_text(parts[1]) }
}

/// What a binding `&[ADDRESS]:NAME:◯ □ D1 D2 ...` binds.
pub open spec fn ext_binding_spec(line: Seq<char>) -> Result<StatementV, DisruptionV> {
    let parts = split_char(line, ':');
    if parts.len() < 3 {
        Err(DisruptionV::GlyphErr { symbol: line, line: 1, column: 1 })
    } else {
        Ok(StatementV::ExtBind { address: address_of(parts[0]), name: trim(parts[1]), dims: dims_of_text(parts[2]) })
    }
}

/// A space declaration: `NAME:◯ □ D1 D2 ...`.
pub fn parse_space_decl(line: &[char]) -> (r: SpaceDecl)
    requires
        char_index(line@, ':') is Some,
    ensures
        (StatementV::SpaceDef { name: r.name@, dims: r.dimensions@ }) == space_decl_spec(line@),
{
    let parts = split_on(line, ':');
    proof {
        lemma_char_index(line@, ':');
        let i = char_index(line@, ':')->0;
        let rest = line@.skip(i + 1);
        lemma_char_index(rest, ':');
        assert(split_char(rest, ':').len() >= 1);
        assert(split_char(line@, ':') == seq![line@.take(i)] + split_char(rest, ':'));
        assert(split_char(line@, ':').len() >= 2);
    }
    let (a, b) = trim_range(parts[0].as_slice(), 0, parts[0].len());
    proof {
        assert(parts[0]@.subrange(0, parts[0].len() as int) =~= parts[0]@);
    }
    let name = string_from(slice_subrange(parts[0].as_slice(), a, b));
    let dimensions = dims_from(parts[1].as_slice());
    SpaceDecl { name, dimensions }
}

/// An external binding: `&[ADDRESS]:NAME:◯ □ D1 D2 ...`.
pub fn parse_ext_binding(line: &[char]) -> (r: Result<ExternalBinding, HarmonyDisruption>)
    ensures
        match r {
            Ok(b) => ext_binding_spec(line@) == Ok::<StatementV, DisruptionV>(
                StatementV::ExtBind { address: b.address, name: b.space.name@, dims: b.space.dimensions@ },
            ),
            Err(e) => ext_binding_spec(line@) == Err::<StatementV, DisruptionV>(disruption_view(e)),
        },
{
    let parts = split_on(line, ':');
    if parts.len() < 3 {
        return Err(HarmonyDisruption::GlyphErr { symbol: string_from(line), line: 1, column: 1 });
    }
    // The address: `&[`, `]` and `0x` around hexadecimal digits.
    let first = parts[0].as_slice();
    let (a, b) = trim_range(first, 0, first.len());
    proof {
        assert(first@.subrange(0, first.len() as int) =~= first@);
    }
    let amp = vec!['&', '['];
    let a2 = strip_leading_range(first, a, b, amp.as_slice());
    let mut b2 = b;
    while b2 > a2 && first[b2 - 1] == ']'
        invariant
            a2 <= b2 <= b <= first.len(),
            strip_trailing(first@.subrange(a2 as int, b as int), ']') == strip_trailing(
                first@.subrange(a2 as int, b2 as int),
                ']',
            ),
        decreases b2,
    {
        assert(first@.subrange(a2 as int, b2 as int).drop_last() =~= first@.subrange(a2 as int, b2 - 1));
        b2 = b2 - 1;
    }
    let zx = vec!['0', 'x'];
    proof {
        assert(amp@ =~= seq!['&', '[']);
        assert(zx@ =~= seq!['0', 'x']);
    }
    let a3 = strip_leading_range(first, a2, b2, zx.as_slice());
    let address = match hex_of(slice_subrange(first, a3, b2)) {
        Some(v) => v,
        None => 0,
    };
    let second = parts[1].as_slice();
    let (na, nb) = trim_range(second, 0, second.len());
    proof {
        assert(second@.subrange(0, second.len() as int) =~= second@);
    }
    let name = string_from(slice_subrange(second, na, nb));
    let dimensions = dims_from(parts[2].as_slice());
    Ok(ExternalBinding { address, space: SpaceDecl { name, dimensions } })
}


// ---------------------------------------------------------------- lines

pub open spec fn name_chars(t: Seq<char>) -> bool {
    forall|j: int| 0 <= j < t.len() ==> word_char(#[trigger] t[j])
}

pub open spec fn iterate_detail(target: Seq<char>) -> Seq<char> {
    "`⇒` needs a space to iterate, not '"@ + target + "'"@
}

/// What one line of a program says, if anything, with `sigs` the functions
/// defined before it.
pub open spec fn line_spec(line: Seq<char>, sigs: Seq<(Seq<char>, nat)>) -> Result<Option<StatementV>, DisruptionV> {
    let t = trim(line);
    if t.len() == 0 {
        Ok(None)
    } else if t[0] == '&' {
        match ext_binding_spec(t) {
            Ok(b) => Ok(Some(b)),
            Err(e) => Err(e),
        }
    } else if t[0] == '!' {
        match parse_spec(strip_parens(trim(t.skip(1))), sigs) {
            Ok(x) => Ok(Some(StatementV::Constraint(x))),
            Err(e) => Err(e),
        }
    } else if t[0] == '$' {
        match parse_spec(t.skip(1), sigs) {
            Ok(x) => Ok(Some(StatementV::AuditTrace(x))),
            Err(e) => Err(e),
        }
    } else if find_from(t, seq![':', '◯', ' ', '□'], 0) is Some || find_from(t, seq![':', '◯', '□'], 0) is Some {
        Ok(Some(space_decl_spec(t)))
    } else if char_index(t, '⇒') is Some {
        let parts = split_char(t, '⇒');
        if parts.len() != 2 {
            Err(DisruptionV::IterateErr { detail: "a line iterates one expression into one space: `expr ⇒ NAME`"@, line: 0 })
        } else {
            match parse_spec(parts[0], sigs) {
                Err(e) => Err(e),
                Ok(src) => {
                    let target = trim(parts[1]);
                    if target == seq!['='] {
                        Err(
                            DisruptionV::IterateErr {
                                detail: "`⇒` cannot flow into `=`; iterate into a space and then send it on with `NAME → =`"@,
                                line: 0,
                            },
                        )
                    } else if target.len() == 0 || !name_chars(target) {
                        Err(DisruptionV::IterateErr { detail: iterate_detail(target), line: 0 })
                    } else {
                        Ok(Some(StatementV::Iterate { src, target }))
                    }
                },
            }
        }
    } else if char_index(t, '→') is Some && split_char(t, '→').len() == 2 {
        let parts = split_char(t, '→');
        match parse_spec(parts[0], sigs) {
            Err(e) => Err(e),
            Ok(src) => {
                let target = trim(parts[1]);
                Ok(
                    Some(
                        StatementV::Flow {
                            src,
                            target: if target == seq!['='] {
                                TargetV::Equilibrium
                            } else {
                                TargetV::Var(target)
                            },
                        },
                    ),
                )
            },
        }
    } else {
        Ok(None)
    }
}

/// What a line's parse gives, as `line_spec` speaks of it.
pub open spec fn line_outcome(r: Result<Option<Statement>, HarmonyDisruption>) -> Result<Option<StatementV>, DisruptionV> {
    match r {
        Ok(Some(s)) => Ok(Some(statement_view(s))),
        Ok(None) => Ok(None),
        Err(e) => Err(disruption_view(e)),
    }
}

fn is_paren(c: char) -> (r: bool)
    ensures
        r == paren(c),
{
    c == '(' || c == ')'
}

/// Where the text of `s` between `lo` and `hi` lies without the
/// parentheses at its ends.
fn strip_parens_range(s: &[char], lo: usize, hi: usize) -> (r: (usize, usize))
    requires
        lo <= hi <= s.len(),
    ensures
        lo <= r.0 <= r.1 <= hi,
        s@.subrange(r.0 as int, r.1 as int) == strip_parens(s@.subrange(lo as int, hi as int)),
{
    let mut a = lo;
    while a < hi && is_paren(s[a])
        invariant
            lo <= a <= hi <= s.len(),
            strip_parens_front(s@.subrange(lo as int, hi as int)) == strip_parens_front(s@.subrange(a as int, hi as int)),
        decreases hi - a,
    {
        assert(s@.subrange(a as int, hi as int).drop_first() =~= s@.subrange(a + 1, hi as int));
        a = a + 1;
    }
    let mut b = hi;
    while b > a && is_paren(s[b - 1])
        invariant
            lo <= a <= b <= hi <= s.len(),
            strip_parens_back(s@.subrange(a as int, hi as int)) == strip_parens_back(s@.subrange(a as int, b as int)),
        decreases b,
    {
        assert(s@.subrange(a as int, b as int).drop_last() =~= s@.subrange(a as int, b - 1));
        b = b - 1;
    }
    (a, b)
}

/// Whether every character of `t` may stand in a name.
pub(crate) fn all_name_chars(t: &[char]) -> (r: bool)
    ensures
        r == name_chars(t@),
{
    let mut i: usize = 0;
    while i < t.len()
        invariant
            i <= t.len(),
            forall|j: int| 0 <= j < i ==> word_char(#[trigger] t@[j]),
        decreases t.len() - i,
    {
        if !(is_alphanumeric(t[i]) || t[i] == '_') {
            return false;
        }
        i = i + 1;
    }
    true
}

fn iterate_error(detail: &str) -> (r: HarmonyDisruption)
    ensures
        disruption_view(r) == (DisruptionV::IterateErr { detail: detail@, line: 0 }),
{
    let mut m = String::new();
    push_str(&mut m, detail);
    assert(m@ =~= detail@);
    HarmonyDisruption::IterateErr { detail: m, line: 0 }
}

/// What one line of a program says, if anything: a binding, a constraint,
/// a trace, a declaration, an iteration or a flow.
#[verifier::rlimit(60)]
pub fn parse_line(line: &[char], functions: &[Function]) -> (r: Result<Option<Statement>, HarmonyDisruption>)
    ensures
        line_outcome(r) == line_spec(line@, signatures(functions@)),
{
    let (a, b) = trim_range(line, 0, line.len());
    let t = slice_subrange(line, a, b);
    proof {
        assert(line@.subrange(0, line.len() as int) =~= line@);
    }
    let n = t.len();
    if n == 0 {
        return Ok(None);
    }
    if t[0] == '&' {
        return match parse_ext_binding(t) {
            Ok(binding) => Ok(Some(Statement::ExtBind(binding))),
            Err(e) => Err(e),
        };
    }
    if t[0] == '!' {
        let (ea, eb) = trim_range(t, 1, n);
        let (pa, pb) = strip_parens_range(t, ea, eb);
        proof {
            assert(t@.subrange(1, n as int) =~= t@.skip(1));
        }
        return match parse_chars(slice_subrange(t, pa, pb), functions) {
            Ok(x) => Ok(Some(Statement::Constraint(x))),
            Err(e) => Err(e),
        };
    }
    if t[0] == '$' {
        let rest = slice_subrange(t, 1, n);
        proof {
            assert(rest@ =~= t@.skip(1));
        }
        return match parse_chars(rest, functions) {
            Ok(x) => Ok(Some(Statement::AuditTrace(x))),
            Err(e) => Err(e),
        };
    }
    let spaced = vec![':', '◯', ' ', '□'];
    let tight = vec![':', '◯', '□'];
    proof {
        assert(spaced@ =~= seq![':', '◯', ' ', '□']);
        assert(tight@ =~= seq![':', '◯', '□']);
    }
    if find_chars(t, spaced.as_slice()).is_some() || find_chars(t, tight.as_slice()).is_some() {
        proof {
            let sp = seq![':', '◯', ' ', '□'];
            let ti = seq![':', '◯', '□'];
            if find_from(t@, sp, 0) is Some {
                let k = find_from(t@, sp, 0)->0;
                crate::lexer::lemma_find_from(t@, sp, 0);
                assert(t@.subrange(k, k + sp.len())[0] == t@[k]);
                lemma_char_index_at_most(t@, ':', k);
            } else {
                let k = find_from(t@, ti, 0)->0;
                crate::lexer::lemma_find_from(t@, ti, 0);
                assert(t@.subrange(k, k + ti.len())[0] == t@[k]);
                lemma_char_index_at_most(t@, ':', k);
            }
        }
        return Ok(Some(Statement::SpaceDef(parse_space_decl(t))));
    }
    if char_position(t, '⇒').is_some() {
        let parts = split_on(t, '⇒');
        if parts.len() != 2 {
            return Err(iterate_error("a line iterates one expression into one space: `expr ⇒ NAME`"));
        }
        let src = match parse_chars(parts[0].as_slice(), functions) {
            Ok(x) => x,
            Err(e) => return Err(e),
        };
        let second = parts[1].as_slice();
        let (ta, tb) = trim_range(second, 0, second.len());
        let target = slice_subrange(second, ta, tb);
        proof {
            assert(second@.subrange(0, second.len() as int) =~= second@);
        }
        if target.len() == 1 && target[0] == '=' {
            proof {
                assert(target@ =~= seq!['=']);
            }
            return Err(
                iterate_error("`⇒` cannot flow into `=`; iterate into a space and then send it on with `NAME → =`"),
            );
        }
        proof {
            if target@ == seq!['='] {
                assert(target@[0] == '=');
            }
        }
        if target.len() == 0 || !all_name_chars(target) {
            let mut m = String::new();
            push_str(&mut m, "`⇒` needs a space to iterate, not '");
            push_chars(&mut m, target);
            push_str(&mut m, "'");
            return Err(HarmonyDisruption::IterateErr { detail: m, line: 0 });
        }
        return Ok(Some(Statement::Iterate { src, target: string_from(target) }));
    }
    if char_position(t, '→').is_some() {
        let parts = split_on(t, '→');
        if parts.len() == 2 {
            let src = match parse_chars(parts[0].as_slice(), functions) {
                Ok(x) => x,
                Err(e) => return Err(e),
            };
            let second = parts[1].as_slice();
            let (ta, tb) = trim_range(second, 0, second.len());
            let target = slice_subrange(second, ta, tb);
            proof {
                assert(second@.subrange(0, second.len() as int) =~= second@);
            }
            let flow_target = if target.len() == 1 && target[0] == '=' {
                proof {
                    assert(target@ =~= seq!['=']);
                }
                FlowTarget::Equilibrium
            } else {
                proof {
                    if target@ == seq!['='] {
                        assert(target@[0] == '=');
                    }
                }
                FlowTarget::Var(string_from(target))
            };
            return Ok(Some(Statement::Flow { src, target: flow_target }));
        }
    }
    Ok(None)
}

proof fn lemma_char_index_at_most(s: Seq<char>, c: char, k: int)
    requires
        0 <= k < s.len(),
        s[k] == c,
    ensures
        char_index(s, c) is Some,
{
    lemma_char_index(s, c);
}

} // verus!
