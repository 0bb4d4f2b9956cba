//! Replacing the ASCII spellings of the glyphs a second time changes
//! nothing: after one pass no spelling is left. A fold glyph's operator
//! character names the fold of the operator it spells, and the operators
//! the reader knows are spelled as the printer writes them.

use vstd::prelude::*;
use crate::lexer::{aliases, normalized, replace_all};
use crate::ast::{fold_of, BinaryOpKind, FoldOp};
use crate::symbolic::{binop_text, fold_char};
use crate::expression::{binary_ops, fold_named};

verus! {

/// Whether `p` occurs in `s` at position `i`.
pub open spec fn occurs_at(s: Seq<char>, p: Seq<char>, i: int) -> bool {
    0 <= i && i + p.len() <= s.len() && s.subrange(i, i + p.len()) == p
}

/// Whether `p` occurs anywhere in `s`.
pub open spec fn occurs(s: Seq<char>, p: Seq<char>) -> bool {
    exists|i: int| #[trigger] occurs_at(s, p, i)
}

/// A character an ASCII spelling of a glyph is made of.
pub open spec fn spelling_char(c: char) -> bool {
    c == '<' || c == '.' || c == '>' || c == '[' || c == ']' || c == '-' || c == '=' || c == '#' || c == '%' || c
        == '\\' || c == '\'' || c == '^' || c == '_' || c == '@'
}

pub open spec fn spelled(p: Seq<char>) -> bool {
    p.len() > 0 && forall|i: int| 0 <= i < p.len() ==> spelling_char(#[trigger] p[i])
}

/// A glyph a spelling becomes: one character no spelling holds.
pub open spec fn glyph(r: Seq<char>) -> bool {
    r.len() == 1 && !spelling_char(r[0])
}

proof fn lemma_absent_unchanged(s: Seq<char>, p: Seq<char>, r: Seq<char>)
    requires
        p.len() > 0,
        !occurs(s, p),
    ensures
        replace_all(s, p, r) == s,
    decreases s.len(),
{
    if s.len() >= p.len() {
        if s.take(p.len() as int) == p {
            assert(occurs_at(s, p, 0));
        }
        let t = s.drop_first();
        assert(!occurs(t, p)) by {
            if occurs(t, p) {
                let i = choose|i: int| #[trigger] occurs_at(t, p, i);
                assert(s.subrange(i + 1, i + 1 + p.len()) =~= t.subrange(i, i + p.len()));
                assert(occurs_at(s, p, i + 1));
            }
        }
        lemma_absent_unchanged(t, p, r);
        assert(seq![s[0]] + t =~= s);
    }
}

/// A stretch without the glyph at the front of a replaced text is the
/// same stretch of the text before.
proof fn lemma_clean_prefix(y: Seq<char>, q: Seq<char>, r: Seq<char>, m: int)
    requires
        spelled(q),
        glyph(r),
        0 <= m <= replace_all(y, q, r).len(),
        forall|i: int| 0 <= i < m ==> spelling_char(#[trigger] replace_all(y, q, r)[i]),
    ensures
        m <= y.len(),
        y.take(m) == replace_all(y, q, r).take(m),
    decreases y.len(),
{
    let out = replace_all(y, q, r);
    if y.len() < q.len() {
    } else if y.take(q.len() as int) == q {
        if m > 0 {
            assert(out[0] == r[0]);
            assert(spelling_char(out[0]));
        }
    } else if m > 0 {
        let rest = replace_all(y.drop_first(), q, r);
        assert(out == seq![y[0]] + rest);
        assert forall|i: int| 0 <= i < m - 1 implies spelling_char(#[trigger] rest[i]) by {
            assert(rest[i] == out[i + 1]);
        }
        lemma_clean_prefix(y.drop_first(), q, r, m - 1);
        assert(y.take(m) =~= seq![y[0]] + y.drop_first().take(m - 1));
        assert(out.take(m) =~= seq![y[0]] + rest.take(m - 1));
    }
}

/// Replacing `q` creates no spelling that was not there.
proof fn lemma_no_new_spelling(x: Seq<char>, q: Seq<char>, r: Seq<char>, p: Seq<char>)
    requires
        spelled(q),
        glyph(r),
        spelled(p),
        occurs(replace_all(x, q, r), p),
    ensures
        occurs(x, p),
    decreases x.len(),
{
    let out = replace_all(x, q, r);
    let i = choose|i: int| #[trigger] occurs_at(out, p, i);
    if x.len() < q.len() {
    } else if x.take(q.len() as int) == q {
        let rest = replace_all(x.skip(q.len() as int), q, r);
        assert(out == r + rest);
        if i == 0 {
            assert(out[0] == p[0]);
        } else {
            assert(rest.subrange(i - 1, i - 1 + p.len()) =~= out.subrange(i, i + p.len()));
            assert(occurs_at(rest, p, i - 1));
            lemma_no_new_spelling(x.skip(q.len() as int), q, r, p);
            let j = choose|j: int| #[trigger] occurs_at(x.skip(q.len() as int), p, j);
            assert(x.subrange(j + q.len(), j + q.len() + p.len()) =~= x.skip(q.len() as int).subrange(j, j + p.len()));
            assert(occurs_at(x, p, j + q.len()));
        }
    } else {
        let t = x.drop_first();
        let rest = replace_all(t, q, r);
        assert(out == seq![x[0]] + rest);
        if i == 0 {
            assert forall|k: int| 0 <= k < p.len() - 1 implies spelling_char(#[trigger] rest[k]) by {
                assert(rest[k] == out[k + 1]);
                assert(out[k + 1] == p[k + 1]);
            }
            lemma_clean_prefix(t, q, r, p.len() - 1);
            assert(x.subrange(0, p.len() as int) =~= seq![x[0]] + t.take(p.len() - 1));
            assert(out.subrange(0, p.len() as int) =~= seq![x[0]] + rest.take(p.len() - 1));
            assert(occurs_at(x, p, 0));
        } else {
            assert(rest.subrange(i - 1, i - 1 + p.len()) =~= out.subrange(i, i + p.len()));
            assert(occurs_at(rest, p, i - 1));
            lemma_no_new_spelling(t, q, r, p);
            let j = choose|j: int| #[trigger] occurs_at(t, p, j);
            assert(x.subrange(j + 1, j + 1 + p.len()) =~= t.subrange(j, j + p.len()));
            assert(occurs_at(x, p, j + 1));
        }
    }
}

/// Replacing `p` leaves no `p`.
proof fn lemma_none_left(x: Seq<char>, p: Seq<char>, r: Seq<char>)
    requires
        spelled(p),
        glyph(r),
    ensures
        !occurs(replace_all(x, p, r), p),
    decreases x.len(),
{
    let out = replace_all(x, p, r);
    if occurs(out, p) {
        let i = choose|i: int| #[trigger] occurs_at(out, p, i);
        if x.len() < p.len() {
            assert(out == x);
        } else if x.take(p.len() as int) == p {
            let rest = replace_all(x.skip(p.len() as int), p, r);
            assert(out == r + rest);
            if i == 0 {
                assert(out[0] == p[0]);
            } else {
                assert(rest.subrange(i - 1, i - 1 + p.len()) =~= out.subrange(i, i + p.len()));
                assert(occurs_at(rest, p, i - 1));
                lemma_none_left(x.skip(p.len() as int), p, r);
            }
        } else {
            let t = x.drop_first();
            let rest = replace_all(t, p, r);
            assert(out == seq![x[0]] + rest);
            if i == 0 {
                assert forall|k: int| 0 <= k < p.len() - 1 implies spelling_char(#[trigger] rest[k]) by {
                    assert(rest[k] == out[k + 1]);
                    assert(out[k + 1] == p[k + 1]);
                }
                lemma_clean_prefix(t, p, r, p.len() - 1);
                assert(x.take(p.len() as int) =~= seq![x[0]] + t.take(p.len() - 1));
                assert(out.subrange(0, p.len() as int) =~= seq![x[0]] + rest.take(p.len() - 1));
            } else {
                assert(rest.subrange(i - 1, i - 1 + p.len()) =~= out.subrange(i, i + p.len()));
                assert(occurs_at(rest, p, i - 1));
                lemma_none_left(t, p, r);
            }
        }
    }
}

proof fn lemma_aliases_shape()
    ensures
        aliases().len() == 16,
        forall|k: int| 0 <= k < 16 ==> spelled(#[trigger] aliases()[k].0) && glyph(aliases()[k].1),
{
    reveal_strlit("<.>");
    reveal_strlit(">.");
    reveal_strlit("<.");
    reveal_strlit("<>");
    reveal_strlit("[]");
    reveal_strlit("->");
    reveal_strlit("=>");
    reveal_strlit(">>");
    reveal_strlit("<<");
    reveal_strlit("#");
    reveal_strlit("%");
    reveal_strlit("\\");
    reveal_strlit("'");
    reveal_strlit("^.");
    reveal_strlit("_.");
    reveal_strlit("@");
    reveal_strlit("◈");
    reveal_strlit("⌈");
    reveal_strlit("⌊");
    reveal_strlit("◇");
    reveal_strlit("□");
    reveal_strlit("→");
    reveal_strlit("⇒");
    reveal_strlit("▷");
    reveal_strlit("▽");
    reveal_strlit("⍳");
    reveal_strlit("⌽");
    reveal_strlit("⍴");
    reveal_strlit("⍉");
    reveal_strlit("↑");
    reveal_strlit("↓");
    reveal_strlit("&");
}

/// After the first `n` replacements, none of their spellings is left.
proof fn lemma_normalized_clean(s: Seq<char>, n: int)
    requires
        0 <= n <= 16,
    ensures
        forall|k: int| 0 <= k < n ==> !occurs(normalized(s, n), #[trigger] aliases()[k].0),
    decreases n,
{
    lemma_aliases_shape();
    if n > 0 {
        lemma_normalized_clean(s, n - 1);
        let (q, r) = aliases()[n - 1];
        let before = normalized(s, n - 1);
        lemma_none_left(before, q, r);
        assert forall|k: int| 0 <= k < n implies !occurs(normalized(s, n), #[trigger] aliases()[k].0) by {
            if k < n - 1 && occurs(normalized(s, n), aliases()[k].0) {
                lemma_no_new_spelling(before, q, r, aliases()[k].0);
            }
        }
    }
}

proof fn lemma_clean_unchanged(t: Seq<char>, n: int)
    requires
        0 <= n <= 16,
        forall|k: int| 0 <= k < 16 ==> !occurs(t, #[trigger] aliases()[k].0),
    ensures
        normalized(t, n) == t,
    decreases n,
{
    lemma_aliases_shape();
    if n > 0 {
        lemma_clean_unchanged(t, n - 1);
        let (q, r) = aliases()[n - 1];
        lemma_absent_unchanged(t, q, r);
    }
}

/// Replacing the ASCII spellings of the glyphs twice is replacing them once.
pub proof fn law_normalizing_twice_is_once(s: Seq<char>)
    ensures
        normalized(normalized(s, aliases().len() as int), aliases().len() as int) == normalized(
            s,
            aliases().len() as int,
        ),
{
    lemma_aliases_shape();
    lemma_normalized_clean(s, 16);
    lemma_clean_unchanged(normalized(s, 16), 16);
}


/// No ASCII spelling of a glyph survives: after one pass the source holds
/// none of `<.>` `>.` `<.` `<>` `[]` `->` `=>` `>>` `<<` `#` `%` `\` `'`
/// `^.` `_.` `@`.
pub proof fn law_no_spelling_survives(s: Seq<char>)
    ensures
        ({
            let r = normalized(s, aliases().len() as int);
            &&& !occurs(r, seq!['<', '.', '>'])
            &&& !occurs(r, seq!['>', '.'])
            &&& !occurs(r, seq!['<', '.'])
            &&& !occurs(r, seq!['<', '>'])
            &&& !occurs(r, seq!['[', ']'])
            &&& !occurs(r, seq!['-', '>'])
            &&& !occurs(r, seq!['=', '>'])
            &&& !occurs(r, seq!['>', '>'])
            &&& !occurs(r, seq!['<', '<'])
            &&& !occurs(r, seq!['#'])
            &&& !occurs(r, seq!['%'])
            &&& !occurs(r, seq!['\\'])
            &&& !occurs(r, seq!['\''])
            &&& !occurs(r, seq!['^', '.'])
            &&& !occurs(r, seq!['_', '.'])
            &&& !occurs(r, seq!['@'])
        }),
{
    lemma_aliases_shape();
    lemma_normalized_clean(s, 16);
    reveal_strlit("<.>");
    reveal_strlit(">.");
    reveal_strlit("<.");
    reveal_strlit("<>");
    reveal_strlit("[]");
    reveal_strlit("->");
    reveal_strlit("=>");
    reveal_strlit(">>");
    reveal_strlit("<<");
    reveal_strlit("#");
    reveal_strlit("%");
    reveal_strlit("\\");
    reveal_strlit("'");
    reveal_strlit("^.");
    reveal_strlit("_.");
    reveal_strlit("@");
    assert(aliases()[0].0 =~= seq!['<', '.', '>']);
    assert(aliases()[1].0 =~= seq!['>', '.']);
    assert(aliases()[2].0 =~= seq!['<', '.']);
    assert(aliases()[3].0 =~= seq!['<', '>']);
    assert(aliases()[4].0 =~= seq!['[', ']']);
    assert(aliases()[5].0 =~= seq!['-', '>']);
    assert(aliases()[6].0 =~= seq!['=', '>']);
    assert(aliases()[7].0 =~= seq!['>', '>']);
    assert(aliases()[8].0 =~= seq!['<', '<']);
    assert(aliases()[9].0 =~= seq!['#']);
    assert(aliases()[10].0 =~= seq!['%']);
    assert(aliases()[11].0 =~= seq!['\\']);
    assert(aliases()[12].0 =~= seq!['\'']);
    assert(aliases()[13].0 =~= seq!['^', '.']);
    assert(aliases()[14].0 =~= seq!['_', '.']);
    assert(aliases()[15].0 =~= seq!['@']);
}

/// The character after a fold or scan glyph names the fold of the binary
/// operator it spells: `+` a sum, `×` or `*` a product, `>` a maximum, `<` a
/// minimum. A character that spells an operator with no fold (`-`, `⌈`,
/// `/`, ...) names none, and one that spells no operator names none either.
pub proof fn law_fold_is_the_fold_of_its_operator(c: char)
    ensures
        forall|k: int|
            0 <= k < binary_ops().len() && (#[trigger] binary_ops()[k]).0 == seq![c] ==> fold_named(c) == fold_of(
                binary_ops()[k].1,
            ),
        fold_named(c) is Some ==> exists|k: int| 0 <= k < binary_ops().len() && (#[trigger] binary_ops()[k]).0 == seq![c],
{
    let ops = binary_ops();
    assert(ops.len() == 14);
    assert forall|k: int| 0 <= k < ops.len() && (#[trigger] ops[k]).0 == seq![c] implies fold_named(c) == fold_of(ops[k].1) by {
        assert(ops[k].0.len() == 1);
        assert(ops[k].0[0] == c);
    }
    if fold_named(c) is Some {
        if c == '+' {
            assert(ops[5].0 =~= seq![c]);
        } else if c == '×' {
            assert(ops[10].0 =~= seq![c]);
        } else if c == '*' {
            assert(ops[11].0 =~= seq![c]);
        } else if c == '>' {
            assert(ops[3].0 =~= seq![c]);
        } else {
            assert(ops[4].0 =~= seq![c]);
        }
    }
}

/// A fold written back after its glyph is read as the same fold.
pub proof fn law_fold_spelling_round_trips(op: FoldOp)
    ensures
        fold_named(fold_char(op)) == Some(op),
{
}

/// The operators the expression reader knows are those the printer writes:
/// each spelling it reads is how its operator is written (with `*` read as
/// `×` too), and every operator is read from how it is written.
pub proof fn law_operator_spellings_round_trip(op: BinaryOpKind)
    ensures
        forall|k: int|
            0 <= k < binary_ops().len() ==> (#[trigger] binary_ops()[k]).0 == binop_text(binary_ops()[k].1) || (
            binary_ops()[k].0 == seq!['*'] && binary_ops()[k].1 is Mul),
        exists|k: int| 0 <= k < binary_ops().len() && #[trigger] binary_ops()[k] == (binop_text(op), op),
{
    reveal_strlit("+");
    reveal_strlit("-");
    reveal_strlit("×");
    reveal_strlit("/");
    reveal_strlit("^");
    reveal_strlit(">");
    reveal_strlit("<");
    reveal_strlit(">=");
    reveal_strlit("<=");
    reveal_strlit("==");
    reveal_strlit("⌈");
    reveal_strlit("⌊");
    reveal_strlit("|");
    let ops = binary_ops();
    assert(ops.len() == 14);
    assert forall|k: int| 0 <= k < ops.len() implies (#[trigger] ops[k]).0 == binop_text(ops[k].1) || (ops[k].0
        == seq!['*'] && ops[k].1 is Mul) by {
        if k != 11 {
            assert(ops[k].0 =~= binop_text(ops[k].1));
        }
    }
    let k: int = match op {
        BinaryOpKind::Gte => 0,
        BinaryOpKind::Lte => 1,
        BinaryOpKind::Eq => 2,
        BinaryOpKind::Gt => 3,
        BinaryOpKind::Lt => 4,
        BinaryOpKind::Add => 5,
        BinaryOpKind::Sub => 6,
        BinaryOpKind::Max => 7,
        BinaryOpKind::Min => 8,
        BinaryOpKind::Residue => 9,
        BinaryOpKind::Mul => 10,
        BinaryOpKind::Div => 12,
        BinaryOpKind::Pow => 13,
    };
    assert(ops[k].0 =~= binop_text(op));
    assert(ops[k] == (binop_text(op), op));
}

} // verus!
