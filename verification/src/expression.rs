//! The expression grammar: what a line's expression text denotes.
//!
//! The grammar is a sequence of cases tried in order. An expression wrapped
//! whole in parentheses is its inside. Otherwise the loosest binary operator
//! outside parentheses splits it, taking the rightmost occurrence so that
//! operators of one level group from the left; then the prefix forms and
//! the glyphs with a literal on their left; then numbers and names.

use vstd::prelude::*;
use vstd::slice::slice_subrange;
use crate::ast::{
    args_view, builtin_name, builtin_named, expr_view, BinaryOpKind, BuiltinOp, Expr, ExprV, FoldOp, Function,
    ShiftDir,
};
use crate::error::{disruption_view, DisruptionV, HarmonyDisruption};
use crate::lexer::{split_words, words_of};
use crate::literal::{
    digit_run, digits_from, digits_value, float_literal, is_float_literal, lemma_digit_run, lemma_digits_prefix,
    small_whole, whole_literal,
};
use crate::text::{
    alphanumeric, ascii_digit, chars_of, is_alphanumeric, is_ascii_digit, is_tau, is_tau_name, is_white_space,
    lemma_trim_len, push_chars, push_decimal, push_str, seq_eq, string_from, trim, trim_end, trim_range, white_space,
};

verus! {

// ---------------------------------------------------------------- scanning

/// An operator that may instead be the sign of what follows it.
pub open spec fn sign_op(op: Seq<char>) -> bool {
    op == seq!['+'] || op == seq!['-'] || op == seq!['⌽'] || op == seq!['⍉']
}

/// A glyph that an axis number may follow.
pub open spec fn axis_glyph(c: char) -> bool {
    c == '▷' || c == '▽' || c == '□' || c == '⍳' || c == '⌽' || c == '↑' || c == '↓'
}

pub open spec fn fold_glyph(c: char) -> bool {
    c == '◇' || c == '◈'
}

/// A character that may name the operator of a fold.
pub open spec fn fold_operator(c: char) -> bool {
    c == '+' || c == '-' || c == '×' || c == '*' || c == '>' || c == '<'
}

/// A character after which a `+` or `-` is a sign.
pub open spec fn operator_char(c: char) -> bool {
    c == '+' || c == '-' || c == '×' || c == '*' || c == '/' || c == '^' || c == '⌈' || c == '⌊' || c == '|'
        || c == '>' || c == '<' || c == '=' || c == '(' || c == ':' || c == '→' || c == '◇' || c == '◈'
        || c == '▷' || c == '▽' || c == '□' || c == '⍳' || c == '⌽' || c == '⍴' || c == '⍉' || c == '↑'
        || c == '↓' || c == '!' || c == '$'
}

/// Trailing ASCII digits dropped.
pub open spec fn strip_digits_end(s: Seq<char>) -> Seq<char>
    decreases s.len(),
{
    if s.len() > 0 && ascii_digit(s.last()) {
        strip_digits_end(s.drop_last())
    } else {
        s
    }
}

/// Whether a `+` or `-` right after `before` is a sign rather than a binary
/// operator: nothing precedes it, or an operator does, or a glyph with its
/// axis number.
pub open spec fn sign_position(before: Seq<char>) -> bool {
    let t = trim_end(before);
    let st = strip_digits_end(t);
    ||| (st.len() < t.len() && st.len() > 0 && (axis_glyph(st.last()) || (fold_operator(st.last()) && st.len()
        > 1 && fold_glyph(st[st.len() - 2]))))
    ||| t.len() == 0
    ||| operator_char(t.last())
}

/// Scanning `s` leftwards from position `i` with `depth` closing
/// parentheses open, where `op` splits it: outside parentheses, not naming a
/// fold, not a sign, and with text on both sides.
pub open spec fn split_scan(s: Seq<char>, op: Seq<char>, i: int, depth: int) -> Option<int>
    decreases i,
{
    if i <= 0 || i > s.len() {
        None
    } else {
        let k = i - 1;
        let c = s[k];
        if c == ')' {
            split_scan(s, op, k, depth + 1)
        } else if c == '(' {
            split_scan(s, op, k, depth - 1)
        } else if depth == 0 && k + op.len() <= s.len() && s.subrange(k, k + op.len()) == op && !(k > 0
            && fold_glyph(s[k - 1])) && !(sign_op(op) && sign_position(s.take(k))) && trim(s.take(k)).len() > 0
            && trim(s.skip(k + op.len())).len() > 0 {
            Some(k)
        } else {
            split_scan(s, op, k, depth)
        }
    }
}

/// Where `op` splits `s`: its rightmost occurrence that can.
pub open spec fn op_position(s: Seq<char>, op: Seq<char>) -> Option<int> {
    split_scan(s, op, s.len() as int, 0)
}

/// The binary operators, loosest first.
pub open spec fn binary_ops() -> Seq<(Seq<char>, BinaryOpKind)> {
    seq![
        (seq!['>', '='], BinaryOpKind::Gte),
        (seq!['<', '='], BinaryOpKind::Lte),
        (seq!['=', '='], BinaryOpKind::Eq),
        (seq!['>'], BinaryOpKind::Gt),
        (seq!['<'], BinaryOpKind::Lt),
        (seq!['+'], BinaryOpKind::Add),
        (seq!['-'], BinaryOpKind::Sub),
        (seq!['⌈'], BinaryOpKind::Max),
        (seq!['⌊'], BinaryOpKind::Min),
        (seq!['|'], BinaryOpKind::Residue),
        (seq!['×'], BinaryOpKind::Mul),
        (seq!['*'], BinaryOpKind::Mul),
        (seq!['/'], BinaryOpKind::Div),
        (seq!['^'], BinaryOpKind::Pow),
    ]
}

/// The first operator from the `k`-th on that splits `t`, and where.
pub open spec fn binary_split(t: Seq<char>, k: int) -> Option<(int, int)>
    decreases binary_ops().len() - k,
{
    if k < 0 || k >= binary_ops().len() {
        None
    } else {
        match op_position(t, binary_ops()[k].0) {
            Some(pos) => Some((k, pos)),
            None => binary_split(t, k + 1),
        }
    }
}

/// Parentheses balance from position `i` on with `depth` open, and none
/// closes the outermost before the end.
pub open spec fn paren_scan(s: Seq<char>, i: int, depth: int) -> bool
    decreases s.len() - i,
{
    if i < 0 || i >= s.len() {
        depth == 0
    } else if s[i] == '(' {
        paren_scan(s, i + 1, depth + 1)
    } else if s[i] == ')' {
        if depth - 1 == 0 && i < s.len() - 1 {
            false
        } else {
            paren_scan(s, i + 1, depth - 1)
        }
    } else {
        paren_scan(s, i + 1, depth)
    }
}

/// Whether one pair of parentheses encloses all of `s`.
pub open spec fn enclosed(s: Seq<char>) -> bool {
    s.len() > 0 && s[0] == '(' && s.last() == ')' && paren_scan(s, 0, 0)
}

// ---------------------------------------------------------------- pieces

/// An axis written as digits, when it fits in a `usize`.
pub open spec fn axis_value(d: Seq<char>) -> Option<usize> {
    if d.len() == 0 || digits_value(d) > usize::MAX {
        None
    } else {
        Some(digits_value(d) as usize)
    }
}

/// The digits at position `i` of `t`.
pub open spec fn digits_at(t: Seq<char>, i: int) -> Seq<char> {
    t.skip(i).take(digit_run(t.skip(i)) as int)
}

/// What follows the digits at position `i` of `t`, trimmed.
pub open spec fn operand_at(t: Seq<char>, i: int) -> Seq<char> {
    trim(t.skip(i).skip(digit_run(t.skip(i)) as int))
}

/// A `usize` as `str::parse` reads one: an optional `+`, then digits.
pub open spec fn usize_text(w: Seq<char>) -> Option<usize> {
    let d = if w.len() > 0 && w[0] == '+' {
        w.drop_first()
    } else {
        w
    };
    if d.len() == 0 || digit_run(d) != d.len() || digits_value(d) > usize::MAX {
        None
    } else {
        Some(digits_value(d) as usize)
    }
}

/// The numbers that words write, each at least one when `positive`.
pub open spec fn number_words(ws: Seq<Seq<char>>, positive: bool) -> Option<Seq<usize>>
    decreases ws.len(),
{
    if ws.len() == 0 {
        Some(Seq::empty())
    } else {
        match usize_text(ws[0]) {
            Some(v) => if positive && v < 1 {
                None
            } else {
                match number_words(ws.drop_first(), positive) {
                    Some(r) => Some(seq![v] + r),
                    None => None,
                }
            },
            None => None,
        }
    }
}

/// A list of numbers written as words, when it is one and is not empty.
pub open spec fn number_list(w: Seq<char>, positive: bool) -> Option<Seq<usize>> {
    match number_words(words_of(w), positive) {
        Some(r) => if r.len() > 0 {
            Some(r)
        } else {
            None
        },
        None => None,
    }
}

/// The named functions of the language, in the order they are tried.
pub open spec fn builtin_list() -> Seq<BuiltinOp> {
    seq![
        BuiltinOp::Exp,
        BuiltinOp::Log,
        BuiltinOp::Sqrt,
        BuiltinOp::Sin,
        BuiltinOp::Cos,
        BuiltinOp::Abs,
        BuiltinOp::Indicator,
    ]
}

/// The first named function from the `k`-th on that `t` applies, and its
/// operand: the name, then white space or a bracket, then something.
pub open spec fn builtin_split(t: Seq<char>, k: int) -> Option<(BuiltinOp, Seq<char>)>
    decreases builtin_list().len() - k,
{
    if k < 0 || k >= builtin_list().len() {
        None
    } else {
        let op = builtin_list()[k];
        let n = builtin_name(op);
        let rest = t.skip(n.len() as int);
        if t.len() >= n.len() && t.take(n.len() as int) == n && rest.len() > 0 && (white_space(rest[0]) || rest[0]
            == '(') && trim(rest).len() > 0 {
            Some((op, rest))
        } else {
            builtin_split(t, k + 1)
        }
    }
}

/// A character that may stand in a name.
pub open spec fn word_char(c: char) -> bool {
    alphanumeric(c) || c == '_'
}

/// The length of the run of name characters at the front of `s`.
pub open spec fn word_len(s: Seq<char>) -> nat
    decreases s.len(),
{
    if s.len() > 0 && word_char(s[0]) {
        1 + word_len(s.drop_first())
    } else {
        0
    }
}

/// A name: not empty, not starting with a digit, made of name characters.
pub open spec fn identifier(w: Seq<char>) -> bool {
    w.len() > 0 && !ascii_digit(w[0]) && forall|j: int| 0 <= j < w.len() ==> word_char(#[trigger] w[j])
}

/// The word an expression starts with, and what follows it.
pub open spec fn word_split(t: Seq<char>) -> Option<(Seq<char>, Seq<char>)> {
    let n = word_len(t);
    if n <= t.len() && identifier(t.take(n as int)) {
        Some((t.take(n as int), t.skip(n as int)))
    } else {
        None
    }
}

/// Splitting a call's arguments from position `i`, with `depth` brackets
/// open, `cur` the argument being read and `out` those read before it.
pub open spec fn operands_from(
    text: Seq<char>,
    i: int,
    depth: int,
    cur: Seq<char>,
    out: Seq<Seq<char>>,
) -> Seq<Seq<char>>
    decreases text.len() - i,
{
    if i < 0 || i >= text.len() {
        if cur.len() > 0 {
            out.push(cur)
        } else {
            out
        }
    } else {
        let c = text[i];
        if c == '(' {
            operands_from(text, i + 1, depth + 1, cur.push(c), out)
        } else if c == ')' {
            operands_from(text, i + 1, depth - 1, cur.push(c), out)
        } else if white_space(c) && depth == 0 {
            if cur.len() > 0 {
                operands_from(text, i + 1, depth, Seq::empty(), out.push(cur))
            } else {
                operands_from(text, i + 1, depth, cur, out)
            }
        } else {
            operands_from(text, i + 1, depth, cur.push(c), out)
        }
    }
}

/// A call's arguments: names, numbers and bracketed expressions, split at
/// white space outside brackets.
pub open spec fn operands_of(text: Seq<char>) -> Seq<Seq<char>> {
    operands_from(text, 0, 0, Seq::empty(), Seq::empty())
}

/// The total length of some texts.
pub open spec fn total_len(ws: Seq<Seq<char>>) -> nat
    decreases ws.len(),
{
    if ws.len() == 0 {
        0
    } else {
        total_len(ws.drop_last()) + ws.last().len()
    }
}

/// How many parameters the function called `name` takes, if one is
/// defined: the first in `sigs` with that name.
pub open spec fn arity(sigs: Seq<(Seq<char>, nat)>, name: Seq<char>) -> Option<nat>
    decreases sigs.len(),
{
    if sigs.len() == 0 {
        None
    } else if sigs[0].0 == name {
        Some(sigs[0].1)
    } else {
        arity(sigs.drop_first(), name)
    }
}

/// The fold that an operator character names.
pub open spec fn fold_named(c: char) -> Option<FoldOp> {
    if c == '+' {
        Some(FoldOp::Sum)
    } else if c == '×' || c == '*' {
        Some(FoldOp::Product)
    } else if c == '>' {
        Some(FoldOp::Max)
    } else if c == '<' {
        Some(FoldOp::Min)
    } else {
        None
    }
}

/// A whole number written as a literal, as a rotation takes it.
pub open spec fn rotation_amount(x: ExprV) -> Option<i64> {
    match x {
        ExprV::Number(v) => match small_whole(v) {
            Some(n) => Some(n as i64),
            None => None,
        },
        _ => None,
    }
}

/// A whole number of cells written as a literal, other than zero.
pub open spec fn cell_count(x: ExprV) -> Option<i64> {
    match rotation_amount(x) {
        Some(n) => if n != 0 {
            Some(n)
        } else {
            None
        },
        None => None,
    }
}

// ---------------------------------------------------------------- messages

pub open spec fn lowering(detail: Seq<char>) -> DisruptionV {
    DisruptionV::LoweringErr { detail, line: 0 }
}

pub open spec fn rotate_detail(written: Seq<char>) -> Seq<char> {
    "`⌽` rotates by a whole number written as a literal, not by `"@ + written + "`"@
}

pub open spec fn arity_detail(word: Seq<char>, params: nat, given: nat) -> Seq<char> {
    "`"@ + word + "` takes "@ + crate::text::decimal(params) + " argument(s), not "@ + crate::text::decimal(given)
        + "; an argument that is a sum or a product needs parentheses"@
}

pub open spec fn undefined_detail(word: Seq<char>) -> Seq<char> {
    "`"@ + word + "` is not a function defined above this point (definitions come before their use)"@
}

pub open spec fn count_detail(glyph: char, written: Seq<char>) -> Seq<char> {
    "`"@ + seq![glyph] + "` takes a whole number of cells written as a literal, not `"@ + written + "`"@
}

pub open spec fn right_detail(glyph: char) -> Seq<char> {
    "`"@ + seq![glyph] + "` needs a space on its right"@
}

pub open spec fn reshape_detail(written: Seq<char>) -> Seq<char> {
    "`⍴` reshapes to a list of whole numbers written as literals, not to `"@ + written + "`"@
}

pub open spec fn permutation_detail(written: Seq<char>) -> Seq<char> {
    "`⍉` takes a permutation of the axes written as literals, not `"@ + written + "`"@
}

// ---------------------------------------------------------------- the grammar

/// What the expression text `s` denotes, with `sigs` the names and
/// parameter counts of the functions defined before it.
pub open spec fn parse_spec(s: Seq<char>, sigs: Seq<(Seq<char>, nat)>) -> Result<ExprV, DisruptionV>
    decreases s.len(), 2nat, 0nat,
{
    let t = trim(s);
    proof {
        lemma_trim_len(s);
    }
    if enclosed(t) {
        parse_spec(t.subrange(1, t.len() - 1), sigs)
    } else {
        parse_cases(t, sigs)
    }
}

/// The arguments of a call, each parsed, or the first that fails.
pub open spec fn parse_list(ops: Seq<Seq<char>>, sigs: Seq<(Seq<char>, nat)>) -> Result<Seq<ExprV>, DisruptionV>
    decreases total_len(ops), 3nat, ops.len(),
{
    if ops.len() == 0 {
        Ok(Seq::empty())
    } else {
        match parse_list(ops.drop_last(), sigs) {
            Err(e) => Err(e),
            Ok(xs) => match parse_spec(ops.last(), sigs) {
                Err(e) => Err(e),
                Ok(x) => Ok(xs.push(x)),
            },
        }
    }
}

/// The cases of a trimmed expression that is not wrapped in parentheses:
/// binary operators, rotation, named functions and calls.
pub open spec fn parse_cases(t: Seq<char>, sigs: Seq<(Seq<char>, nat)>) -> Result<ExprV, DisruptionV>
    decreases t.len(), 1nat, 0nat,
{
    match binary_split(t, 0) {
        Some((k, pos)) => {
            let op = binary_ops()[k];
            proof {
                lemma_binary_split(t, 0);
            }
            match parse_spec(t.take(pos), sigs) {
                Err(e) => Err(e),
                Ok(l) => match parse_spec(t.skip(pos + op.0.len()), sigs) {
                    Err(e) => Err(e),
                    Ok(r) => Ok(ExprV::BinaryOp { op: op.1, lhs: Box::new(l), rhs: Box::new(r) }),
                },
            }
        },
        None => match op_position(t, seq!['⌽']) {
            Some(pos) => {
                proof {
                    lemma_split_scan(t, seq!['⌽'], t.len() as int, 0);
                }
                let written = trim(t.take(pos));
                match parse_spec(t.take(pos), sigs) {
                    Err(e) => Err(e),
                    Ok(amount) => match rotation_amount(amount) {
                        None => Err(lowering(rotate_detail(written))),
                        Some(by) => {
                            let operand = operand_at(t, pos + 1);
                            proof {
                                lemma_operand_at(t, pos + 1);
                            }
                            if operand.len() == 0 {
                                Err(lowering("`⌽` needs a space to rotate"@))
                            } else {
                                match parse_spec(operand, sigs) {
                                    Err(e) => Err(e),
                                    Ok(x) => Ok(
                                        ExprV::Rotate {
                                            by,
                                            axis: axis_value(digits_at(t, pos + 1)),
                                            operand: Box::new(x),
                                        },
                                    ),
                                }
                            }
                        },
                    },
                }
            },
            None => match builtin_split(t, 0) {
                Some((op, rest)) => {
                    proof {
                        lemma_builtin_split(t, 0);
                    }
                    match parse_spec(rest, sigs) {
                        Err(e) => Err(e),
                        Ok(x) => Ok(ExprV::Builtin { op, operand: Box::new(x) }),
                    }
                },
                None => match word_split(t) {
                    Some((word, rest)) => match arity(sigs, word) {
                        Some(n) => {
                            let ops = operands_of(rest);
                            if ops.len() != n {
                                Err(lowering(arity_detail(word, n, ops.len())))
                            } else {
                                proof {
                                    lemma_operands_of(rest);
                                }
                                match parse_list(ops, sigs) {
                                    Err(e) => Err(e),
                                    Ok(args) => Ok(ExprV::Call { name: word, args }),
                                }
                            }
                        },
                        None => if trim(rest).len() > 0 && builtin_named(word) is None && !is_tau_name(word)
                            && rest.len() > 0 && (white_space(rest[0]) || rest[0] == '(') {
                            Err(lowering(undefined_detail(word)))
                        } else {
                            glyph_cases(t, sigs)
                        },
                    },
                    None => glyph_cases(t, sigs),
                },
            },
        },
    }
}

/// The glyph forms, then numbers and names.
pub open spec fn glyph_cases(t: Seq<char>, sigs: Seq<(Seq<char>, nat)>) -> Result<ExprV, DisruptionV>
    decreases t.len(), 0nat, 1nat,
{
    proof {
        lemma_operand_at(t, 1);
        lemma_operand_at(t, 2);
        lemma_trim_len(t.skip(1));
    }
    if t.len() > 1 && t[0] == '□' && digits_at(t, 1).len() > 0 && operand_at(t, 1).len() > 0 {
        match parse_spec(operand_at(t, 1), sigs) {
            Err(e) => Err(e),
            Ok(x) => Ok(
                ExprV::Lift {
                    axis: match axis_value(digits_at(t, 1)) {
                        Some(v) => v,
                        None => 0,
                    },
                    operand: Box::new(x),
                },
            ),
        }
    } else if t.len() > 2 && fold_glyph(t[0]) && (fold_named(t[1]) is None || operand_at(t, 2).len() > 0) {
        match fold_named(t[1]) {
            None => Err(DisruptionV::GlyphErr { symbol: seq!['◇', t[1]], line: 0, column: 0 }),
            Some(fop) => match parse_spec(operand_at(t, 2), sigs) {
                Err(e) => Err(e),
                Ok(x) => {
                    let axis = axis_value(digits_at(t, 2));
                    Ok(
                        if t[0] == '◈' {
                            ExprV::Scan { op: fop, axis, operand: Box::new(x) }
                        } else {
                            ExprV::Reduce { op: fop, axis, operand: Box::new(x) }
                        },
                    )
                },
            },
        }
    } else if t.len() > 1 && (t[0] == '▷' || t[0] == '▽') && operand_at(t, 1).len() > 0 {
        match parse_spec(operand_at(t, 1), sigs) {
            Err(e) => Err(e),
            Ok(x) => Ok(
                ExprV::Shift {
                    dir: if t[0] == '▷' {
                        ShiftDir::Positive
                    } else {
                        ShiftDir::Negative
                    },
                    axis: axis_value(digits_at(t, 1)),
                    operand: Box::new(x),
                },
            ),
        }
    } else if op_position(t, seq!['↑']) is Some || op_position(t, seq!['↓']) is Some {
        let dropping = op_position(t, seq!['↑']) is None;
        let glyph = if dropping {
            '↓'
        } else {
            '↑'
        };
        let pos = op_position(t, seq![glyph])->0;
        proof {
            lemma_split_scan(t, seq![glyph], t.len() as int, 0);
            lemma_operand_at(t, pos + 1);
        }
        let written = trim(t.take(pos));
        match parse_spec(t.take(pos), sigs) {
            Err(e) => Err(e),
            Ok(c) => match cell_count(c) {
                None => Err(lowering(count_detail(glyph, written))),
                Some(count) => {
                    let operand = operand_at(t, pos + 1);
                    if operand.len() == 0 {
                        Err(lowering(right_detail(glyph)))
                    } else {
                        match parse_spec(operand, sigs) {
                            Err(e) => Err(e),
                            Ok(x) => {
                                let axis = axis_value(digits_at(t, pos + 1));
                                Ok(
                                    if dropping {
                                        ExprV::Drop { count, axis, operand: Box::new(x) }
                                    } else {
                                        ExprV::Take { count, axis, operand: Box::new(x) }
                                    },
                                )
                            },
                        }
                    }
                },
            },
        }
    } else if t.len() > 0 && (t[0] == '↑' || t[0] == '↓') {
        Err(lowering("`↑` and `↓` take a count on their left: `2 ↑ X`, `-1 ↓ X`"@))
    } else if op_position(t, seq!['⍴']) is Some {
        let pos = op_position(t, seq!['⍴'])->0;
        let written = trim(t.take(pos));
        let operand = trim(t.skip(pos + 1));
        proof {
            lemma_split_scan(t, seq!['⍴'], t.len() as int, 0);
            lemma_trim_len(t.skip(pos + 1));
        }
        match number_list(written, true) {
            None => Err(lowering(reshape_detail(written))),
            Some(shape) => if operand.len() == 0 {
                Err(lowering("`⍴` needs a space to reshape"@))
            } else {
                match parse_spec(operand, sigs) {
                    Err(e) => Err(e),
                    Ok(x) => Ok(ExprV::Reshape { shape, operand: Box::new(x) }),
                }
            },
        }
    } else if op_position(t, seq!['⍉']) is Some {
        let pos = op_position(t, seq!['⍉'])->0;
        let written = trim(t.take(pos));
        let operand = trim(t.skip(pos + 1));
        proof {
            lemma_split_scan(t, seq!['⍉'], t.len() as int, 0);
            lemma_trim_len(t.skip(pos + 1));
        }
        match number_list(written, false) {
            None => Err(lowering(permutation_detail(written))),
            Some(axes) => if operand.len() == 0 {
                Err(lowering("`⍉` needs a space to transpose"@))
            } else {
                match parse_spec(operand, sigs) {
                    Err(e) => Err(e),
                    Ok(x) => Ok(ExprV::Transpose { axes: Some(axes), operand: Box::new(x) }),
                }
            },
        }
    } else if t.len() > 1 && t[0] == '⍉' && trim(t.skip(1)).len() > 0 {
        match parse_spec(trim(t.skip(1)), sigs) {
            Err(e) => Err(e),
            Ok(x) => Ok(ExprV::Transpose { axes: None, operand: Box::new(x) }),
        }
    } else if t.len() > 1 && t[0] == '⌽' && operand_at(t, 1).len() > 0 {
        match parse_spec(operand_at(t, 1), sigs) {
            Err(e) => Err(e),
            Ok(x) => Ok(ExprV::Reverse { axis: axis_value(digits_at(t, 1)), operand: Box::new(x) }),
        }
    } else if t.len() > 1 && t[0] == '⍳' && operand_at(t, 1).len() > 0 {
        match parse_spec(operand_at(t, 1), sigs) {
            Err(e) => Err(e),
            Ok(x) => Ok(ExprV::Index { axis: axis_value(digits_at(t, 1)), operand: Box::new(x) }),
        }
    } else if t.len() > 0 && t[0] == '$' {
        match parse_spec(t.skip(1), sigs) {
            Err(e) => Err(e),
            Ok(x) => Ok(ExprV::AuditTrace(Box::new(x))),
        }
    } else if float_literal(t) {
        Ok(ExprV::Number(t))
    } else if t.len() > 0 {
        Ok(ExprV::Var(t))
    } else {
        Err(DisruptionV::GlyphErr { symbol: t, line: 1, column: 1 })
    }
}

// ---------------------------------------------------------------- lengths

pub proof fn lemma_split_scan(s: Seq<char>, op: Seq<char>, i: int, depth: int)
    ensures
        split_scan(s, op, i, depth) matches Some(k) ==> 0 <= k && k < i && k + op.len() <= s.len(),
    decreases i,
{
    if i > 0 && i <= s.len() {
        let k = i - 1;
        let c = s[k];
        if c == ')' {
            lemma_split_scan(s, op, k, depth + 1);
        } else if c == '(' {
            lemma_split_scan(s, op, k, depth - 1);
        } else {
            lemma_split_scan(s, op, k, depth);
        }
    }
}

pub proof fn lemma_binary_split(t: Seq<char>, k: int)
    ensures
        binary_split(t, k) matches Some((j, pos)) ==> 0 <= j < binary_ops().len() && 0 <= pos && pos + binary_ops()[j].0.len()
            <= t.len() && binary_ops()[j].0.len() >= 1,
    decreases binary_ops().len() - k,
{
    if 0 <= k < binary_ops().len() {
        lemma_split_scan(t, binary_ops()[k].0, t.len() as int, 0);
        lemma_binary_split(t, k + 1);
    }
}

pub proof fn lemma_operand_at(t: Seq<char>, i: int)
    ensures
        0 < i <= t.len() ==> operand_at(t, i).len() < t.len(),
{
    if 0 < i <= t.len() {
        let r = t.skip(i);
        lemma_trim_len(r.skip(digit_run(r) as int));
        crate::literal::lemma_digit_run(r);
    }
}

pub proof fn lemma_builtin_split(t: Seq<char>, k: int)
    ensures
        builtin_split(t, k) matches Some((op, rest)) ==> rest.len() < t.len(),
    decreases builtin_list().len() - k,
{
    if 0 <= k < builtin_list().len() {
        let n = builtin_name(builtin_list()[k]);
        assert(n.len() > 0);
        lemma_builtin_split(t, k + 1);
    }
}

proof fn lemma_operands_from(text: Seq<char>, i: int, depth: int, cur: Seq<char>, out: Seq<Seq<char>>)
    requires
        0 <= i,
        total_len(out) + cur.len() <= i || i > text.len(),
    ensures
        i <= text.len() ==> total_len(operands_from(text, i, depth, cur, out)) <= text.len(),
    decreases text.len() - i,
{
    if i < text.len() {
        let c = text[i];
        if c == '(' {
            lemma_operands_from(text, i + 1, depth + 1, cur.push(c), out);
        } else if c == ')' {
            lemma_operands_from(text, i + 1, depth - 1, cur.push(c), out);
        } else if white_space(c) && depth == 0 {
            if cur.len() > 0 {
                assert(out.push(cur).drop_last() =~= out);
                lemma_operands_from(text, i + 1, depth, Seq::empty(), out.push(cur));
            } else {
                lemma_operands_from(text, i + 1, depth, cur, out);
            }
        } else {
            lemma_operands_from(text, i + 1, depth, cur.push(c), out);
        }
    } else if i == text.len() {
        if cur.len() > 0 {
            assert(out.push(cur).drop_last() =~= out);
        }
    }
}

pub proof fn lemma_operands_of(text: Seq<char>)
    ensures
        total_len(operands_of(text)) <= text.len(),
{
    lemma_operands_from(text, 0, 0, Seq::empty(), Seq::empty());
}


// ---------------------------------------------------------------- scanning, executed

fn is_axis_glyph(c: char) -> (r: bool)
    ensures
        r == axis_glyph(c),
{
    c == '▷' || c == '▽' || c == '□' || c == '⍳' || c == '⌽' || c == '↑' || c == '↓'
}

fn is_fold_glyph(c: char) -> (r: bool)
    ensures
        r == fold_glyph(c),
{
    c == '◇' || c == '◈'
}

fn is_fold_operator(c: char) -> (r: bool)
    ensures
        r == fold_operator(c),
{
    c == '+' || c == '-' || c == '×' || c == '*' || c == '>' || c == '<'
}

fn is_operator_char(c: char) -> (r: bool)
    ensures
        r == operator_char(c),
{
    c == '+' || c == '-' || c == '×' || c == '*' || c == '/' || c == '^' || c == '⌈' || c == '⌊' || c == '|'
        || c == '>' || c == '<' || c == '=' || c == '(' || c == ':' || c == '→' || c == '◇' || c == '◈'
        || c == '▷' || c == '▽' || c == '□' || c == '⍳' || c == '⌽' || c == '⍴' || c == '⍉' || c == '↑'
        || c == '↓' || c == '!' || c == '$'
}

/// Whether a `+` or `-` right after `before` is a sign rather than a binary
/// operator.
pub fn is_sign_position(before: &[char]) -> (r: bool)
    ensures
        r == sign_position(before@),
{
    let mut e = before.len();
    assert(before@.take(e as int) =~= before@);
    while e > 0 && is_white_space(before[e - 1])
        invariant
            e <= before.len(),
            trim_end(before@) == trim_end(before@.take(e as int)),
        decreases e,
    {
        assert(before@.take(e as int).drop_last() =~= before@.take(e - 1));
        e = e - 1;
    }
    let ghost t = before@.take(e as int);
    assert(trim_end(t) == t);
    let mut d = e;
    assert(t.take(d as int) =~= t);
    while d > 0 && is_ascii_digit(before[d - 1])
        invariant
            d <= e <= before.len(),
            t == before@.take(e as int),
            strip_digits_end(t) == strip_digits_end(t.take(d as int)),
        decreases d,
    {
        assert(t.take(d as int).drop_last() =~= t.take(d - 1));
        d = d - 1;
    }
    let ghost st = t.take(d as int);
    assert(strip_digits_end(st) == st);
    let glyph_case = d < e && d > 0 && (is_axis_glyph(before[d - 1]) || (is_fold_operator(before[d - 1]) && d > 1
        && is_fold_glyph(before[d - 2])));
    glyph_case || e == 0 || is_operator_char(before[e - 1])
}

/// Whether the text of `s` between `a` and `b` is more than white space.
fn has_text(s: &[char], a: usize, b: usize) -> (r: bool)
    requires
        a <= b <= s.len(),
    ensures
        r == (trim(s@.subrange(a as int, b as int)).len() > 0),
{
    let (x, y) = trim_range(s, a, b);
    x < y
}

fn is_sign_op(op: &[char]) -> (r: bool)
    ensures
        r == sign_op(op@),
{
    let r = op.len() == 1 && (op[0] == '+' || op[0] == '-' || op[0] == '⌽' || op[0] == '⍉');
    proof {
        if op.len() == 1 {
            assert(op@ == seq!['+'] ==> op@[0] == '+');
            if op[0] == '+' {
                assert(op@ =~= seq!['+']);
            }
            if op[0] == '-' {
                assert(op@ =~= seq!['-']);
            }
            if op[0] == '⌽' {
                assert(op@ =~= seq!['⌽']);
            }
            if op[0] == '⍉' {
                assert(op@ =~= seq!['⍉']);
            }
        }
    }
    r
}

fn occurs_at(s: &[char], k: usize, op: &[char]) -> (r: bool)
    requires
        k <= s.len(),
    ensures
        r == (k + op.len() <= s.len() && s@.subrange(k as int, k + op.len()) == op@),
{
    if op.len() > s.len() - k {
        return false;
    }
    let mut j: usize = 0;
    while j < op.len()
        invariant
            j <= op.len(),
            k + op.len() <= s.len(),
            forall|q: int| 0 <= q < j ==> s@[k + q] == op@[q],
        decreases op.len() - j,
    {
        if s[k + j] != op[j] {
            assert(s@.subrange(k as int, k + op.len())[j as int] != op@[j as int]);
            return false;
        }
        j = j + 1;
    }
    assert(s@.subrange(k as int, k + op.len()) =~= op@);
    true
}

/// Where `op` splits `s`: the rightmost occurrence outside parentheses
/// that does not name a fold, is not a sign, and has text on both sides.
pub fn find_binary_op_position(s: &[char], op: &[char]) -> (r: Option<usize>)
    ensures
        match r {
            Some(k) => op_position(s@, op@) == Some(k as int),
            None => op_position(s@, op@) is None,
        },
{
    let mut i = s.len();
    let mut depth: i128 = 0;
    let signed = is_sign_op(op);
    while i > 0
        invariant
            i <= s.len(),
            -(s.len() - i) <= depth <= s.len() - i,
            signed == sign_op(op@),
            op_position(s@, op@) == split_scan(s@, op@, i as int, depth as int),
        decreases i,
    {
        let k = i - 1;
        let c = s[k];
        if c == ')' {
            depth = depth + 1;
        } else if c == '(' {
            depth = depth - 1;
        } else if depth == 0 && occurs_at(s, k, op) {
            let after_fold = k > 0 && is_fold_glyph(s[k - 1]);
            let as_sign = signed && is_sign_position(slice_subrange(s, 0, k));
            if !after_fold && !as_sign {
                let left = has_text(s, 0, k);
                let right = has_text(s, k + op.len(), s.len());
                proof {
                    assert(s@.subrange(0, k as int) =~= s@.take(k as int));
                    assert(s@.subrange(k + op.len(), s.len() as int) =~= s@.skip(k + op.len()));
                }
                if left && right {
                    return Some(k);
                }
            } else {
                proof {
                    assert(s@.subrange(0, k as int) =~= s@.take(k as int));
                }
            }
        }
        i = k;
    }
    None
}

/// `find_binary_op_position` for a single glyph.
fn find_glyph(s: &[char], g: char) -> (r: Option<usize>)
    ensures
        match r {
            Some(k) => op_position(s@, seq![g]) == Some(k as int),
            None => op_position(s@, seq![g]) is None,
        },
{
    let mut op: Vec<char> = Vec::new();
    op.push(g);
    assert(op@ =~= seq![g]);
    find_binary_op_position(s, op.as_slice())
}

/// The `k`-th binary operator, loosest first.
fn binary_op_at(k: usize) -> (r: (Vec<char>, BinaryOpKind))
    requires
        k < 14,
    ensures
        (r.0@, r.1) == binary_ops()[k as int],
{
    let r = match k {
        0 => (vec!['>', '='], BinaryOpKind::Gte),
        1 => (vec!['<', '='], BinaryOpKind::Lte),
        2 => (vec!['=', '='], BinaryOpKind::Eq),
        3 => (vec!['>'], BinaryOpKind::Gt),
        4 => (vec!['<'], BinaryOpKind::Lt),
        5 => (vec!['+'], BinaryOpKind::Add),
        6 => (vec!['-'], BinaryOpKind::Sub),
        7 => (vec!['⌈'], BinaryOpKind::Max),
        8 => (vec!['⌊'], BinaryOpKind::Min),
        9 => (vec!['|'], BinaryOpKind::Residue),
        10 => (vec!['×'], BinaryOpKind::Mul),
        11 => (vec!['*'], BinaryOpKind::Mul),
        12 => (vec!['/'], BinaryOpKind::Div),
        _ => (vec!['^'], BinaryOpKind::Pow),
    };
    assert(r.0@ =~= binary_ops()[k as int].0);
    r
}

/// The loosest binary operator that splits `t`, its index in the table,
/// and where it splits.
fn first_binary_split(t: &[char]) -> (r: Option<(usize, usize)>)
    ensures
        match r {
            Some((k, pos)) => binary_split(t@, 0) == Some((k as int, pos as int)),
            None => binary_split(t@, 0) is None,
        },
{
    let mut k: usize = 0;
    while k < 14
        invariant
            k <= 14,
            binary_ops().len() == 14,
            binary_split(t@, 0) == binary_split(t@, k as int),
        decreases 14 - k,
    {
        let (op, _kind) = binary_op_at(k);
        match find_binary_op_position(t, op.as_slice()) {
            Some(pos) => {
                return Some((k, pos));
            },
            None => {},
        }
        k = k + 1;
    }
    None
}

/// Whether one pair of parentheses encloses all of `s`.
pub fn is_enclosed_by_outer_parens(s: &[char]) -> (r: bool)
    ensures
        r == enclosed(s@),
{
    if s.len() == 0 || s[0] != '(' || s[s.len() - 1] != ')' {
        return false;
    }
    let mut depth: i128 = 0;
    let mut i: usize = 0;
    while i < s.len()
        invariant
            i <= s.len(),
            -(i as int) <= depth <= i,
            s.len() > 0 && s@[0] == '(' && s@.last() == ')',
            paren_scan(s@, 0, 0) == paren_scan(s@, i as int, depth as int),
        decreases s.len() - i,
    {
        if s[i] == '(' {
            depth = depth + 1;
        } else if s[i] == ')' {
            depth = depth - 1;
            if depth == 0 && i < s.len() - 1 {
                return false;
            }
        }
        i = i + 1;
    }
    depth == 0
}

// ---------------------------------------------------------------- pieces, executed

/// The digits at position `i` of `t` end at `r.0`; what follows them,
/// trimmed, lies from `r.1` to `r.2`.
fn digits_then_operand(t: &[char], i: usize) -> (r: (usize, usize, usize))
    requires
        i <= t.len(),
    ensures
        i <= r.0 <= r.1 <= r.2 <= t.len(),
        t@.subrange(i as int, r.0 as int) == digits_at(t@, i as int),
        t@.subrange(r.1 as int, r.2 as int) == operand_at(t@, i as int),
        forall|j: int| i <= j < r.0 ==> ascii_digit(#[trigger] t@[j]),
{
    let n = digits_from(t, i);
    proof {
        lemma_digit_run(t@.skip(i as int));
        assert(t@.subrange(i as int, i + n) =~= t@.skip(i as int).take(n as int));
        assert(t@.subrange(i + n, t.len() as int) =~= t@.skip(i as int).skip(n as int));
        assert forall|j: int| i <= j < i + n implies ascii_digit(#[trigger] t@[j]) by {
            assert(t@[j] == t@.skip(i as int)[j - i]);
        }
    }
    let (a, b) = trim_range(t, i + n, t.len());
    (i + n, a, b)
}

/// The number that the digits of `d` write, when it fits in a `usize`.
fn digits_usize(d: &[char]) -> (r: Option<usize>)
    requires
        forall|j: int| 0 <= j < d.len() ==> ascii_digit(#[trigger] d@[j]),
    ensures
        match r {
            Some(v) => v == digits_value(d@),
            None => digits_value(d@) > usize::MAX,
        },
{
    let mut v: usize = 0;
    let mut i: usize = 0;
    assert(d@.take(0) =~= Seq::<char>::empty());
    while i < d.len()
        invariant
            i <= d.len(),
            forall|j: int| 0 <= j < d.len() ==> ascii_digit(#[trigger] d@[j]),
            v == digits_value(d@.take(i as int)),
        decreases d.len() - i,
    {
        let c = d[i];
        assert(d@.take(i + 1).drop_last() =~= d@.take(i as int));
        assert(d@.take(i + 1).last() == c);
        let dv = (c as u32 - 48) as usize;
        i = i + 1;
        let next = match v.checked_mul(10) {
            Some(x) => x.checked_add(dv),
            None => None,
        };
        match next {
            Some(x) => {
                v = x;
            },
            None => {
                proof {
                    lemma_digits_prefix(d@, i as int, d.len() as int);
                    assert(d@.take(d.len() as int) =~= d@);
                }
                return None;
            },
        }
    }
    assert(d@.take(d.len() as int) =~= d@);
    Some(v)
}

/// An axis written as digits, when it fits in a `usize`.
fn axis_of(d: &[char]) -> (r: Option<usize>)
    requires
        forall|j: int| 0 <= j < d.len() ==> ascii_digit(#[trigger] d@[j]),
    ensures
        r == axis_value(d@),
{
    if d.len() == 0 {
        return None;
    }
    digits_usize(d)
}

/// A `usize` as `str::parse` reads one.
pub(crate) fn usize_word(w: &[char]) -> (r: Option<usize>)
    ensures
        r == usize_text(w@),
{
    let start: usize = if w.len() > 0 && w[0] == '+' { 1 } else { 0 };
    let d = slice_subrange(w, start, w.len());
    proof {
        if start == 1 {
            assert(d@ =~= w@.drop_first());
        } else {
            assert(d@ =~= w@);
        }
    }
    let n = digits_from(d, 0);
    proof {
        assert(d@.skip(0) =~= d@);
        lemma_digit_run(d@);
    }
    if d.len() == 0 || n != d.len() {
        return None;
    }
    digits_usize(d)
}

/// The numbers that the words of `w` write, each at least one when
/// `positive`, when all of them do and there is at least one.
fn number_list_of(w: &[char], positive: bool) -> (r: Option<Vec<usize>>)
    ensures
        match r {
            Some(v) => number_list(w@, positive) == Some(v@),
            None => number_list(w@, positive) is None,
        },
{
    let words = split_words(w);
    let ghost ws = words@.map_values(|x: Vec<char>| x@);
    let mut out: Vec<usize> = Vec::new();
    let mut i: usize = 0;
    assert(ws.skip(0) =~= ws);
    while i < words.len()
        invariant
            i <= words.len(),
            ws == words@.map_values(|x: Vec<char>| x@),
            ws == words_of(w@),
            number_words(ws, positive) == (match number_words(ws.skip(i as int), positive) {
                Some(rest) => Some(out@ + rest),
                None => None,
            }),
        decreases words.len() - i,
    {
        assert(ws.skip(i as int).drop_first() =~= ws.skip(i + 1));
        assert(ws.skip(i as int)[0] == words@[i as int]@);
        match usize_word(words[i].as_slice()) {
            Some(v) => {
                if positive && v < 1 {
                    return None;
                }
                let ghost before = out@;
                out.push(v);
                proof {
                    match number_words(ws.skip(i + 1), positive) {
                        Some(rest) => {
                            assert(before + (seq![v] + rest) =~= out@ + rest);
                        },
                        None => {},
                    }
                }
            },
            None => {
                return None;
            },
        }
        i = i + 1;
    }
    assert(ws.skip(i as int) =~= Seq::<Seq<char>>::empty());
    assert(out@ + Seq::<usize>::empty() =~= out@);
    if out.len() == 0 {
        return None;
    }
    Some(out)
}

/// The named function that `t` applies, and where its operand starts.
fn builtin_prefix(t: &[char]) -> (r: Option<(BuiltinOp, usize)>)
    ensures
        match r {
            Some((op, n)) => n <= t.len() && builtin_split(t@, 0) == Some((op, t@.skip(n as int))),
            None => builtin_split(t@, 0) is None,
        },
{
    let ops = [
        BuiltinOp::Exp,
        BuiltinOp::Log,
        BuiltinOp::Sqrt,
        BuiltinOp::Sin,
        BuiltinOp::Cos,
        BuiltinOp::Abs,
        BuiltinOp::Indicator,
    ];
    assert(ops@ =~= builtin_list());
    let mut k: usize = 0;
    while k < 7
        invariant
            k <= 7,
            ops@ == builtin_list(),
            builtin_split(t@, 0) == builtin_split(t@, k as int),
        decreases 7 - k,
    {
        let op = ops[k];
        let name = chars_of(op.name());
        let n = name.len();
        if n <= t.len() && occurs_at(t, 0, name.as_slice()) && n < t.len() && (is_white_space(t[n]) || t[n] == '(')
            && has_text(t, n, t.len()) {
            proof {
                assert(t@.subrange(0, n as int) =~= t@.take(n as int));
                assert(t@.subrange(n as int, t.len() as int) =~= t@.skip(n as int));
            }
            return Some((op, n));
        }
        proof {
            assert(t@.subrange(0, n as int) =~= t@.take(n as int));
            assert(t@.subrange(n as int, t.len() as int) =~= t@.skip(n as int));
        }
        k = k + 1;
    }
    None
}

/// Whether a token is a name: not empty, not starting with a digit, and
/// made of letters, digits and underscores.
pub fn is_identifier(token: &[char]) -> (r: bool)
    ensures
        r == identifier(token@),
{
    if token.len() == 0 || is_ascii_digit(token[0]) {
        return false;
    }
    let mut i: usize = 0;
    while i < token.len()
        invariant
            i <= token.len(),
            forall|j: int| 0 <= j < i ==> word_char(#[trigger] token@[j]),
        decreases token.len() - i,
    {
        if !(is_alphanumeric(token[i]) || token[i] == '_') {
            return false;
        }
        i = i + 1;
    }
    true
}

/// The word an expression starts with, and what follows it.
pub fn leading_word(text: &[char]) -> (r: Option<(&[char], &[char])>)
    ensures
        match r {
            Some((w, rest)) => word_split(text@) == Some((w@, rest@)),
            None => word_split(text@) is None,
        },
{
    let mut n: usize = 0;
    assert(text@.skip(0) =~= text@);
    while n < text.len() && (is_alphanumeric(text[n]) || text[n] == '_')
        invariant
            n <= text.len(),
            word_len(text@) == n + word_len(text@.skip(n as int)),
            forall|j: int| 0 <= j < n ==> word_char(#[trigger] text@[j]),
        decreases text.len() - n,
    {
        assert(text@.skip(n as int).drop_first() =~= text@.skip(n + 1));
        n = n + 1;
    }
    let word = slice_subrange(text, 0, n);
    let rest = slice_subrange(text, n, text.len());
    proof {
        assert(word@ =~= text@.take(n as int));
        assert(rest@ =~= text@.skip(n as int));
    }
    if is_identifier(word) {
        Some((word, rest))
    } else {
        None
    }
}

/// A call's arguments: names, numbers and bracketed expressions, split at
/// white space outside brackets.
pub fn split_operands(text: &[char]) -> (r: Vec<Vec<char>>)
    ensures
        r@.map_values(|v: Vec<char>| v@) == operands_of(text@),
{
    let mut out: Vec<Vec<char>> = Vec::new();
    let mut cur: Vec<char> = Vec::new();
    let mut depth: i128 = 0;
    let mut i: usize = 0;
    assert(out@.map_values(|v: Vec<char>| v@) =~= Seq::<Seq<char>>::empty());
    while i < text.len()
        invariant
            i <= text.len(),
            -(i as int) <= depth <= i,
            operands_of(text@) == operands_from(text@, i as int, depth as int, cur@, out@.map_values(|v: Vec<char>| v@)),
        decreases text.len() - i,
    {
        let c = text[i];
        if c == '(' {
            depth = depth + 1;
            cur.push(c);
        } else if c == ')' {
            depth = depth - 1;
            cur.push(c);
        } else if is_white_space(c) && depth == 0 {
            if cur.len() > 0 {
                let ghost before = out@.map_values(|v: Vec<char>| v@);
                let ghost piece = cur@;
                out.push(cur);
                cur = Vec::new();
                assert(out@.map_values(|v: Vec<char>| v@) =~= before.push(piece));
                assert(cur@ =~= Seq::<char>::empty());
            }
        } else {
            cur.push(c);
        }
        i = i + 1;
    }
    if cur.len() > 0 {
        let ghost before = out@.map_values(|v: Vec<char>| v@);
        let ghost piece = cur@;
        out.push(cur);
        assert(out@.map_values(|v: Vec<char>| v@) =~= before.push(piece));
    }
    out
}

/// The names and parameter counts of functions.
pub open spec fn signatures(fs: Seq<Function>) -> Seq<(Seq<char>, nat)> {
    fs.map_values(|f: Function| (f.name@, f.params@.len()))
}

/// How many parameters the function called `name` takes, if `fns` defines
/// one.
pub(crate) fn arity_of(fns: &[Function], name: &[char]) -> (r: Option<usize>)
    ensures
        match r {
            Some(n) => arity(signatures(fns@), name@) == Some(n as nat),
            None => arity(signatures(fns@), name@) is None,
        },
{
    let ghost sigs = signatures(fns@);
    let mut i: usize = 0;
    assert(sigs.skip(0) =~= sigs);
    while i < fns.len()
        invariant
            i <= fns.len(),
            sigs == signatures(fns@),
            arity(sigs, name@) == arity(sigs.skip(i as int), name@),
        decreases fns.len() - i,
    {
        assert(sigs.skip(i as int).drop_first() =~= sigs.skip(i + 1));
        assert(sigs.skip(i as int)[0] == sigs[i as int]);
        let candidate = chars_of(fns[i].name.as_str());
        if seq_eq(candidate.as_slice(), name) {
            return Some(fns[i].params.len());
        }
        i = i + 1;
    }
    None
}

// ---------------------------------------------------------------- messages, executed

fn rotate_message(written: &[char]) -> (r: String)
    ensures
        r@ == rotate_detail(written@),
{
    let mut m = String::new();
    push_str(&mut m, "`⌽` rotates by a whole number written as a literal, not by `");
    push_chars(&mut m, written);
    push_str(&mut m, "`");
    m
}

pub(crate) fn arity_message(word: &[char], params: usize, given: usize) -> (r: String)
    ensures
        r@ == arity_detail(word@, params as nat, given as nat),
{
    let mut m = String::new();
    push_str(&mut m, "`");
    push_chars(&mut m, word);
    push_str(&mut m, "` takes ");
    push_decimal(&mut m, params as u64);
    push_str(&mut m, " argument(s), not ");
    push_decimal(&mut m, given as u64);
    push_str(&mut m, "; an argument that is a sum or a product needs parentheses");
    m
}

fn undefined_message(word: &[char]) -> (r: String)
    ensures
        r@ == undefined_detail(word@),
{
    let mut m = String::new();
    push_str(&mut m, "`");
    push_chars(&mut m, word);
    push_str(&mut m, "` is not a function defined above this point (definitions come before their use)");
    m
}

fn count_message(glyph: char, written: &[char]) -> (r: String)
    ensures
        r@ == count_detail(glyph, written@),
{
    let mut m = String::new();
    push_str(&mut m, "`");
    crate::text::push_char(&mut m, glyph);
    push_str(&mut m, "` takes a whole number of cells written as a literal, not `");
    push_chars(&mut m, written);
    push_str(&mut m, "`");
    assert(m@ =~= count_detail(glyph, written@));
    m
}

fn right_message(glyph: char) -> (r: String)
    ensures
        r@ == right_detail(glyph),
{
    let mut m = String::new();
    push_str(&mut m, "`");
    crate::text::push_char(&mut m, glyph);
    push_str(&mut m, "` needs a space on its right");
    assert(m@ =~= right_detail(glyph));
    m
}

fn reshape_message(written: &[char]) -> (r: String)
    ensures
        r@ == reshape_detail(written@),
{
    let mut m = String::new();
    push_str(&mut m, "`⍴` reshapes to a list of whole numbers written as literals, not to `");
    push_chars(&mut m, written);
    push_str(&mut m, "`");
    m
}

fn permutation_message(written: &[char]) -> (r: String)
    ensures
        r@ == permutation_detail(written@),
{
    let mut m = String::new();
    push_str(&mut m, "`⍉` takes a permutation of the axes written as literals, not `");
    push_chars(&mut m, written);
    push_str(&mut m, "`");
    m
}

fn lowering_error(detail: String) -> (r: HarmonyDisruption)
    ensures
        disruption_view(r) == lowering(detail@),
{
    HarmonyDisruption::LoweringErr { detail, line: 0 }
}

fn fixed_lowering(detail: &str) -> (r: HarmonyDisruption)
    ensures
        disruption_view(r) == lowering(detail@),
{
    let mut m = String::new();
    push_str(&mut m, detail);
    assert(m@ =~= detail@);
    HarmonyDisruption::LoweringErr { detail: m, line: 0 }
}


// ---------------------------------------------------------------- the parser

/// What a parse gives, as the grammar speaks of it.
pub open spec fn outcome(r: Result<Expr, HarmonyDisruption>) -> Result<ExprV, DisruptionV> {
    match r {
        Ok(e) => Ok(expr_view(e)),
        Err(e) => Err(disruption_view(e)),
    }
}

proof fn lemma_total_len_each(ws: Seq<Seq<char>>, j: int)
    requires
        0 <= j < ws.len(),
    ensures
        ws[j].len() <= total_len(ws),
    decreases ws.len(),
{
    if j < ws.len() - 1 {
        lemma_total_len_each(ws.drop_last(), j);
    }
}

proof fn lemma_list_prefix_error(ops: Seq<Seq<char>>, i: int, sigs: Seq<(Seq<char>, nat)>)
    requires
        0 <= i <= ops.len(),
        parse_list(ops.take(i), sigs) is Err,
    ensures
        parse_list(ops, sigs) == parse_list(ops.take(i), sigs),
    decreases ops.len(),
{
    if i == ops.len() {
        assert(ops.take(i) =~= ops);
    } else {
        assert(ops.drop_last().take(i) =~= ops.take(i));
        lemma_list_prefix_error(ops.drop_last(), i, sigs);
    }
}

/// The count of a rotation written as a literal.
fn rotation_of(x: &Expr) -> (r: Option<i64>)
    ensures
        r == rotation_amount(expr_view(*x)),
{
    match x {
        Expr::Number(v) => {
            let cs = chars_of(v.as_str());
            whole_literal(cs.as_slice())
        },
        _ => None,
    }
}

/// The fold that an operator character names.
fn fold_from(c: char) -> (r: Option<FoldOp>)
    ensures
        r == fold_named(c),
{
    if c == '+' {
        Some(FoldOp::Sum)
    } else if c == '×' || c == '*' {
        Some(FoldOp::Product)
    } else if c == '>' {
        Some(FoldOp::Max)
    } else if c == '<' {
        Some(FoldOp::Min)
    } else {
        None
    }
}

/// What the expression text `s` denotes, with `fns` the functions defined
/// before it.
pub fn parse_chars(s: &[char], fns: &[Function]) -> (r: Result<Expr, HarmonyDisruption>)
    ensures
        outcome(r) == parse_spec(s@, signatures(fns@)),
    decreases s@.len(), 2nat, 0nat,
{
    let (a, b) = trim_range(s, 0, s.len());
    let t = slice_subrange(s, a, b);
    proof {
        assert(s@.subrange(0, s.len() as int) =~= s@);
        lemma_trim_len(s@);
    }
    if is_enclosed_by_outer_parens(t) {
        let inner = slice_subrange(t, 1, t.len() - 1);
        return parse_chars(inner, fns);
    }
    parse_case_forms(t, fns)
}

/// The arguments of a call, each parsed, or the first failure.
fn parse_arguments(ops: &Vec<Vec<char>>, fns: &[Function], Ghost(bound): Ghost<nat>) -> (r: Result<Vec<Expr>, HarmonyDisruption>)
    requires
        total_len(ops@.map_values(|v: Vec<char>| v@)) < bound,
    ensures
        match r {
            Ok(args) => parse_list(ops@.map_values(|v: Vec<char>| v@), signatures(fns@)) == Ok::<Seq<ExprV>, DisruptionV>(args_view(args@)),
            Err(e) => parse_list(ops@.map_values(|v: Vec<char>| v@), signatures(fns@)) == Err::<Seq<ExprV>, DisruptionV>(
                disruption_view(e),
            ),
        },
    decreases bound, 0nat, 0nat,
{
    let ghost sigs = signatures(fns@);
    let ghost opsv = ops@.map_values(|v: Vec<char>| v@);
    let mut args: Vec<Expr> = Vec::new();
    let mut i: usize = 0;
    assert(opsv.take(0) =~= Seq::<Seq<char>>::empty());
    while i < ops.len()
        invariant
            i <= ops.len(),
            opsv == ops@.map_values(|v: Vec<char>| v@),
            sigs == signatures(fns@),
            total_len(opsv) < bound,
            args.len() == i,
            parse_list(opsv.take(i as int), sigs) is Ok,
            forall|j: int| 0 <= j < i ==> (#[trigger] args@[j])@ == parse_list(opsv.take(i as int), sigs)->Ok_0[j],
            parse_list(opsv.take(i as int), sigs)->Ok_0.len() == i,
        decreases ops.len() - i,
    {
        proof {
            lemma_total_len_each(opsv, i as int);
            assert(opsv.take(i + 1).drop_last() =~= opsv.take(i as int));
            assert(opsv.take(i + 1).last() == opsv[i as int]);
        }
        let x = match parse_chars(ops[i].as_slice(), fns) {
            Ok(x) => x,
            Err(e) => {
                proof {
                    lemma_list_prefix_error(opsv, i + 1, sigs);
                }
                return Err(e);
            },
        };
        args.push(x);
        i = i + 1;
    }
    proof {
        assert(opsv.take(i as int) =~= opsv);
        crate::ast::lemma_args_view_public(args@);
        assert(args_view(args@) =~= parse_list(opsv, sigs)->Ok_0);
    }
    Ok(args)
}

/// Binary operators, rotation, named functions and calls; then the glyph
/// forms.
#[verifier::rlimit(40)]
fn parse_case_forms(t: &[char], fns: &[Function]) -> (r: Result<Expr, HarmonyDisruption>)
    ensures
        outcome(r) == parse_cases(t@, signatures(fns@)),
    decreases t@.len(), 1nat, 0nat,
{
    let ghost sigs = signatures(fns@);
    proof {
        lemma_binary_split(t@, 0);
    }
    match first_binary_split(t) {
        Some((k, pos)) => {
            let (op, kind) = binary_op_at(k);
            let lhs = slice_subrange(t, 0, pos);
            let rhs = slice_subrange(t, pos + op.len(), t.len());
            proof {
                assert(lhs@ =~= t@.take(pos as int));
                assert(rhs@ =~= t@.skip(pos + op.len()));
            }
            let l = match parse_chars(lhs, fns) {
                Ok(x) => x,
                Err(e) => return Err(e),
            };
            let r = match parse_chars(rhs, fns) {
                Ok(x) => x,
                Err(e) => return Err(e),
            };
            return Ok(Expr::BinaryOp { op: kind, lhs: Box::new(l), rhs: Box::new(r) });
        },
        None => {},
    }
    match find_glyph(t, '⌽') {
        Some(pos) => {
            proof {
                lemma_split_scan(t@, seq!['⌽'], t.len() as int, 0);
                lemma_operand_at(t@, pos + 1);
            }
            let before = slice_subrange(t, 0, pos);
            proof {
                assert(before@ =~= t@.take(pos as int));
            }
            let amount = match parse_chars(before, fns) {
                Ok(x) => x,
                Err(e) => return Err(e),
            };
            let by = match rotation_of(&amount) {
                Some(b) => b,
                None => {
                    let (wa, wb) = trim_range(t, 0, pos);
                    proof {
                        assert(t@.subrange(0, pos as int) =~= t@.take(pos as int));
                    }
                    return Err(lowering_error(rotate_message(slice_subrange(t, wa, wb))));
                },
            };
            let (dend, oa, ob) = digits_then_operand(t, pos + 1);
            if oa == ob {
                return Err(fixed_lowering("`⌽` needs a space to rotate"));
            }
            let axis = axis_of(slice_subrange(t, pos + 1, dend));
            let x = match parse_chars(slice_subrange(t, oa, ob), fns) {
                Ok(x) => x,
                Err(e) => return Err(e),
            };
            return Ok(Expr::Rotate { by, axis, operand: Box::new(x) });
        },
        None => {},
    }
    match builtin_prefix(t) {
        Some((op, n)) => {
            proof {
                lemma_builtin_split(t@, 0);
            }
            let x = match parse_chars(slice_subrange(t, n, t.len()), fns) {
                Ok(x) => x,
                Err(e) => return Err(e),
            };
            return Ok(Expr::Builtin { op, operand: Box::new(x) });
        },
        None => {},
    }
    match leading_word(t) {
        Some((word, rest)) => {
            match arity_of(fns, word) {
                Some(n) => {
                    let ops = split_operands(rest);
                    if ops.len() != n {
                        return Err(lowering_error(arity_message(word, n, ops.len())));
                    }
                    proof {
                        lemma_operands_of(rest@);
                    }
                    let args = match parse_arguments(&ops, fns, Ghost(t@.len())) {
                        Ok(a) => a,
                        Err(e) => return Err(e),
                    };
                    return Ok(Expr::Call { name: string_from(word), args });
                },
                None => {
                    let spelled = string_from(word);
                    let named = BuiltinOp::from_name(spelled.as_str());
                    if has_text(rest, 0, rest.len()) && named.is_none() && !is_tau(word) && rest.len() > 0 && (
                    is_white_space(rest[0]) || rest[0] == '(') {
                        proof {
                            assert(rest@.subrange(0, rest.len() as int) =~= rest@);
                        }
                        return Err(lowering_error(undefined_message(word)));
                    }
                    proof {
                        assert(rest@.subrange(0, rest.len() as int) =~= rest@);
                    }
                },
            }
        },
        None => {},
    }
    parse_glyph_forms(t, fns)
}

/// The glyph forms, then numbers and names.
#[verifier::rlimit(60)]
fn parse_glyph_forms(t: &[char], fns: &[Function]) -> (r: Result<Expr, HarmonyDisruption>)
    ensures
        outcome(r) == glyph_cases(t@, signatures(fns@)),
    decreases t@.len(), 0nat, 1nat,
{
    proof {
        lemma_operand_at(t@, 1);
        lemma_operand_at(t@, 2);
        lemma_trim_len(t@.skip(1));
    }
    let n = t.len();
    if n > 1 && t[0] == '□' {
        let (dend, oa, ob) = digits_then_operand(t, 1);
        if dend > 1 && oa < ob {
            let x = match parse_chars(slice_subrange(t, oa, ob), fns) {
                Ok(x) => x,
                Err(e) => return Err(e),
            };
            let axis = match axis_of(slice_subrange(t, 1, dend)) {
                Some(v) => v,
                None => 0,
            };
            return Ok(Expr::Lift { axis, operand: Box::new(x) });
        }
    }
    if n > 2 && is_fold_glyph(t[0]) {
        let c = t[1];
        let (dend, oa, ob) = digits_then_operand(t, 2);
        match fold_from(c) {
            None => {
                let mut symbol = String::new();
                crate::text::push_char(&mut symbol, '◇');
                crate::text::push_char(&mut symbol, c);
                assert(symbol@ =~= seq!['◇', c]);
                return Err(HarmonyDisruption::GlyphErr { symbol, line: 0, column: 0 });
            },
            Some(fop) => {
                if oa < ob {
                    let x = match parse_chars(slice_subrange(t, oa, ob), fns) {
                        Ok(x) => x,
                        Err(e) => return Err(e),
                    };
                    let axis = axis_of(slice_subrange(t, 2, dend));
                    return Ok(
                        if t[0] == '◈' {
                            Expr::Scan { op: fop, axis, operand: Box::new(x) }
                        } else {
                            Expr::Reduce { op: fop, axis, operand: Box::new(x) }
                        },
                    );
                }
            },
        }
    }
    if n > 1 && (t[0] == '▷' || t[0] == '▽') {
        let (dend, oa, ob) = digits_then_operand(t, 1);
        if oa < ob {
            let x = match parse_chars(slice_subrange(t, oa, ob), fns) {
                Ok(x) => x,
                Err(e) => return Err(e),
            };
            let axis = axis_of(slice_subrange(t, 1, dend));
            let dir = if t[0] == '▷' {
                ShiftDir::Positive
            } else {
                ShiftDir::Negative
            };
            return Ok(Expr::Shift { dir, axis, operand: Box::new(x) });
        }
    }
    let up = find_glyph(t, '↑');
    let split = match up {
        Some(pos) => Some((pos, false)),
        None => match find_glyph(t, '↓') {
            Some(pos) => Some((pos, true)),
            None => None,
        },
    };
    match split {
        Some((pos, dropping)) => {
            let glyph = if dropping {
                '↓'
            } else {
                '↑'
            };
            proof {
                lemma_split_scan(t@, seq![glyph], t.len() as int, 0);
                lemma_operand_at(t@, pos + 1);
            }
            let before = slice_subrange(t, 0, pos);
            proof {
                assert(before@ =~= t@.take(pos as int));
            }
            let written = match parse_chars(before, fns) {
                Ok(x) => x,
                Err(e) => return Err(e),
            };
            let count = match rotation_of(&written) {
                Some(c) => if c != 0 {
                    c
                } else {
                    let (wa, wb) = trim_range(t, 0, pos);
                    proof {
                        assert(t@.subrange(0, pos as int) =~= t@.take(pos as int));
                    }
                    return Err(lowering_error(count_message(glyph, slice_subrange(t, wa, wb))));
                },
                None => {
                    let (wa, wb) = trim_range(t, 0, pos);
                    proof {
                        assert(t@.subrange(0, pos as int) =~= t@.take(pos as int));
                    }
                    return Err(lowering_error(count_message(glyph, slice_subrange(t, wa, wb))));
                },
            };
            let (dend, oa, ob) = digits_then_operand(t, pos + 1);
            if oa == ob {
                return Err(lowering_error(right_message(glyph)));
            }
            let x = match parse_chars(slice_subrange(t, oa, ob), fns) {
                Ok(x) => x,
                Err(e) => return Err(e),
            };
            let axis = axis_of(slice_subrange(t, pos + 1, dend));
            return Ok(
                if dropping {
                    Expr::Drop { count, axis, operand: Box::new(x) }
                } else {
                    Expr::Take { count, axis, operand: Box::new(x) }
                },
            );
        },
        None => {},
    }
    if n > 0 && (t[0] == '↑' || t[0] == '↓') {
        return Err(fixed_lowering("`↑` and `↓` take a count on their left: `2 ↑ X`, `-1 ↓ X`"));
    }
    parse_shape_forms(t, fns)
}

/// Reshape, transpose, reverse, index and trace; then numbers and names.
#[verifier::rlimit(60)]
fn parse_shape_forms(t: &[char], fns: &[Function]) -> (r: Result<Expr, HarmonyDisruption>)
    requires
        !(t@.len() > 1 && t@[0] == '□' && digits_at(t@, 1).len() > 0 && operand_at(t@, 1).len() > 0),
        !(t@.len() > 2 && fold_glyph(t@[0]) && (fold_named(t@[1]) is None || operand_at(t@, 2).len() > 0)),
        !(t@.len() > 1 && (t@[0] == '▷' || t@[0] == '▽') && operand_at(t@, 1).len() > 0),
        !(op_position(t@, seq!['↑']) is Some || op_position(t@, seq!['↓']) is Some),
        !(t@.len() > 0 && (t@[0] == '↑' || t@[0] == '↓')),
    ensures
        outcome(r) == glyph_cases(t@, signatures(fns@)),
    decreases t@.len(), 0nat, 0nat,
{
    proof {
        lemma_operand_at(t@, 1);
        lemma_trim_len(t@.skip(1));
    }
    let n = t.len();
    match find_glyph(t, '⍴') {
        Some(pos) => {
            proof {
                lemma_split_scan(t@, seq!['⍴'], t.len() as int, 0);
                lemma_trim_len(t@.skip(pos + 1));
                assert(t@.subrange(0, pos as int) =~= t@.take(pos as int));
                assert(t@.subrange(pos + 1, n as int) =~= t@.skip(pos + 1));
            }
            let (wa, wb) = trim_range(t, 0, pos);
            let written = slice_subrange(t, wa, wb);
            let shape = match number_list_of(written, true) {
                Some(v) => v,
                None => return Err(lowering_error(reshape_message(written))),
            };
            let (oa, ob) = trim_range(t, pos + 1, n);
            if oa == ob {
                return Err(fixed_lowering("`⍴` needs a space to reshape"));
            }
            let x = match parse_chars(slice_subrange(t, oa, ob), fns) {
                Ok(x) => x,
                Err(e) => return Err(e),
            };
            return Ok(Expr::Reshape { shape, operand: Box::new(x) });
        },
        None => {},
    }
    match find_glyph(t, '⍉') {
        Some(pos) => {
            proof {
                lemma_split_scan(t@, seq!['⍉'], t.len() as int, 0);
                lemma_trim_len(t@.skip(pos + 1));
                assert(t@.subrange(0, pos as int) =~= t@.take(pos as int));
                assert(t@.subrange(pos + 1, n as int) =~= t@.skip(pos + 1));
            }
            let (wa, wb) = trim_range(t, 0, pos);
            let written = slice_subrange(t, wa, wb);
            let axes = match number_list_of(written, false) {
                Some(v) => v,
                None => return Err(lowering_error(permutation_message(written))),
            };
            let (oa, ob) = trim_range(t, pos + 1, n);
            if oa == ob {
                return Err(fixed_lowering("`⍉` needs a space to transpose"));
            }
            let x = match parse_chars(slice_subrange(t, oa, ob), fns) {
                Ok(x) => x,
                Err(e) => return Err(e),
            };
            return Ok(Expr::Transpose { axes: Some(axes), operand: Box::new(x) });
        },
        None => {},
    }
    if n > 1 && t[0] == '⍉' {
        let (oa, ob) = trim_range(t, 1, n);
        proof {
            assert(t@.subrange(1, n as int) =~= t@.skip(1));
        }
        if oa < ob {
            let x = match parse_chars(slice_subrange(t, oa, ob), fns) {
                Ok(x) => x,
                Err(e) => return Err(e),
            };
            return Ok(Expr::Transpose { axes: None, operand: Box::new(x) });
        }
    }
    if n > 1 && (t[0] == '⌽' || t[0] == '⍳') {
        let (dend, oa, ob) = digits_then_operand(t, 1);
        if oa < ob {
            let x = match parse_chars(slice_subrange(t, oa, ob), fns) {
                Ok(x) => x,
                Err(e) => return Err(e),
            };
            let axis = axis_of(slice_subrange(t, 1, dend));
            return Ok(
                if t[0] == '⌽' {
                    Expr::Reverse { axis, operand: Box::new(x) }
                } else {
                    Expr::Index { axis, operand: Box::new(x) }
                },
            );
        }
    }
    if n > 0 && t[0] == '$' {
        let rest = slice_subrange(t, 1, n);
        proof {
            assert(rest@ =~= t@.skip(1));
        }
        let x = match parse_chars(rest, fns) {
            Ok(x) => x,
            Err(e) => return Err(e),
        };
        return Ok(Expr::AuditTrace(Box::new(x)));
    }
    if is_float_literal(t) {
        return Ok(Expr::Number(string_from(t)));
    }
    if n > 0 {
        return Ok(Expr::Var(string_from(t)));
    }
    Err(HarmonyDisruption::GlyphErr { symbol: string_from(t), line: 1, column: 1 })
}

/// What an expression's text denotes, when no function has been defined.
pub fn parse_expr(expr_str: &str) -> (r: Result<Expr, HarmonyDisruption>)
    ensures
        outcome(r) == parse_spec(expr_str@, Seq::empty()),
{
    let cs = chars_of(expr_str);
    let none: Vec<Function> = Vec::new();
    assert(signatures(none@) =~= Seq::<(Seq<char>, nat)>::empty());
    parse_chars(cs.as_slice(), none.as_slice())
}

/// What an expression's text denotes, with `functions` defined before it.
pub fn parse_expr_with(expr_str: &str, functions: &[Function]) -> (r: Result<Expr, HarmonyDisruption>)
    ensures
        outcome(r) == parse_spec(expr_str@, signatures(functions@)),
{
    let cs = chars_of(expr_str);
    parse_chars(cs.as_slice(), functions)
}

} // verus!
