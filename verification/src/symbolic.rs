//! Rendering expressions back in glyphs, and the comparisons a constraint
//! makes.

use vstd::prelude::*;
use crate::ast::{BinaryOpKind, BuiltinOp, builtin_name, Expr, ExprV, FoldOp, ShiftDir};
use crate::text::{decimal, dims_joined, push_decimal, push_dims_joined, push_signed, push_str, signed_decimal};

verus! {

/// Comparison used by a masking operator or a constraint.
#[derive(Debug, Clone, Copy, PartialEq, Eq, Structural)]
pub enum Cmp {
    Gt,
    Lt,
    Gte,
    Lte,
    Eq,
}

/// The comparison an operator makes, if it makes one.
pub open spec fn cmp_of(op: BinaryOpKind) -> Option<Cmp> {
    match op {
        BinaryOpKind::Gt => Some(Cmp::Gt),
        BinaryOpKind::Lt => Some(Cmp::Lt),
        BinaryOpKind::Gte => Some(Cmp::Gte),
        BinaryOpKind::Lte => Some(Cmp::Lte),
        BinaryOpKind::Eq => Some(Cmp::Eq),
        _ => None,
    }
}

impl Cmp {
    /// The comparison an operator makes: `> < >= <= ==`; none for any other.
    pub fn from_op(op: &BinaryOpKind) -> (r: Option<Cmp>)
        ensures
            r == cmp_of(*op),
    {
        match op {
            BinaryOpKind::Gt => Some(Cmp::Gt),
            BinaryOpKind::Lt => Some(Cmp::Lt),
            BinaryOpKind::Gte => Some(Cmp::Gte),
            BinaryOpKind::Lte => Some(Cmp::Lte),
            BinaryOpKind::Eq => Some(Cmp::Eq),
            _ => None,
        }
    }
}

/// How an operator is written between its operands.
pub open spec fn binop_text(op: BinaryOpKind) -> Seq<char> {
    match op {
        BinaryOpKind::Add => "+"@,
        BinaryOpKind::Sub => "-"@,
        BinaryOpKind::Mul => "×"@,
        BinaryOpKind::Div => "/"@,
        BinaryOpKind::Pow => "^"@,
        BinaryOpKind::Gt => ">"@,
        BinaryOpKind::Lt => "<"@,
        BinaryOpKind::Gte => ">="@,
        BinaryOpKind::Lte => "<="@,
        BinaryOpKind::Eq => "=="@,
        BinaryOpKind::Max => "⌈"@,
        BinaryOpKind::Min => "⌊"@,
        BinaryOpKind::Residue => "|"@,
    }
}

/// The operator a fold is written with after its glyph.
pub open spec fn fold_char(op: FoldOp) -> char {
    match op {
        FoldOp::Sum => '+',
        FoldOp::Product => '×',
        FoldOp::Max => '>',
        FoldOp::Min => '<',
    }
}

/// An optional axis as it follows a glyph: its digits, or nothing.
pub open spec fn axis_text(axis: Option<usize>) -> Seq<char> {
    match axis {
        Some(a) => decimal(a as nat),
        None => Seq::empty(),
    }
}

/// An expression written back in ρ glyphs, as diagnostics show it. A
/// binary operation is always bracketed.
pub open spec fn glyphs(e: ExprV) -> Seq<char>
    decreases e,
{
    match e {
        ExprV::Number(t) => t,
        ExprV::Var(n) => n,
        ExprV::AuditTrace(x) => "$ "@ + glyphs(*x),
        ExprV::Lift { axis, operand } => "□"@ + decimal(axis as nat) + glyphs(*operand),
        ExprV::Index { axis, operand } => "⍳"@ + axis_text(axis) + glyphs(*operand),
        ExprV::Rotate { by, axis, operand } => "("@ + signed_decimal(by as int) + " ⌽"@ + axis_text(axis) + " "@
            + glyphs(*operand) + ")"@,
        ExprV::Reverse { axis, operand } => "⌽"@ + axis_text(axis) + glyphs(*operand),
        ExprV::Shift { dir, axis, operand } => (match dir {
            ShiftDir::Positive => "▷"@,
            ShiftDir::Negative => "▽"@,
        }) + axis_text(axis) + glyphs(*operand),
        ExprV::Builtin { op, operand } => builtin_name(op) + " "@ + glyphs(*operand),
        ExprV::Reduce { op, axis, operand } => seq!['◇', fold_char(op)] + axis_text(axis) + glyphs(*operand),
        ExprV::Scan { op, axis, operand } => seq!['◈', fold_char(op)] + axis_text(axis) + glyphs(*operand),
        ExprV::BinaryOp { op, lhs, rhs } => "("@ + glyphs(*lhs) + " "@ + binop_text(op) + " "@ + glyphs(*rhs) + ")"@,
        ExprV::Reshape { shape, operand } => "("@ + dims_joined(shape, " "@) + " ⍴ "@ + glyphs(*operand) + ")"@,
        ExprV::Transpose { axes, operand } => match axes {
            Some(a) => "("@ + dims_joined(a, " "@) + " ⍉ "@ + glyphs(*operand) + ")"@,
            None => "⍉"@ + glyphs(*operand),
        },
        ExprV::Take { count, axis, operand } => "("@ + signed_decimal(count as int) + " ↑"@ + axis_text(axis) + " "@
            + glyphs(*operand) + ")"@,
        ExprV::Drop { count, axis, operand } => "("@ + signed_decimal(count as int) + " ↓"@ + axis_text(axis) + " "@
            + glyphs(*operand) + ")"@,
        ExprV::Call { name, args } => name + glyphs_args(args),
    }
}

/// Each argument of a call, after a space.
pub open spec fn glyphs_args(args: Seq<ExprV>) -> Seq<char>
    decreases args,
{
    if args.len() == 0 {
        Seq::empty()
    } else {
        " "@ + glyphs(args[0]) + glyphs_args(args.subrange(1, args.len() as int))
    }
}

fn push_axis(s: &mut String, axis: Option<usize>)
    ensures
        final(s)@ == old(s)@ + axis_text(axis),
{
    match axis {
        Some(a) => push_decimal(s, a as u64),
        None => {
            assert(old(s)@ + axis_text(axis) =~= old(s)@);
        },
    }
}

fn push_fold(s: &mut String, glyph: &str, op: FoldOp)
    ensures
        final(s)@ == old(s)@ + glyph@ + seq![fold_char(op)],
{
    push_str(s, glyph);
    match op {
        FoldOp::Sum => push_str(s, "+"),
        FoldOp::Product => push_str(s, "×"),
        FoldOp::Max => push_str(s, ">"),
        FoldOp::Min => push_str(s, "<"),
    }
    proof {
        reveal_strlit("+");
        reveal_strlit("×");
        reveal_strlit(">");
        reveal_strlit("<");
    }
    assert(s@ =~= old(s)@ + glyph@ + seq![fold_char(op)]);
}

fn push_binop(s: &mut String, op: BinaryOpKind)
    ensures
        final(s)@ == old(s)@ + binop_text(op),
{
    match op {
        BinaryOpKind::Add => push_str(s, "+"),
        BinaryOpKind::Sub => push_str(s, "-"),
        BinaryOpKind::Mul => push_str(s, "×"),
        BinaryOpKind::Div => push_str(s, "/"),
        BinaryOpKind::Pow => push_str(s, "^"),
        BinaryOpKind::Gt => push_str(s, ">"),
        BinaryOpKind::Lt => push_str(s, "<"),
        BinaryOpKind::Gte => push_str(s, ">="),
        BinaryOpKind::Lte => push_str(s, "<="),
        BinaryOpKind::Eq => push_str(s, "=="),
        BinaryOpKind::Max => push_str(s, "⌈"),
        BinaryOpKind::Min => push_str(s, "⌊"),
        BinaryOpKind::Residue => push_str(s, "|"),
    }
}

/// How an operator is written: `+ - × / ^ > < >= <= == ⌈ ⌊ |`.
pub fn op_string(op: BinaryOpKind) -> (r: String)
    ensures
        r@ == binop_text(op),
{
    let mut s = String::new();
    push_binop(&mut s, op);
    assert(s@ =~= binop_text(op));
    s
}

/// How a comparison is written: `> < >= <= ==`.
pub open spec fn cmp_text(c: Cmp) -> Seq<char> {
    match c {
        Cmp::Gt => ">"@,
        Cmp::Lt => "<"@,
        Cmp::Gte => ">="@,
        Cmp::Lte => "<="@,
        Cmp::Eq => "=="@,
    }
}

impl Cmp {
    /// The comparison as it is written.
    pub fn to_string(&self) -> (r: String)
        ensures
            r@ == cmp_text(*self),
    {
        let mut s = String::new();
        match self {
            Cmp::Gt => push_str(&mut s, ">"),
            Cmp::Lt => push_str(&mut s, "<"),
            Cmp::Gte => push_str(&mut s, ">="),
            Cmp::Lte => push_str(&mut s, "<="),
            Cmp::Eq => push_str(&mut s, "=="),
        }
        s
    }
}

/// A comparison an operator makes is written as the operator is.
pub proof fn law_comparison_reads_as_its_operator(op: BinaryOpKind)
    ensures
        cmp_of(op) matches Some(c) ==> cmp_text(c) == binop_text(op),
{
}

/// Appends an expression written back in glyphs.
#[verifier::rlimit(100)]
pub fn push_glyphs(s: &mut String, e: &Expr)
    ensures
        final(s)@ == old(s)@ + glyphs(e@),
    decreases e,
{
    let ghost start = s@;
    match e {
        Expr::Number(t) => push_str(s, t.as_str()),
        Expr::Var(n) => push_str(s, n.as_str()),
        Expr::AuditTrace(x) => {
            push_str(s, "$ ");
            push_glyphs(s, x);
        },
        Expr::Lift { axis, operand } => {
            push_str(s, "□");
            push_decimal(s, *axis as u64);
            push_glyphs(s, operand);
        },
        Expr::Index { axis, operand } => {
            push_str(s, "⍳");
            push_axis(s, *axis);
            push_glyphs(s, operand);
        },
        Expr::Rotate { by, axis, operand } => {
            push_str(s, "(");
            push_signed(s, *by);
            push_str(s, " ⌽");
            push_axis(s, *axis);
            push_str(s, " ");
            push_glyphs(s, operand);
            push_str(s, ")");
        },
        Expr::Reverse { axis, operand } => {
            push_str(s, "⌽");
            push_axis(s, *axis);
            push_glyphs(s, operand);
        },
        Expr::Shift { dir, axis, operand } => {
            match dir {
                ShiftDir::Positive => push_str(s, "▷"),
                ShiftDir::Negative => push_str(s, "▽"),
            }
            push_axis(s, *axis);
            push_glyphs(s, operand);
        },
        Expr::Builtin { op, operand } => {
            push_str(s, op.name());
            push_str(s, " ");
            push_glyphs(s, operand);
        },
        Expr::Reduce { op, axis, operand } => {
            push_fold(s, "◇", *op);
            proof {
                reveal_strlit("◇");
            }
            push_axis(s, *axis);
            push_glyphs(s, operand);
        },
        Expr::Scan { op, axis, operand } => {
            push_fold(s, "◈", *op);
            proof {
                reveal_strlit("◈");
            }
            push_axis(s, *axis);
            push_glyphs(s, operand);
        },
        Expr::BinaryOp { op, lhs, rhs } => {
            push_str(s, "(");
            push_glyphs(s, lhs);
            push_str(s, " ");
            push_binop(s, *op);
            push_str(s, " ");
            push_glyphs(s, rhs);
            push_str(s, ")");
        },
        Expr::Reshape { shape, operand } => {
            push_str(s, "(");
            let sep = [' '];
            proof {
                reveal_strlit(" ");
                assert(sep@ =~= " "@);
            }
            push_dims_joined(s, shape.as_slice(), &sep);
            push_str(s, " ⍴ ");
            push_glyphs(s, operand);
            push_str(s, ")");
        },
        Expr::Transpose { axes, operand } => {
            match axes {
                Some(a) => {
                    push_str(s, "(");
                    let sep = [' '];
                    proof {
                        reveal_strlit(" ");
                        assert(sep@ =~= " "@);
                    }
                    push_dims_joined(s, a.as_slice(), &sep);
                    push_str(s, " ⍉ ");
                    push_glyphs(s, operand);
                    push_str(s, ")");
                },
                None => {
                    push_str(s, "⍉");
                    push_glyphs(s, operand);
                },
            }
        },
        Expr::Take { count, axis, operand } => {
            push_str(s, "(");
            push_signed(s, *count);
            push_str(s, " ↑");
            push_axis(s, *axis);
            push_str(s, " ");
            push_glyphs(s, operand);
            push_str(s, ")");
        },
        Expr::Drop { count, axis, operand } => {
            push_str(s, "(");
            push_signed(s, *count);
            push_str(s, " ↓");
            push_axis(s, *axis);
            push_str(s, " ");
            push_glyphs(s, operand);
            push_str(s, ")");
        },
        Expr::Call { name, args } => {
            push_str(s, name.as_str());
            proof {
                crate::ast::lemma_args_view_public(args@);
                assert(crate::ast::args_view(args@) =~= args@.map_values(|a: Expr| a@));
            }
            push_glyphs_args(s, args.as_slice());
        },
    }
    proof {
        assert(s@ =~= start + glyphs(e@));
    }
}

/// Appends each argument after a space.
pub fn push_glyphs_args(s: &mut String, args: &[Expr])
    ensures
        final(s)@ == old(s)@ + glyphs_args(args@.map_values(|a: Expr| a@)),
    decreases args@,
{
    let ghost views = args@.map_values(|a: Expr| a@);
    assert(views.subrange(0, views.len() as int) =~= views);
    let mut i: usize = 0;
    while i < args.len()
        invariant
            i <= args.len(),
            views == args@.map_values(|a: Expr| a@),
            old(s)@ + glyphs_args(views) == s@ + glyphs_args(views.subrange(i as int, views.len() as int)),
        decreases args.len() - i,
    {
        proof {
            assert(decreases_to!(args@ => args@[i as int]));
            let rest = views.subrange(i as int, views.len() as int);
            assert(rest.subrange(1, rest.len() as int) =~= views.subrange(i + 1, views.len() as int));
            assert(rest[0] == views[i as int]);
            reveal_strlit(" ");
        }
        push_str(s, " ");
        push_glyphs(s, &args[i]);
        i = i + 1;
    }
    proof {
        assert(views.subrange(args.len() as int, views.len() as int) =~= Seq::<ExprV>::empty());
        assert(s@ =~= old(s)@ + glyphs_args(views));
    }
}

/// An expression written back in glyphs.
pub fn expr_glyphs(e: &Expr) -> (r: String)
    ensures
        r@ == glyphs(e@),
{
    let mut s = String::new();
    push_glyphs(&mut s, e);
    assert(s@ =~= glyphs(e@));
    s
}


/// How an offset is spelled inside a symbol's name: a minus sign cannot
/// stand there, so a negative offset is `m` and its magnitude.
pub fn offset_tag(offset: i64) -> (r: String)
    ensures
        r@ == (if offset < 0 {
            seq!['m'] + crate::text::decimal((-offset) as nat)
        } else {
            crate::text::decimal(offset as nat)
        }),
{
    let mut s = String::new();
    if offset < 0 {
        crate::text::push_char(&mut s, 'm');
        let magnitude: u64 = if offset == i64::MIN { 9223372036854775808u64 } else { (-offset) as u64 };
        crate::text::push_decimal(&mut s, magnitude);
    } else {
        crate::text::push_decimal(&mut s, offset as u64);
    }
    s
}

} // verus!
