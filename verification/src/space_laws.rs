//! What the static checks on a program promise: it passes the check on
//! its spaces exactly when every space a statement reads was declared
//! somewhere or written by an earlier flow, and operands that cannot
//! broadcast are refused with their shapes.

use vstd::prelude::*;
use crate::ast::{builtin_named, line_at, ExprV, StatementV, TargetV};
use crate::error::DisruptionV;
use crate::parser::{
    broadcast_fault, declarations_fault, declared_set, declared_shapes, dimensions_fault, first_broadcast_fault,
    first_unknown, first_unknown_in, named_space, shadow_from, spaces_fault, swept, unknown_space,
};
use crate::ast::{broadcasts, shape_of_expr};
use crate::symbolic::glyphs;
use crate::text::is_tau_name;

verus! {

/// Whether `e` reads the space `n`: a name it mentions, other than 𝜏.
pub open spec fn reads_space(e: ExprV, n: Seq<char>) -> bool
    decreases e,
{
    match e {
        ExprV::Var(m) => m == n && !is_tau_name(m),
        ExprV::Number(_) => false,
        ExprV::BinaryOp { lhs, rhs, .. } => reads_space(*lhs, n) || reads_space(*rhs, n),
        ExprV::Call { args, .. } => reads_space_in(args, n),
        ExprV::Shift { operand, .. } => reads_space(*operand, n),
        ExprV::Builtin { operand, .. } => reads_space(*operand, n),
        ExprV::Rotate { operand, .. } => reads_space(*operand, n),
        ExprV::Reverse { operand, .. } => reads_space(*operand, n),
        ExprV::Reshape { operand, .. } => reads_space(*operand, n),
        ExprV::Transpose { operand, .. } => reads_space(*operand, n),
        ExprV::Take { operand, .. } => reads_space(*operand, n),
        ExprV::Drop { operand, .. } => reads_space(*operand, n),
        ExprV::Index { operand, .. } => reads_space(*operand, n),
        ExprV::Lift { operand, .. } => reads_space(*operand, n),
        ExprV::Scan { operand, .. } => reads_space(*operand, n),
        ExprV::Reduce { operand, .. } => reads_space(*operand, n),
        ExprV::AuditTrace(operand) => reads_space(*operand, n),
    }
}

/// Whether one of a list of expressions reads the space `n`.
pub open spec fn reads_space_in(args: Seq<ExprV>, n: Seq<char>) -> bool
    decreases args,
{
    if args.len() == 0 {
        false
    } else {
        reads_space(args[0], n) || reads_space_in(args.subrange(1, args.len() as int), n)
    }
}

/// Whether a statement reads the space `n`: a flow's or a fixed point's
/// source, a constraint, or an audit.
pub open spec fn statement_reads(s: StatementV, n: Seq<char>) -> bool {
    match s {
        StatementV::Flow { src, .. } => reads_space(src, n),
        StatementV::Iterate { src, .. } => reads_space(src, n),
        StatementV::Constraint(e) => reads_space(e, n),
        StatementV::AuditTrace(e) => reads_space(e, n),
        _ => false,
    }
}

/// Whether statement `s` is a flow into the space `n`.
pub open spec fn flows_into(s: StatementV, n: Seq<char>) -> bool {
    s matches StatementV::Flow { target: TargetV::Var(m), .. } && m == n
}

/// Whether a flow before statement `i` writes the space `n`.
pub open spec fn written_before(stmts: Seq<StatementV>, i: int, n: Seq<char>) -> bool {
    exists|k: int| 0 <= k < i && flows_into(#[trigger] stmts[k], n)
}

/// The check stops at statement `j` on the space `n`, which it reads though
/// nothing declared it or wrote it before, with every statement from `i` up
/// to `j` reading only known spaces.
pub open spec fn first_stray_read(stmts: Seq<StatementV>, lines: Seq<usize>, i: int, j: int, n: Seq<char>, e: DisruptionV) -> bool {
    &&& i <= j < stmts.len()
    &&& forall|k: int| i <= k < j ==> #[trigger] reads_known(stmts, k)
    &&& statement_reads(stmts[j], n)
    &&& !declared_set(stmts).contains(n)
    &&& !written_before(stmts, j, n)
    &&& e == unknown_space(n, line_at(lines, j))
}

/// Every space statement `i` reads is declared or written before it.
pub open spec fn reads_known(stmts: Seq<StatementV>, i: int) -> bool {
    forall|n: Seq<char>|
        #[trigger] statement_reads(stmts[i], n) ==> declared_set(stmts).contains(n) || written_before(stmts, i, n)
}

proof fn lemma_unknown(e: ExprV, d: Set<Seq<char>>, n: Seq<char>)
    ensures
        first_unknown(e, d) is None && reads_space(e, n) ==> d.contains(n),
        first_unknown(e, d) matches Some(m) ==> reads_space(e, m) && !d.contains(m),
    decreases e,
{
    match e {
        ExprV::Var(m) => {},
        ExprV::Number(_) => {},
        ExprV::BinaryOp { lhs, rhs, .. } => {
            lemma_unknown(*lhs, d, n);
            lemma_unknown(*rhs, d, n);
        },
        ExprV::Call { args, .. } => lemma_unknown_in(args, d, n),
        ExprV::Shift { operand, .. } => lemma_unknown(*operand, d, n),
        ExprV::Builtin { operand, .. } => lemma_unknown(*operand, d, n),
        ExprV::Rotate { operand, .. } => lemma_unknown(*operand, d, n),
        ExprV::Reverse { operand, .. } => lemma_unknown(*operand, d, n),
        ExprV::Reshape { operand, .. } => lemma_unknown(*operand, d, n),
        ExprV::Transpose { operand, .. } => lemma_unknown(*operand, d, n),
        ExprV::Take { operand, .. } => lemma_unknown(*operand, d, n),
        ExprV::Drop { operand, .. } => lemma_unknown(*operand, d, n),
        ExprV::Index { operand, .. } => lemma_unknown(*operand, d, n),
        ExprV::Lift { operand, .. } => lemma_unknown(*operand, d, n),
        ExprV::Scan { operand, .. } => lemma_unknown(*operand, d, n),
        ExprV::Reduce { operand, .. } => lemma_unknown(*operand, d, n),
        ExprV::AuditTrace(operand) => lemma_unknown(*operand, d, n),
    }
}

proof fn lemma_unknown_in(args: Seq<ExprV>, d: Set<Seq<char>>, n: Seq<char>)
    ensures
        first_unknown_in(args, d) is None && reads_space_in(args, n) ==> d.contains(n),
        first_unknown_in(args, d) matches Some(m) ==> reads_space_in(args, m) && !d.contains(m),
    decreases args,
{
    if args.len() > 0 {
        let rest = args.subrange(1, args.len() as int);
        lemma_unknown(args[0], d, n);
        lemma_unknown_in(rest, d, n);
        if let Some(m) = first_unknown(args[0], d) {
            lemma_unknown(args[0], d, m);
            assert(reads_space_in(args, m));
        } else if let Some(m) = first_unknown_in(rest, d) {
            lemma_unknown_in(rest, d, m);
            assert(reads_space_in(args, m));
        }
    }
}

/// Every `⇒` iterates a space that an earlier flow wrote.
pub open spec fn iterates_written(stmts: Seq<StatementV>) -> bool {
    forall|i: int|
        0 <= i < stmts.len() ==> (#[trigger] stmts[i] matches StatementV::Iterate { target, .. } ==> written_before(stmts, i, target))
}

/// No space takes a builtin's name.
pub open spec fn no_builtin_names(stmts: Seq<StatementV>) -> bool {
    forall|i: int| 0 <= i < stmts.len() ==> (named_space(#[trigger] stmts[i]) matches Some(n) ==> builtin_named(n) is None)
}

proof fn lemma_no_shadow(stmts: Seq<StatementV>, lines: Seq<usize>, i: int)
    requires
        0 <= i,
        no_builtin_names(stmts),
    ensures
        shadow_from(stmts, lines, i) is None,
    decreases stmts.len() - i,
{
    if i < stmts.len() {
        lemma_no_shadow(stmts, lines, i + 1);
    }
}

proof fn lemma_written_next(stmts: Seq<StatementV>, i: int, n: Seq<char>)
    requires
        0 <= i < stmts.len(),
    ensures
        written_before(stmts, i + 1, n) <==> written_before(stmts, i, n) || flows_into(stmts[i], n),
{
    if written_before(stmts, i + 1, n) {
        let k = choose|k: int| 0 <= k < i + 1 && flows_into(#[trigger] stmts[k], n);
        if k < i {
            assert(written_before(stmts, i, n));
        }
    }
    if written_before(stmts, i, n) {
        let k = choose|k: int| 0 <= k < i && flows_into(#[trigger] stmts[k], n);
        assert(0 <= k < i + 1 && flows_into(stmts[k], n));
    }
    if flows_into(stmts[i], n) {
        assert(0 <= i < i + 1 && flows_into(stmts[i], n));
    }
}

/// Statement `i` reads only known spaces exactly when the check finds no
/// unknown name in what it reads, under `declared`.
proof fn lemma_reads_known_at(stmts: Seq<StatementV>, i: int, e: ExprV, declared: Set<Seq<char>>)
    requires
        0 <= i < stmts.len(),
        forall|n: Seq<char>| statement_reads(stmts[i], n) == reads_space(e, n),
        forall|n: Seq<char>|
            #[trigger] declared.contains(n) <==> (declared_set(stmts).contains(n) || written_before(stmts, i, n)),
    ensures
        reads_known(stmts, i) <==> first_unknown(e, declared) is None,
{
    if let Some(m) = first_unknown(e, declared) {
        lemma_unknown(e, declared, m);
        assert(statement_reads(stmts[i], m));
    } else {
        assert forall|n: Seq<char>| #[trigger] statement_reads(stmts[i], n) implies declared_set(stmts).contains(n)
            || written_before(stmts, i, n) by {
            lemma_unknown(e, declared, n);
        }
    }
}

proof fn lemma_stray_extends(stmts: Seq<StatementV>, lines: Seq<usize>, i: int, e: DisruptionV)
    requires
        0 <= i < stmts.len(),
        reads_known(stmts, i),
        exists|j: int, n: Seq<char>| #[trigger] first_stray_read(stmts, lines, i + 1, j, n, e),
    ensures
        exists|j: int, n: Seq<char>| #[trigger] first_stray_read(stmts, lines, i, j, n, e),
{
    let (j, n) = choose|j: int, n: Seq<char>| #[trigger] first_stray_read(stmts, lines, i + 1, j, n, e);
    assert forall|k: int| i <= k < j implies #[trigger] reads_known(stmts, k) by {
        if k > i {
            assert(i + 1 <= k < j);
        }
    }
    assert(first_stray_read(stmts, lines, i, j, n, e));
}

/// A stray read at statement `i` itself.
proof fn lemma_stray_here(stmts: Seq<StatementV>, lines: Seq<usize>, i: int, x: ExprV, declared: Set<Seq<char>>, m: Seq<char>)
    requires
        0 <= i < stmts.len(),
        forall|n: Seq<char>| statement_reads(stmts[i], n) == reads_space(x, n),
        forall|n: Seq<char>|
            #[trigger] declared.contains(n) <==> (declared_set(stmts).contains(n) || written_before(stmts, i, n)),
        first_unknown(x, declared) == Some(m),
    ensures
        exists|j: int, n: Seq<char>| #[trigger] first_stray_read(stmts, lines, i, j, n, unknown_space(m, line_at(lines, i))),
{
    lemma_unknown(x, declared, m);
    assert(declared.contains(m) <==> (declared_set(stmts).contains(m) || written_before(stmts, i, m)));
    assert(first_stray_read(stmts, lines, i, i, m, unknown_space(m, line_at(lines, i))));
}

proof fn lemma_spaces(
    stmts: Seq<StatementV>,
    lines: Seq<usize>,
    i: int,
    declared: Set<Seq<char>>,
    written: Set<Seq<char>>,
)
    requires
        0 <= i <= stmts.len(),
        iterates_written(stmts),
        forall|n: Seq<char>|
            #[trigger] declared.contains(n) <==> (declared_set(stmts).contains(n) || written_before(stmts, i, n)),
        forall|n: Seq<char>| written_before(stmts, i, n) ==> #[trigger] written.contains(n),
    ensures
        spaces_fault(stmts, lines, i, declared, written) is None <==> forall|j: int|
            i <= j < stmts.len() ==> #[trigger] reads_known(stmts, j),
        spaces_fault(stmts, lines, i, declared, written) matches Some(e) ==> exists|j: int, n: Seq<char>|
            #[trigger] first_stray_read(stmts, lines, i, j, n, e),
    decreases stmts.len() - i,
{
    if i < stmts.len() {
        let s = stmts[i];
        let rest_ok = forall|j: int| i + 1 <= j < stmts.len() ==> #[trigger] reads_known(stmts, j);
        let all_ok = forall|j: int| i <= j < stmts.len() ==> #[trigger] reads_known(stmts, j);
        assert(all_ok <==> reads_known(stmts, i) && rest_ok);
        match s {
            StatementV::Flow { src, target } => {
                lemma_reads_known_at(stmts, i, src, declared);
                if let Some(m) = first_unknown(src, declared) {
                    lemma_stray_here(stmts, lines, i, src, declared, m);
                }
                if first_unknown(src, declared) is None {
                    match target {
                        TargetV::Var(v) => {
                            assert forall|n: Seq<char>| #[trigger] declared.insert(v).contains(n) <==> (declared_set(
                                stmts,
                            ).contains(n) || written_before(stmts, i + 1, n)) by {
                                lemma_written_next(stmts, i, n);
                            }
                            assert forall|n: Seq<char>| written_before(stmts, i + 1, n) implies #[trigger] written.insert(
                                v,
                            ).contains(n) by {
                                lemma_written_next(stmts, i, n);
                            }
                            lemma_spaces(stmts, lines, i + 1, declared.insert(v), written.insert(v));
                            if let Some(e) = spaces_fault(stmts, lines, i + 1, declared.insert(v), written.insert(v)) {
                                lemma_stray_extends(stmts, lines, i, e);
                            }
                        },
                        TargetV::Equilibrium => {
                            let w = written.insert(crate::parser::output_name());
                            assert forall|n: Seq<char>| #[trigger] declared.contains(n) <==> (declared_set(stmts).contains(n)
                                || written_before(stmts, i + 1, n)) by {
                                lemma_written_next(stmts, i, n);
                            }
                            assert forall|n: Seq<char>| written_before(stmts, i + 1, n) implies #[trigger] w.contains(n) by {
                                lemma_written_next(stmts, i, n);
                            }
                            lemma_spaces(stmts, lines, i + 1, declared, w);
                            if let Some(e) = spaces_fault(stmts, lines, i + 1, declared, w) {
                                lemma_stray_extends(stmts, lines, i, e);
                            }
                        },
                    }
                }
            },
            _ => {
                assert forall|n: Seq<char>| #[trigger] declared.contains(n) <==> (declared_set(stmts).contains(n)
                    || written_before(stmts, i + 1, n)) by {
                    lemma_written_next(stmts, i, n);
                }
                assert forall|n: Seq<char>| written_before(stmts, i + 1, n) implies #[trigger] written.contains(n) by {
                    lemma_written_next(stmts, i, n);
                }
                lemma_spaces(stmts, lines, i + 1, declared, written);
                let x = match s {
                    StatementV::Iterate { src, .. } => src,
                    StatementV::Constraint(e) => e,
                    StatementV::AuditTrace(e) => e,
                    _ => ExprV::Number(Seq::empty()),
                };
                match s {
                    StatementV::Iterate { src, target } => {
                        assert(written_before(stmts, i, target));
                    },
                    _ => {},
                }
                lemma_reads_known_at(stmts, i, x, declared);
                if let Some(m) = first_unknown(x, declared) {
                    lemma_stray_here(stmts, lines, i, x, declared, m);
                }
                if let Some(e) = spaces_fault(stmts, lines, i + 1, declared, written) {
                    if reads_known(stmts, i) {
                        lemma_stray_extends(stmts, lines, i, e);
                    }
                }
            },
        }
    }
}

/// In a program whose spaces take no builtin's name and whose every `⇒`
/// iterates a space an earlier flow wrote, the space check passes exactly
/// when every space each statement reads is declared somewhere in the
/// program or written by an earlier flow; when it fails, it names the
/// first statement that reads a space neither, with that space and the
/// statement's line.
pub proof fn law_reads_are_declared_or_written_before(stmts: Seq<StatementV>, lines: Seq<usize>)
    requires
        no_builtin_names(stmts),
        iterates_written(stmts),
    ensures
        declarations_fault(stmts, lines) is None <==> forall|i: int| 0 <= i < stmts.len() ==> #[trigger] reads_known(stmts, i),
        declarations_fault(stmts, lines) matches Some(e) ==> exists|j: int, n: Seq<char>|
            #[trigger] first_stray_read(stmts, lines, 0, j, n, e),
{
    lemma_no_shadow(stmts, lines, 0);
    lemma_spaces(stmts, lines, 0, declared_set(stmts), Set::empty());
}


proof fn lemma_broadcast_reaches(
    stmts: Seq<StatementV>,
    lines: Seq<usize>,
    shapes: Map<Seq<char>, Seq<usize>>,
    k: int,
    i: int,
)
    requires
        0 <= k <= i < stmts.len(),
        forall|j: int| 0 <= j < i ==> (#[trigger] swept(stmts[j]) matches Some(e) ==> broadcast_fault(
            e,
            shapes,
            line_at(lines, j),
        ) is None),
    ensures
        first_broadcast_fault(stmts, lines, shapes, k) == first_broadcast_fault(stmts, lines, shapes, i),
    decreases i - k,
{
    if k < i {
        lemma_broadcast_reaches(stmts, lines, shapes, k + 1, i);
        assert(swept(stmts[k]) matches Some(e) ==> broadcast_fault(e, shapes, line_at(lines, k)) is None);
    }
}

/// Operands that cannot broadcast are refused: when every swept expression
/// before statement `i` passes the shape check and statement `i` sweeps a
/// binary operation whose operands pass it but have shapes that do not
/// broadcast, the program's shape check names those operands, their
/// shapes and statement `i`'s line.
pub proof fn law_unbroadcastable_operands_are_refused(
    stmts: Seq<StatementV>,
    lines: Seq<usize>,
    i: int,
    op: crate::ast::BinaryOpKind,
    lhs: ExprV,
    rhs: ExprV,
    l: Seq<usize>,
    r: Seq<usize>,
)
    requires
        0 <= i < stmts.len(),
        forall|j: int| 0 <= j < i ==> (#[trigger] swept(stmts[j]) matches Some(e) ==> broadcast_fault(
            e,
            declared_shapes(stmts, stmts.len() as int),
            line_at(lines, j),
        ) is None),
        swept(stmts[i]) == Some(ExprV::BinaryOp { op, lhs: Box::new(lhs), rhs: Box::new(rhs) }),
        broadcast_fault(lhs, declared_shapes(stmts, stmts.len() as int), line_at(lines, i)) is None,
        broadcast_fault(rhs, declared_shapes(stmts, stmts.len() as int), line_at(lines, i)) is None,
        shape_of_expr(lhs, declared_shapes(stmts, stmts.len() as int)) == Some(l),
        shape_of_expr(rhs, declared_shapes(stmts, stmts.len() as int)) == Some(r),
        !broadcasts(l, r),
    ensures
        dimensions_fault(stmts, lines) == Some(
            DisruptionV::DimensionErr {
                space_a: glyphs(lhs),
                shape_a: l,
                space_b: glyphs(rhs),
                shape_b: r,
                line: line_at(lines, i),
            },
        ),
{
    let shapes = declared_shapes(stmts, stmts.len() as int);
    lemma_broadcast_reaches(stmts, lines, shapes, 0, i);
}

} // verus!
