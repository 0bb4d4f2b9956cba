//! The parser and the static checks a program passes before any target
//! sees it.

use vstd::prelude::*;
use crate::ast::{
    args_view, asked_axes, broadcast_shapes, broadcasts, builtin_named, declared_name, expr_shape, is_permutation,
    lemma_args_view_public, line_at, shape_of_expr, statements_view, taken_dims, taken_shape, transpose_axes,
    written_axes, BuiltinOp, Expr, ExprV, FlowTarget, ShapeTable, Statement, StatementV, TargetV, ToposBlock,
};
use crate::error::{DisruptionV, HarmonyDisruption};
use crate::symbolic::{expr_glyphs, glyphs};
use crate::text::{
    chars_of, debug_dims, decimal, is_tau, is_tau_name, push_debug_dims, push_decimal, push_signed, push_str,
    signed_decimal, string_from,
};

pub use crate::expression::parse_expr;
pub use crate::program::parse_rho_program;

verus! {

// ---------------------------------------------------------------- names

/// A set of space names.
pub struct NameSet {
    names: Vec<String>,
}

impl View for NameSet {
    type V = Set<Seq<char>>;

    closed spec fn view(&self) -> Set<Seq<char>> {
        Set::new(|x: Seq<char>| exists|i: int| 0 <= i < self.names@.len() && (#[trigger] self.names@[i])@ == x)
    }
}

impl NameSet {
    pub fn new() -> (r: NameSet)
        ensures
            r@ == Set::<Seq<char>>::empty(),
    {
        let r = NameSet { names: Vec::new() };
        assert(r@ =~= Set::<Seq<char>>::empty());
        r
    }

    pub fn insert(&mut self, name: &String)
        ensures
            final(self)@ == old(self)@.insert(name@),
    {
        self.names.push(name.clone());
        proof {
            let n = self.names@.len() - 1;
            assert forall|x: Seq<char>| self@.contains(x) <==> old(self)@.insert(name@).contains(x) by {
                if old(self)@.contains(x) {
                    let i = choose|i: int| 0 <= i < old(self).names@.len() && (#[trigger] old(self).names@[i])@ == x;
                    assert(self.names@[i] == old(self).names@[i]);
                }
                if self@.contains(x) && x != name@ {
                    let i = choose|i: int| 0 <= i < self.names@.len() && (#[trigger] self.names@[i])@ == x;
                    assert(i != n);
                    assert(old(self).names@[i] == self.names@[i]);
                }
                if x == name@ {
                    assert(self.names@[n]@ == x);
                }
            }
            assert(self@ =~= old(self)@.insert(name@));
        }
    }

    pub fn contains(&self, name: &String) -> (r: bool)
        ensures
            r == self@.contains(name@),
    {
        let mut i: usize = 0;
        while i < self.names.len()
            invariant
                i <= self.names.len(),
                forall|j: int| 0 <= j < i ==> (#[trigger] self.names@[j])@ != name@,
            decreases self.names.len() - i,
        {
            if self.names[i] == *name {
                return true;
            }
            i = i + 1;
        }
        false
    }
}

// ---------------------------------------------------------------- undeclared spaces

/// The first name an expression reads, left to right, that is neither
/// declared nor the threshold 𝜏.
pub open spec fn first_unknown(e: ExprV, declared: Set<Seq<char>>) -> Option<Seq<char>>
    decreases e,
{
    match e {
        ExprV::Var(n) => if !is_tau_name(n) && !declared.contains(n) {
            Some(n)
        } else {
            None
        },
        ExprV::Number(_) => None,
        ExprV::BinaryOp { lhs, rhs, .. } => match first_unknown(*lhs, declared) {
            Some(n) => Some(n),
            None => first_unknown(*rhs, declared),
        },
        ExprV::Call { args, .. } => first_unknown_in(args, declared),
        ExprV::Shift { operand, .. } => first_unknown(*operand, declared),
        ExprV::Builtin { operand, .. } => first_unknown(*operand, declared),
        ExprV::Rotate { operand, .. } => first_unknown(*operand, declared),
        ExprV::Reverse { operand, .. } => first_unknown(*operand, declared),
        ExprV::Reshape { operand, .. } => first_unknown(*operand, declared),
        ExprV::Transpose { operand, .. } => first_unknown(*operand, declared),
        ExprV::Take { operand, .. } => first_unknown(*operand, declared),
        ExprV::Drop { operand, .. } => first_unknown(*operand, declared),
        ExprV::Index { operand, .. } => first_unknown(*operand, declared),
        ExprV::Lift { operand, .. } => first_unknown(*operand, declared),
        ExprV::Scan { operand, .. } => first_unknown(*operand, declared),
        ExprV::Reduce { operand, .. } => first_unknown(*operand, declared),
        ExprV::AuditTrace(operand) => first_unknown(*operand, declared),
    }
}

/// The first unknown name among a list of expressions, in order.
pub open spec fn first_unknown_in(args: Seq<ExprV>, declared: Set<Seq<char>>) -> Option<Seq<char>>
    decreases args,
{
    if args.len() == 0 {
        None
    } else {
        match first_unknown(args[0], declared) {
            Some(n) => Some(n),
            None => first_unknown_in(args.subrange(1, args.len() as int), declared),
        }
    }
}

proof fn lemma_first_unknown_in(args: Seq<ExprV>, declared: Set<Seq<char>>, i: int)
    requires
        0 <= i <= args.len(),
        forall|j: int| 0 <= j < i ==> first_unknown(#[trigger] args[j], declared) is None,
    ensures
        first_unknown_in(args, declared) == first_unknown_in(args.subrange(i, args.len() as int), declared),
    decreases i,
{
    if i == 0 {
        assert(args.subrange(0, args.len() as int) =~= args);
    } else {
        let rest = args.subrange(1, args.len() as int);
        assert(first_unknown(args[0], declared) is None);
        assert forall|j: int| 0 <= j < i - 1 implies first_unknown(#[trigger] rest[j], declared) is None by {
            assert(rest[j] == args[j + 1]);
        }
        lemma_first_unknown_in(rest, declared, i - 1);
        assert(rest.subrange(i - 1, rest.len() as int) =~= args.subrange(i, args.len() as int));
    }
}

/// The diagnostic for an undeclared space.
pub open spec fn unknown_space(name: Seq<char>, line: usize) -> DisruptionV {
    DisruptionV::SpaceErr { space_name: name, line }
}

/// Refuse an expression that reads a space nobody declared or wrote.
pub fn check_expr_spaces(expr: &Expr, declared: &NameSet, line: usize) -> (r: Result<(), HarmonyDisruption>)
    ensures
        match r {
            Ok(()) => first_unknown(expr@, declared@) is None,
            Err(e) => first_unknown(expr@, declared@) matches Some(n) && e@ == unknown_space(n, line),
        },
    decreases expr,
{
    match expr {
        Expr::Var(name) => {
            let chars = chars_of(name.as_str());
            if !is_tau(chars.as_slice()) && !declared.contains(name) {
                return Err(HarmonyDisruption::SpaceErr { space_name: name.clone(), line });
            }
            Ok(())
        },
        Expr::Number(_) => Ok(()),
        Expr::BinaryOp { lhs, rhs, .. } => {
            check_expr_spaces(lhs, declared, line)?;
            check_expr_spaces(rhs, declared, line)
        },
        Expr::Call { args, .. } => {
            proof {
                lemma_args_view_public(args@);
                assert(args_view(args@) =~= args@.map_values(|a: Expr| a@));
            }
            check_args_spaces(args.as_slice(), declared, line)
        },
        Expr::Shift { operand, .. } => check_expr_spaces(operand, declared, line),
        Expr::Builtin { operand, .. } => check_expr_spaces(operand, declared, line),
        Expr::Rotate { operand, .. } => check_expr_spaces(operand, declared, line),
        Expr::Reverse { operand, .. } => check_expr_spaces(operand, declared, line),
        Expr::Reshape { operand, .. } => check_expr_spaces(operand, declared, line),
        Expr::Transpose { operand, .. } => check_expr_spaces(operand, declared, line),
        Expr::Take { operand, .. } => check_expr_spaces(operand, declared, line),
        Expr::Drop { operand, .. } => check_expr_spaces(operand, declared, line),
        Expr::Index { operand, .. } => check_expr_spaces(operand, declared, line),
        Expr::Lift { operand, .. } => check_expr_spaces(operand, declared, line),
        Expr::Scan { operand, .. } => check_expr_spaces(operand, declared, line),
        Expr::Reduce { operand, .. } => check_expr_spaces(operand, declared, line),
        Expr::AuditTrace(operand) => check_expr_spaces(operand, declared, line),
    }
}

} // verus!

verus! {

/// Refuse a list of expressions, checked in order, that reads an
/// undeclared space.
pub fn check_args_spaces(args: &[Expr], declared: &NameSet, line: usize) -> (r: Result<(), HarmonyDisruption>)
    ensures
        match r {
            Ok(()) => first_unknown_in(args@.map_values(|a: Expr| a@), declared@) is None,
            Err(e) => first_unknown_in(args@.map_values(|a: Expr| a@), declared@) matches Some(n) && e@ == unknown_space(n, line),
        },
    decreases args@,
{
    let ghost views = args@.map_values(|a: Expr| a@);
    let mut i: usize = 0;
    while i < args.len()
        invariant
            i <= args.len(),
            views == args@.map_values(|a: Expr| a@),
            forall|j: int| 0 <= j < i ==> first_unknown(#[trigger] views[j], declared@) is None,
        decreases args.len() - i,
    {
        proof {
            assert(decreases_to!(args@ => args@[i as int]));
        }
        let checked = check_expr_spaces(&args[i], declared, line);
        match checked {
            Err(e) => {
                proof {
                    lemma_first_unknown_in(views, declared@, i as int);
                    let rest = views.subrange(i as int, views.len() as int);
                    assert(rest[0] == views[i as int]);
                }
                return Err(e);
            },
            Ok(()) => {},
        }
        i = i + 1;
    }
    proof {
        lemma_first_unknown_in(views, declared@, args.len() as int);
        assert(views.subrange(args.len() as int, args.len() as int) =~= Seq::<ExprV>::empty());
    }
    Ok(())
}

// ---------------------------------------------------------------- declarations

/// The name a statement gives a space: a declaration, a binding, or the
/// target of a flow or of a fixed point.
pub open spec fn named_space(s: StatementV) -> Option<Seq<char>> {
    match s {
        StatementV::SpaceDef { name, .. } => Some(name),
        StatementV::ExtBind { name, .. } => Some(name),
        StatementV::Flow { target: TargetV::Var(n), .. } => Some(n),
        StatementV::Iterate { target, .. } => Some(target),
        _ => None,
    }
}

/// The first statement, from `i` on, that gives a space a builtin's name.
pub open spec fn shadow_from(stmts: Seq<StatementV>, lines: Seq<usize>, i: int) -> Option<DisruptionV>
    decreases stmts.len() - i,
{
    if i < 0 || i >= stmts.len() {
        None
    } else {
        match named_space(stmts[i]) {
            Some(n) => if builtin_named(n) is Some {
                Some(DisruptionV::GlyphErr { symbol: n, line: line_at(lines, i), column: 1 })
            } else {
                shadow_from(stmts, lines, i + 1)
            },
            None => shadow_from(stmts, lines, i + 1),
        }
    }
}

/// Whether a statement declares the space `x`.
pub open spec fn declares(s: StatementV, x: Seq<char>) -> bool {
    declared_name(s) matches Some(p) && p.0 == x
}

/// Every name the program declares as a space or binds to an address.
pub open spec fn declared_set(stmts: Seq<StatementV>) -> Set<Seq<char>> {
    Set::new(|x: Seq<char>| exists|i: int| 0 <= i < stmts.len() && declares(#[trigger] stmts[i], x))
}

pub open spec fn output_name() -> Seq<char> {
    seq!['O', 'U', 'T', 'P', 'U', 'T']
}

/// Why a `⇒` into `target` has no starting value.
pub open spec fn no_start_detail(target: Seq<char>) -> Seq<char> {
    "`⇒ "@ + target + "` needs a starting value: write "@ + target + " with a flow first, e.g. `INPUT → "@ + target
        + "`"@
}

/// The first fault, from statement `i` on, in what the program reads: a
/// space nobody declared or wrote before it, or a `⇒` into a space no flow
/// has written yet.
pub open spec fn spaces_fault(
    stmts: Seq<StatementV>,
    lines: Seq<usize>,
    i: int,
    declared: Set<Seq<char>>,
    written: Set<Seq<char>>,
) -> Option<DisruptionV>
    decreases stmts.len() - i,
{
    if i < 0 || i >= stmts.len() {
        None
    } else {
        let line = line_at(lines, i);
        match stmts[i] {
            StatementV::Flow { src, target } => match first_unknown(src, declared) {
                Some(n) => Some(unknown_space(n, line)),
                None => match target {
                    TargetV::Var(v) => spaces_fault(stmts, lines, i + 1, declared.insert(v), written.insert(v)),
                    TargetV::Equilibrium => spaces_fault(stmts, lines, i + 1, declared, written.insert(output_name())),
                },
            },
            StatementV::Iterate { src, target } => match first_unknown(src, declared) {
                Some(n) => Some(unknown_space(n, line)),
                None => if !written.contains(target) {
                    Some(DisruptionV::IterateErr { detail: no_start_detail(target), line })
                } else {
                    spaces_fault(stmts, lines, i + 1, declared, written)
                },
            },
            StatementV::Constraint(e) => match first_unknown(e, declared) {
                Some(n) => Some(unknown_space(n, line)),
                None => spaces_fault(stmts, lines, i + 1, declared, written),
            },
            StatementV::AuditTrace(e) => match first_unknown(e, declared) {
                Some(n) => Some(unknown_space(n, line)),
                None => spaces_fault(stmts, lines, i + 1, declared, written),
            },
            _ => spaces_fault(stmts, lines, i + 1, declared, written),
        }
    }
}

/// What checking the spaces of a program finds first, if anything.
pub open spec fn declarations_fault(stmts: Seq<StatementV>, lines: Seq<usize>) -> Option<DisruptionV> {
    match shadow_from(stmts, lines, 0) {
        Some(e) => Some(e),
        None => spaces_fault(stmts, lines, 0, declared_set(stmts), Set::empty()),
    }
}

fn no_start_message(target: &String) -> (r: String)
    ensures
        r@ == no_start_detail(target@),
{
    let mut s = String::new();
    push_str(&mut s, "`⇒ ");
    push_str(&mut s, target.as_str());
    push_str(&mut s, "` needs a starting value: write ");
    push_str(&mut s, target.as_str());
    push_str(&mut s, " with a flow first, e.g. `INPUT → ");
    push_str(&mut s, target.as_str());
    push_str(&mut s, "`");
    s
}

/// The name of a space a statement gives, if it gives one.
fn space_named(s: &Statement) -> (r: Option<&String>)
    ensures
        match r {
            Some(n) => named_space(s@) == Some(n@),
            None => named_space(s@) is None,
        },
{
    match s {
        Statement::SpaceDef(d) => Some(&d.name),
        Statement::ExtBind(b) => Some(&b.space.name),
        Statement::Flow { target: FlowTarget::Var(n), .. } => Some(n),
        Statement::Iterate { target, .. } => Some(target),
        _ => None,
    }
}

/// Static space declaration validation: a space may not take a builtin's
/// name, every space read must have been declared or written before, and a
/// `⇒` may only iterate a space an earlier flow wrote.
pub fn validate_space_declarations(block: &ToposBlock) -> (r: Result<(), HarmonyDisruption>)
    ensures
        match r {
            Ok(()) => declarations_fault(statements_view(block.statements@), block.lines@) is None,
            Err(e) => declarations_fault(statements_view(block.statements@), block.lines@) == Some(e@),
        },
{
    let ghost stmts = statements_view(block.statements@);
    let ghost lines = block.lines@;
    let n = block.statements.len();
    let mut i: usize = 0;
    while i < n
        invariant
            i <= n,
            n == block.statements.len(),
            stmts == statements_view(block.statements@),
            lines == block.lines@,
            shadow_from(stmts, lines, 0) == shadow_from(stmts, lines, i as int),
        decreases n - i,
    {
        let stmt = &block.statements[i];
        match space_named(stmt) {
            Some(name) => {
                if BuiltinOp::from_name(name.as_str()).is_some() {
                    return Err(HarmonyDisruption::GlyphErr { symbol: name.clone(), line: block.line_of(i), column: 1 });
                }
            },
            None => {},
        }
        i = i + 1;
    }
    let mut declared = NameSet::new();
    let mut k: usize = 0;
    while k < n
        invariant
            k <= n,
            n == block.statements.len(),
            stmts == statements_view(block.statements@),
            declared@ == Set::new(|x: Seq<char>| exists|j: int| 0 <= j < k && declares(#[trigger] stmts[j], x)),
        decreases n - k,
    {
        let ghost before = declared@;
        match &block.statements[k] {
            Statement::SpaceDef(d) => {
                declared.insert(&d.name);
            },
            Statement::ExtBind(b) => {
                declared.insert(&b.space.name);
            },
            _ => {},
        }
        proof {
            assert(declared@ =~= Set::new(|x: Seq<char>| exists|j: int| 0 <= j < k + 1 && declares(#[trigger] stmts[j], x))) by {
                assert forall|x: Seq<char>| declared@.contains(x) implies exists|j: int| 0 <= j < k + 1 && declares(#[trigger] stmts[j], x) by {
                    if !before.contains(x) {
                        assert(declares(stmts[k as int], x));
                    }
                }
            }
        }
        k = k + 1;
    }
    assert(declared@ =~= declared_set(stmts));
    let mut written = NameSet::new();
    let output = string_from(&['O', 'U', 'T', 'P', 'U', 'T']);
    proof {
        assert(output@ =~= output_name());
    }
    let mut j: usize = 0;
    while j < n
        invariant
            j <= n,
            n == block.statements.len(),
            stmts == statements_view(block.statements@),
            lines == block.lines@,
            output@ == output_name(),
            shadow_from(stmts, lines, 0) is None,
            spaces_fault(stmts, lines, 0, declared_set(stmts), Set::empty()) == spaces_fault(
                stmts,
                lines,
                j as int,
                declared@,
                written@,
            ),
        decreases n - j,
    {
        let line = block.line_of(j);
        match &block.statements[j] {
            Statement::Flow { src, target } => {
                check_expr_spaces(src, &declared, line)?;
                match target {
                    FlowTarget::Var(v) => {
                        declared.insert(v);
                        written.insert(v);
                    },
                    FlowTarget::Equilibrium => {
                        written.insert(&output);
                    },
                }
            },
            Statement::Iterate { src, target } => {
                check_expr_spaces(src, &declared, line)?;
                if !written.contains(target) {
                    return Err(HarmonyDisruption::IterateErr { detail: no_start_message(target), line });
                }
            },
            Statement::Constraint(e) => {
                check_expr_spaces(e, &declared, line)?;
            },
            Statement::AuditTrace(e) => {
                check_expr_spaces(e, &declared, line)?;
            },
            _ => {},
        }
        j = j + 1;
    }
    Ok(())
}

/// Whether some flow reaches the equilibrium point `=`.
pub open spec fn has_equilibrium(stmts: Seq<StatementV>) -> bool {
    exists|i: int| 0 <= i < stmts.len() && (#[trigger] stmts[i]) matches StatementV::Flow { target: TargetV::Equilibrium, .. }
}

/// Static equilibrium point validation: a program must end in `=`.
pub fn validate_flow_equilibrium(block: &ToposBlock) -> (r: Result<(), HarmonyDisruption>)
    ensures
        r is Ok <==> has_equilibrium(statements_view(block.statements@)),
        r matches Err(e) ==> e@ == DisruptionV::FlowErr,
{
    let ghost stmts = statements_view(block.statements@);
    let mut i: usize = 0;
    while i < block.statements.len()
        invariant
            i <= block.statements.len(),
            stmts == statements_view(block.statements@),
            forall|j: int| 0 <= j < i ==> !((#[trigger] stmts[j]) matches StatementV::Flow { target: TargetV::Equilibrium, .. }),
        decreases block.statements.len() - i,
    {
        match &block.statements[i] {
            Statement::Flow { target: FlowTarget::Equilibrium, .. } => {
                assert(stmts[i as int] matches StatementV::Flow { target: TargetV::Equilibrium, .. });
                return Ok(());
            },
            _ => {},
        }
        i = i + 1;
    }
    Err(HarmonyDisruption::FlowErr)
}

} // verus!

verus! {

// ---------------------------------------------------------------- shapes

/// Why a take or drop is refused.
pub open spec fn take_detail(count: i64, dropping: bool, inner: Seq<usize>) -> Seq<char> {
    "`"@ + signed_decimal(count as int) + (if dropping {
        " ↓"@
    } else {
        " ↑"@
    }) + "` of "@ + debug_dims(inner) + " leaves nothing, or names an axis it has not got"@
}

/// Why a transpose is refused.
pub open spec fn transpose_detail(inner: Seq<usize>, axes: Option<Seq<usize>>) -> Seq<char> {
    "`⍉` needs a permutation of the "@ + decimal(inner.len()) + " axes of "@ + debug_dims(inner) + ", not "@
        + debug_dims(
        match axes {
            Some(a) => a,
            None => Seq::empty(),
        },
    )
}

/// The first shape fault inside an expression: operands that cannot
/// broadcast, a take or drop that leaves nothing, a transpose that is not a
/// permutation of its operand's axes.
pub open spec fn broadcast_fault(e: ExprV, shapes: Map<Seq<char>, Seq<usize>>, line: usize) -> Option<DisruptionV>
    decreases e,
{
    match e {
        ExprV::BinaryOp { lhs, rhs, .. } => match broadcast_fault(*lhs, shapes, line) {
            Some(f) => Some(f),
            None => match broadcast_fault(*rhs, shapes, line) {
                Some(f) => Some(f),
                None => match (shape_of_expr(*lhs, shapes), shape_of_expr(*rhs, shapes)) {
                    (Some(l), Some(r)) => if !broadcasts(l, r) {
                        Some(
                            DisruptionV::DimensionErr {
                                space_a: glyphs(*lhs),
                                shape_a: l,
                                space_b: glyphs(*rhs),
                                shape_b: r,
                                line,
                            },
                        )
                    } else {
                        None
                    },
                    _ => None,
                },
            },
        },
        ExprV::Shift { operand, .. } => broadcast_fault(*operand, shapes, line),
        ExprV::Reduce { operand, .. } => broadcast_fault(*operand, shapes, line),
        ExprV::Scan { operand, .. } => broadcast_fault(*operand, shapes, line),
        ExprV::Builtin { operand, .. } => broadcast_fault(*operand, shapes, line),
        ExprV::Lift { operand, .. } => broadcast_fault(*operand, shapes, line),
        ExprV::Index { operand, .. } => broadcast_fault(*operand, shapes, line),
        ExprV::Rotate { operand, .. } => broadcast_fault(*operand, shapes, line),
        ExprV::Reverse { operand, .. } => broadcast_fault(*operand, shapes, line),
        ExprV::Reshape { operand, .. } => broadcast_fault(*operand, shapes, line),
        ExprV::AuditTrace(operand) => broadcast_fault(*operand, shapes, line),
        ExprV::Call { args, .. } => broadcast_fault_in(args, shapes, line),
        ExprV::Take { count, axis, operand } => match broadcast_fault(*operand, shapes, line) {
            Some(f) => Some(f),
            None => match shape_of_expr(*operand, shapes) {
                Some(inner) => if taken_dims(inner, axis, count, false) is None {
                    Some(DisruptionV::LoweringErr { detail: take_detail(count, false, inner), line })
                } else {
                    None
                },
                None => None,
            },
        },
        ExprV::Drop { count, axis, operand } => match broadcast_fault(*operand, shapes, line) {
            Some(f) => Some(f),
            None => match shape_of_expr(*operand, shapes) {
                Some(inner) => if taken_dims(inner, axis, count, true) is None {
                    Some(DisruptionV::LoweringErr { detail: take_detail(count, true, inner), line })
                } else {
                    None
                },
                None => None,
            },
        },
        ExprV::Transpose { axes, operand } => match broadcast_fault(*operand, shapes, line) {
            Some(f) => Some(f),
            None => match shape_of_expr(*operand, shapes) {
                Some(inner) => if !is_permutation(asked_axes(inner.len() as int, axes), inner.len() as int) {
                    Some(DisruptionV::LoweringErr { detail: transpose_detail(inner, axes), line })
                } else {
                    None
                },
                None => None,
            },
        },
        ExprV::Var(_) => None,
        ExprV::Number(_) => None,
    }
}

/// The first shape fault among a call's arguments, in order.
pub open spec fn broadcast_fault_in(args: Seq<ExprV>, shapes: Map<Seq<char>, Seq<usize>>, line: usize) -> Option<DisruptionV>
    decreases args,
{
    if args.len() == 0 {
        None
    } else {
        match broadcast_fault(args[0], shapes, line) {
            Some(f) => Some(f),
            None => broadcast_fault_in(args.subrange(1, args.len() as int), shapes, line),
        }
    }
}

fn take_message(count: i64, dropping: bool, inner: &[usize]) -> (r: String)
    ensures
        r@ == take_detail(count, dropping, inner@),
{
    let mut s = String::new();
    push_str(&mut s, "`");
    push_signed(&mut s, count);
    if dropping {
        push_str(&mut s, " ↓");
    } else {
        push_str(&mut s, " ↑");
    }
    push_str(&mut s, "` of ");
    push_debug_dims(&mut s, inner);
    push_str(&mut s, " leaves nothing, or names an axis it has not got");
    s
}

fn transpose_message(inner: &[usize], axes: &Option<Vec<usize>>) -> (r: String)
    ensures
        r@ == transpose_detail(inner@, written_axes(*axes)),
{
    let mut s = String::new();
    push_str(&mut s, "`⍉` needs a permutation of the ");
    push_decimal(&mut s, inner.len() as u64);
    push_str(&mut s, " axes of ");
    push_debug_dims(&mut s, inner);
    push_str(&mut s, ", not ");
    match axes {
        Some(a) => push_debug_dims(&mut s, a.as_slice()),
        None => {
            let empty: Vec<usize> = Vec::new();
            push_debug_dims(&mut s, empty.as_slice());
            assert(empty@ =~= Seq::<usize>::empty());
        },
    }
    s
}

/// Refuse an expression whose operands do not fit together.
pub fn check_broadcast(expr: &Expr, shapes: &ShapeTable, line: usize) -> (r: Result<(), HarmonyDisruption>)
    ensures
        match r {
            Ok(()) => broadcast_fault(expr@, shapes@, line) is None,
            Err(e) => broadcast_fault(expr@, shapes@, line) == Some(e@),
        },
    decreases expr,
{
    match expr {
        Expr::BinaryOp { lhs, rhs, .. } => {
            check_broadcast(lhs, shapes, line)?;
            check_broadcast(rhs, shapes, line)?;
            let l = expr_shape(lhs, shapes);
            let r = expr_shape(rhs, shapes);
            match (l, r) {
                (Some(l), Some(r)) => {
                    if broadcast_shapes(l.as_slice(), r.as_slice()).is_none() {
                        return Err(HarmonyDisruption::DimensionErr {
                            space_a: expr_glyphs(lhs),
                            shape_a: l,
                            space_b: expr_glyphs(rhs),
                            shape_b: r,
                            line,
                        });
                    }
                    Ok(())
                },
                _ => Ok(()),
            }
        },
        Expr::Shift { operand, .. } => check_broadcast(operand, shapes, line),
        Expr::Reduce { operand, .. } => check_broadcast(operand, shapes, line),
        Expr::Scan { operand, .. } => check_broadcast(operand, shapes, line),
        Expr::Builtin { operand, .. } => check_broadcast(operand, shapes, line),
        Expr::Lift { operand, .. } => check_broadcast(operand, shapes, line),
        Expr::Index { operand, .. } => check_broadcast(operand, shapes, line),
        Expr::Rotate { operand, .. } => check_broadcast(operand, shapes, line),
        Expr::Reverse { operand, .. } => check_broadcast(operand, shapes, line),
        Expr::Reshape { operand, .. } => check_broadcast(operand, shapes, line),
        Expr::AuditTrace(operand) => check_broadcast(operand, shapes, line),
        Expr::Call { args, .. } => {
            proof {
                lemma_args_view_public(args@);
                assert(args_view(args@) =~= args@.map_values(|a: Expr| a@));
            }
            check_broadcast_args(args.as_slice(), shapes, line)
        },
        Expr::Take { count, axis, operand } => {
            check_broadcast(operand, shapes, line)?;
            match expr_shape(operand, shapes) {
                Some(inner) => {
                    if taken_shape(inner.as_slice(), *axis, *count, false).is_none() {
                        return Err(HarmonyDisruption::LoweringErr {
                            detail: take_message(*count, false, inner.as_slice()),
                            line,
                        });
                    }
                    Ok(())
                },
                None => Ok(()),
            }
        },
        Expr::Drop { count, axis, operand } => {
            check_broadcast(operand, shapes, line)?;
            match expr_shape(operand, shapes) {
                Some(inner) => {
                    if taken_shape(inner.as_slice(), *axis, *count, true).is_none() {
                        return Err(HarmonyDisruption::LoweringErr {
                            detail: take_message(*count, true, inner.as_slice()),
                            line,
                        });
                    }
                    Ok(())
                },
                None => Ok(()),
            }
        },
        Expr::Transpose { axes, operand } => {
            check_broadcast(operand, shapes, line)?;
            match expr_shape(operand, shapes) {
                Some(inner) => {
                    let perm = match axes {
                        Some(a) => transpose_axes(inner.len(), Some(a.as_slice())),
                        None => transpose_axes(inner.len(), None),
                    };
                    if perm.is_none() {
                        return Err(HarmonyDisruption::LoweringErr {
                            detail: transpose_message(inner.as_slice(), axes),
                            line,
                        });
                    }
                    Ok(())
                },
                None => Ok(()),
            }
        },
        Expr::Var(_) => Ok(()),
        Expr::Number(_) => Ok(()),
    }
}

proof fn lemma_broadcast_fault_in(args: Seq<ExprV>, shapes: Map<Seq<char>, Seq<usize>>, line: usize, i: int)
    requires
        0 <= i <= args.len(),
        forall|j: int| 0 <= j < i ==> broadcast_fault(#[trigger] args[j], shapes, line) is None,
    ensures
        broadcast_fault_in(args, shapes, line) == broadcast_fault_in(args.subrange(i, args.len() as int), shapes, line),
    decreases i,
{
    if i == 0 {
        assert(args.subrange(0, args.len() as int) =~= args);
    } else {
        let rest = args.subrange(1, args.len() as int);
        assert(broadcast_fault(args[0], shapes, line) is None);
        assert forall|j: int| 0 <= j < i - 1 implies broadcast_fault(#[trigger] rest[j], shapes, line) is None by {
            assert(rest[j] == args[j + 1]);
        }
        lemma_broadcast_fault_in(rest, shapes, line, i - 1);
        assert(rest.subrange(i - 1, rest.len() as int) =~= args.subrange(i, args.len() as int));
    }
}

/// Refuse a list of expressions, in order, whose operands do not fit.
pub fn check_broadcast_args(args: &[Expr], shapes: &ShapeTable, line: usize) -> (r: Result<(), HarmonyDisruption>)
    ensures
        match r {
            Ok(()) => broadcast_fault_in(args@.map_values(|a: Expr| a@), shapes@, line) is None,
            Err(e) => broadcast_fault_in(args@.map_values(|a: Expr| a@), shapes@, line) == Some(e@),
        },
    decreases args@,
{
    let ghost views = args@.map_values(|a: Expr| a@);
    let mut i: usize = 0;
    while i < args.len()
        invariant
            i <= args.len(),
            views == args@.map_values(|a: Expr| a@),
            forall|j: int| 0 <= j < i ==> broadcast_fault(#[trigger] views[j], shapes@, line) is None,
        decreases args.len() - i,
    {
        proof {
            assert(decreases_to!(args@ => args@[i as int]));
        }
        let checked = check_broadcast(&args[i], shapes, line);
        match checked {
            Err(e) => {
                proof {
                    lemma_broadcast_fault_in(views, shapes@, line, i as int);
                    let rest = views.subrange(i as int, views.len() as int);
                    assert(rest[0] == views[i as int]);
                }
                return Err(e);
            },
            Ok(()) => {},
        }
        i = i + 1;
    }
    proof {
        lemma_broadcast_fault_in(views, shapes@, line, args.len() as int);
        assert(views.subrange(args.len() as int, args.len() as int) =~= Seq::<ExprV>::empty());
    }
    Ok(())
}

} // verus!

verus! {

/// The shapes the first `n` statements declare; a later declaration of a
/// name replaces an earlier one.
pub open spec fn declared_shapes(stmts: Seq<StatementV>, n: int) -> Map<Seq<char>, Seq<usize>>
    decreases n,
{
    if n <= 0 {
        Map::empty()
    } else {
        let before = declared_shapes(stmts, n - 1);
        match declared_name(stmts[n - 1]) {
            Some(p) => before.insert(p.0, p.1),
            None => before,
        }
    }
}

/// The expression a statement sweeps, if it sweeps one.
pub open spec fn swept(s: StatementV) -> Option<ExprV> {
    match s {
        StatementV::Flow { src, .. } => Some(src),
        StatementV::Iterate { src, .. } => Some(src),
        StatementV::Constraint(src) => Some(src),
        _ => None,
    }
}

/// The first shape fault inside any swept expression, from statement `i`.
pub open spec fn first_broadcast_fault(
    stmts: Seq<StatementV>,
    lines: Seq<usize>,
    shapes: Map<Seq<char>, Seq<usize>>,
    i: int,
) -> Option<DisruptionV>
    decreases stmts.len() - i,
{
    if i < 0 || i >= stmts.len() {
        None
    } else {
        match swept(stmts[i]) {
            Some(src) => match broadcast_fault(src, shapes, line_at(lines, i)) {
                Some(f) => Some(f),
                None => first_broadcast_fault(stmts, lines, shapes, i + 1),
            },
            None => first_broadcast_fault(stmts, lines, shapes, i + 1),
        }
    }
}

/// The first flow, from statement `i`, whose value does not have the shape
/// of the space it writes: a `⇒` must produce exactly its space's shape, and
/// a flow into a space with a shape must match it, and a mismatch names
/// the value INPUT; a flow into a space without one gives it the value's
/// shape.
pub open spec fn flow_shape_fault(
    stmts: Seq<StatementV>,
    lines: Seq<usize>,
    shapes: Map<Seq<char>, Seq<usize>>,
    i: int,
) -> Option<DisruptionV>
    decreases stmts.len() - i,
{
    if i < 0 || i >= stmts.len() {
        None
    } else {
        let line = line_at(lines, i);
        match stmts[i] {
            StatementV::Iterate { src, target } => match shape_of_expr(src, shapes) {
                Some(body) => if shapes.contains_key(target) && body != shapes[target] {
                    Some(
                        DisruptionV::DimensionErr {
                            space_a: glyphs(src) + " ⇒"@,
                            shape_a: body,
                            space_b: target,
                            shape_b: shapes[target],
                            line,
                        },
                    )
                } else {
                    flow_shape_fault(stmts, lines, shapes, i + 1)
                },
                None => flow_shape_fault(stmts, lines, shapes, i + 1),
            },
            StatementV::Flow { src, target: TargetV::Var(v) } => match shape_of_expr(src, shapes) {
                Some(s) => if shapes.contains_key(v) {
                    if s != shapes[v] {
                        Some(
                            DisruptionV::DimensionErr {
                                space_a: "INPUT"@,
                                shape_a: s,
                                space_b: v,
                                shape_b: shapes[v],
                                line,
                            },
                        )
                    } else {
                        flow_shape_fault(stmts, lines, shapes, i + 1)
                    }
                } else {
                    flow_shape_fault(stmts, lines, shapes.insert(v, s), i + 1)
                },
                None => flow_shape_fault(stmts, lines, shapes, i + 1),
            },
            _ => flow_shape_fault(stmts, lines, shapes, i + 1),
        }
    }
}

/// What the shape check of a program finds first, if anything.
pub open spec fn dimensions_fault(stmts: Seq<StatementV>, lines: Seq<usize>) -> Option<DisruptionV> {
    let shapes = declared_shapes(stmts, stmts.len() as int);
    match first_broadcast_fault(stmts, lines, shapes, 0) {
        Some(f) => Some(f),
        None => flow_shape_fault(stmts, lines, shapes, 0),
    }
}

/// Whether two shapes are the same.
pub fn dims_eq(a: &[usize], b: &[usize]) -> (r: bool)
    ensures
        r == (a@ == b@),
{
    if a.len() != b.len() {
        return false;
    }
    let mut i: usize = 0;
    while i < a.len()
        invariant
            a.len() == b.len(),
            i <= a.len(),
            forall|j: int| 0 <= j < i ==> a@[j] == b@[j],
        decreases a.len() - i,
    {
        if a[i] != b[i] {
            return false;
        }
        i = i + 1;
    }
    assert(a@ =~= b@);
    true
}

/// Static shape check: operands must broadcast, takes, drops and
/// transposes must fit their operands, and every flow must produce the
/// shape of the space it writes.
pub fn validate_dimension_shapes(block: &ToposBlock) -> (r: Result<(), HarmonyDisruption>)
    ensures
        match r {
            Ok(()) => dimensions_fault(statements_view(block.statements@), block.lines@) is None,
            Err(e) => dimensions_fault(statements_view(block.statements@), block.lines@) == Some(e@),
        },
{
    let ghost stmts = statements_view(block.statements@);
    let ghost lines = block.lines@;
    let n = block.statements.len();
    let mut shapes = ShapeTable::new();
    let mut k: usize = 0;
    while k < n
        invariant
            k <= n,
            n == block.statements.len(),
            stmts == statements_view(block.statements@),
            shapes@ == declared_shapes(stmts, k as int),
        decreases n - k,
    {
        match &block.statements[k] {
            Statement::SpaceDef(d) => {
                shapes.insert(&d.name, d.dimensions.as_slice());
            },
            Statement::ExtBind(b) => {
                shapes.insert(&b.space.name, b.space.dimensions.as_slice());
            },
            _ => {},
        }
        k = k + 1;
    }
    let mut i: usize = 0;
    while i < n
        invariant
            i <= n,
            n == block.statements.len(),
            stmts == statements_view(block.statements@),
            lines == block.lines@,
            shapes@ == declared_shapes(stmts, n as int),
            first_broadcast_fault(stmts, lines, shapes@, 0) == first_broadcast_fault(stmts, lines, shapes@, i as int),
        decreases n - i,
    {
        let line = block.line_of(i);
        match &block.statements[i] {
            Statement::Flow { src, .. } => {
                check_broadcast(src, &shapes, line)?;
            },
            Statement::Iterate { src, .. } => {
                check_broadcast(src, &shapes, line)?;
            },
            Statement::Constraint(src) => {
                check_broadcast(src, &shapes, line)?;
            },
            _ => {},
        }
        i = i + 1;
    }
    let ghost declared = shapes@;
    let mut j: usize = 0;
    while j < n
        invariant
            j <= n,
            n == block.statements.len(),
            stmts == statements_view(block.statements@),
            lines == block.lines@,
            declared == declared_shapes(stmts, n as int),
            first_broadcast_fault(stmts, lines, declared, 0) is None,
            flow_shape_fault(stmts, lines, declared, 0) == flow_shape_fault(stmts, lines, shapes@, j as int),
        decreases n - j,
    {
        let line = block.line_of(j);
        match &block.statements[j] {
            Statement::Iterate { src, target } => {
                let body = expr_shape(src, &shapes);
                let held = shapes.get(target);
                match (body, held) {
                    (Some(body), Some(held)) => {
                        if !dims_eq(body.as_slice(), held.as_slice()) {
                            let mut name = expr_glyphs(src);
                            push_str(&mut name, " ⇒");
                            return Err(HarmonyDisruption::DimensionErr {
                                space_a: name,
                                shape_a: body,
                                space_b: target.clone(),
                                shape_b: held,
                                line,
                            });
                        }
                    },
                    _ => {},
                }
            },
            Statement::Flow { src, target: FlowTarget::Var(v) } => {
                let s = expr_shape(src, &shapes);
                match s {
                    Some(s) => {
                        match shapes.get(v) {
                            Some(held) => {
                                if !dims_eq(s.as_slice(), held.as_slice()) {
                                    let mut input = String::new();
                                    push_str(&mut input, "INPUT");
                                    return Err(HarmonyDisruption::DimensionErr {
                                        space_a: input,
                                        shape_a: s,
                                        space_b: v.clone(),
                                        shape_b: held,
                                        line,
                                    });
                                }
                            },
                            None => {
                                shapes.insert(v, s.as_slice());
                            },
                        }
                    },
                    None => {},
                }
            },
            _ => {},
        }
        j = j + 1;
    }
    Ok(())
}

} // verus!
