//! What each target makes of an operator: the instruction, the function or
//! the flag that stands for it, whatever its operands lowered to.

use vstd::prelude::*;
use crate::ast::{BinaryOpKind, BuiltinOp, ExprV, FoldOp};
use crate::llvm::{
    accumulated, bool_ty_text, emit_spec, fold_store_text, fold_tail_text, identity_bits, intrinsic_text, ty_text, vname, zero_text, BuffersV, Emitted,
    GenV,
};
use crate::llvm_mode::element_type;
use crate::llvm_mode::Mode;
use crate::error::DisruptionV;
use crate::jax::{axis_or_default, jax_expr, jax_shape};
use crate::sv::lower_expr;
use crate::text::decimal;

verus! {

/// An arithmetic operator lowers to one LLVM instruction of its own kind:
/// `+` to `fadd`, `-` to `fsub`, `×` to `fmul`, `/` to `fdiv`. Once both
/// operands have lowered, left first, the instruction takes their values in
/// that order, at the element type of the mode, under the next fresh name.
pub proof fn law_arithmetic_is_its_instruction(
    g: GenV,
    e: ExprV,
    b: BuffersV,
    idx: Seq<char>,
    mode: Mode,
    result: Seq<usize>,
    lifts: Seq<usize>,
    ir: Seq<char>,
    c: int,
)
    ensures
        match e {
            ExprV::BinaryOp { op, lhs, rhs } => {
                let l = emit_spec(g, *lhs, b, idx, mode, result, lifts, ir, c);
                let r = emit_spec(g, *rhs, b, idx, mode, result, lifts, l.ir, l.next);
                let inst = if op is Add {
                    "fadd"@
                } else if op is Sub {
                    "fsub"@
                } else if op is Mul {
                    "fmul"@
                } else {
                    "fdiv"@
                };
                (op is Add || op is Sub || op is Mul || op is Div) && l.res is Ok && r.res is Ok ==> emit_spec(
                    g,
                    e,
                    b,
                    idx,
                    mode,
                    result,
                    lifts,
                    ir,
                    c,
                ) == (Emitted {
                    res: Ok(vname(r.next + 1)),
                    ir: r.ir + "  "@ + vname(r.next + 1) + " = "@ + inst + " "@ + ty_text(mode) + " "@
                        + l.res->Ok_0 + ", "@ + r.res->Ok_0 + "\n"@,
                    next: r.next + 1,
                })
            },
            _ => true,
        },
{
    if let ExprV::BinaryOp { op, lhs, rhs } = e {
        assert(emit_spec(g, e, b, idx, mode, result, lifts, ir, c) == crate::llvm::binary_spec(
            g,
            e,
            b,
            idx,
            mode,
            result,
            lifts,
            ir,
            c,
        ));
    }
}

/// A comparison lowers to an ordered `fcmp` of its own predicate: `>` to
/// `ogt`, `<` to `olt`, `≥` to `oge`, `≤` to `ole`, `=` to `oeq`; where it
/// holds the left value is kept, elsewhere zero.
pub proof fn law_comparison_is_its_predicate(
    g: GenV,
    e: ExprV,
    b: BuffersV,
    idx: Seq<char>,
    mode: Mode,
    result: Seq<usize>,
    lifts: Seq<usize>,
    ir: Seq<char>,
    c: int,
)
    ensures
        match e {
            ExprV::BinaryOp { op, lhs, rhs } => {
                let l = emit_spec(g, *lhs, b, idx, mode, result, lifts, ir, c);
                let r = emit_spec(g, *rhs, b, idx, mode, result, lifts, l.ir, l.next);
                let pred = if op is Gt {
                    "ogt"@
                } else if op is Lt {
                    "olt"@
                } else if op is Gte {
                    "oge"@
                } else if op is Lte {
                    "ole"@
                } else {
                    "oeq"@
                };
                let out = vname(r.next + 1);
                let flag = vname(r.next + 2);
                let ty = ty_text(mode);
                (op is Gt || op is Lt || op is Gte || op is Lte || op is Eq) && l.res is Ok && r.res is Ok ==> emit_spec(
                    g,
                    e,
                    b,
                    idx,
                    mode,
                    result,
                    lifts,
                    ir,
                    c,
                ) == (Emitted {
                    res: Ok(out),
                    ir: r.ir + "  "@ + flag + " = fcmp "@ + pred + " "@ + ty + " "@ + l.res->Ok_0 + ", "@ + r.res->Ok_0 + "\n"@
                        + "  "@ + out + " = select "@ + bool_ty_text(mode) + " "@ + flag + ", "@ + ty + " "@ + l.res->Ok_0
                        + ", "@ + ty + " "@ + zero_text(mode) + "\n"@,
                    next: r.next + 2,
                })
            },
            _ => true,
        },
{
    if let ExprV::BinaryOp { op, lhs, rhs } = e {
        assert(emit_spec(g, e, b, idx, mode, result, lifts, ir, c) == crate::llvm::binary_spec(
            g,
            e,
            b,
            idx,
            mode,
            result,
            lifts,
            ir,
            c,
        ));
    }
}

/// A fold calls the `jax.numpy` reduction of its own kind, and a scan the
/// running one: a sum `jnp.sum` / `jnp.cumsum`, a product `jnp.prod` /
/// `jnp.cumprod`, a maximum `jnp.max` / `lax.cummax`, a minimum `jnp.min` /
/// `lax.cummin`; along the axis written, or the operand's default axis.
pub proof fn law_fold_calls_its_reduction(
    e: ExprV,
    line: usize,
    shapes: Map<Seq<char>, Seq<usize>>,
    tau: Seq<char>,
    nums: Map<Seq<char>, Seq<char>>,
)
    ensures
        match e {
            ExprV::Reduce { op, axis, operand } => {
                let s = jax_shape(*operand, line, shapes);
                let x = jax_expr(*operand, line, shapes, tau, nums);
                let name = if op is Sum {
                    "jnp.sum"@
                } else if op is Product {
                    "jnp.prod"@
                } else if op is Max {
                    "jnp.max"@
                } else {
                    "jnp.min"@
                };
                s is Ok && x is Ok ==> jax_expr(e, line, shapes, tau, nums) == Ok::<Seq<char>, DisruptionV>(
                    name + "("@ + x->Ok_0 + ", axis="@ + decimal(axis_or_default(axis, s->Ok_0)) + ")"@,
                )
            },
            ExprV::Scan { op, axis, operand } => {
                let s = jax_shape(*operand, line, shapes);
                let x = jax_expr(*operand, line, shapes, tau, nums);
                let name = if op is Sum {
                    "jnp.cumsum"@
                } else if op is Product {
                    "jnp.cumprod"@
                } else if op is Max {
                    "lax.cummax"@
                } else {
                    "lax.cummin"@
                };
                s is Ok && x is Ok ==> jax_expr(e, line, shapes, tau, nums) == Ok::<Seq<char>, DisruptionV>(
                    name + "("@ + x->Ok_0 + ", axis="@ + decimal(axis_or_default(axis, s->Ok_0)) + ")"@,
                )
            },
            _ => true,
        },
{
}

/// In `jax.numpy` text each arithmetic operator and each extreme is its own:
/// `+ - * /` between the operands, `jnp.maximum` for `⌈` and `jnp.minimum`
/// for `⌊`, the left operand first.
pub proof fn law_jax_operator_is_its_own(
    e: ExprV,
    line: usize,
    shapes: Map<Seq<char>, Seq<usize>>,
    tau: Seq<char>,
    nums: Map<Seq<char>, Seq<char>>,
)
    ensures
        match e {
            ExprV::BinaryOp { op, lhs, rhs } => {
                let lt = jax_expr(*lhs, line, shapes, tau, nums);
                let rt = jax_expr(*rhs, line, shapes, tau, nums);
                let t = jax_expr(e, line, shapes, tau, nums);
                lt is Ok && rt is Ok ==> {
                    let l = lt->Ok_0;
                    let r = rt->Ok_0;
                    &&& op is Add ==> t == Ok::<Seq<char>, DisruptionV>("("@ + l + " + "@ + r + ")"@)
                    &&& op is Sub ==> t == Ok::<Seq<char>, DisruptionV>("("@ + l + " - "@ + r + ")"@)
                    &&& op is Mul ==> t == Ok::<Seq<char>, DisruptionV>("("@ + l + " * "@ + r + ")"@)
                    &&& op is Div ==> t == Ok::<Seq<char>, DisruptionV>("("@ + l + " / "@ + r + ")"@)
                    &&& op is Max ==> t == Ok::<Seq<char>, DisruptionV>("jnp.maximum("@ + l + ", "@ + r + ")"@)
                    &&& op is Min ==> t == Ok::<Seq<char>, DisruptionV>("jnp.minimum("@ + l + ", "@ + r + ")"@)
                }
            },
            _ => true,
        },
{
}

/// In SystemVerilog each operator is its own: `+ - * /` between the
/// operands; `⌈` and `⌊` the extreme with the `greater` flag set and clear;
/// a comparison masks the left value by its own relation; `|` the residue.
pub proof fn law_sv_operator_is_its_own(
    e: ExprV,
    shapes: Map<Seq<char>, Seq<usize>>,
    chains: Seq<(Seq<char>, Seq<char>, usize, usize)>,
    stage: usize,
    tau: u64,
    numbers: Map<Seq<char>, u64>,
    line: usize,
)
    ensures
        match e {
            ExprV::BinaryOp { op, lhs, rhs } => {
                let lt = lower_expr(*lhs, shapes, chains, stage, tau, numbers, line);
                let rt = lower_expr(*rhs, shapes, chains, stage, tau, numbers, line);
                let t = lower_expr(e, shapes, chains, stage, tau, numbers, line);
                lt is Ok && rt is Ok ==> {
                    let l = lt->Ok_0;
                    let r = rt->Ok_0;
                    &&& op is Add ==> t == Ok::<Seq<char>, DisruptionV>("("@ + l + " + "@ + r + ")"@)
                    &&& op is Sub ==> t == Ok::<Seq<char>, DisruptionV>("("@ + l + " - "@ + r + ")"@)
                    &&& op is Mul ==> t == Ok::<Seq<char>, DisruptionV>("("@ + l + " * "@ + r + ")"@)
                    &&& op is Div ==> t == Ok::<Seq<char>, DisruptionV>("("@ + l + " / "@ + r + ")"@)
                    &&& op is Max ==> t == Ok::<Seq<char>, DisruptionV>("rho_extreme("@ + l + ", "@ + r + ", 1'b1)"@)
                    &&& op is Min ==> t == Ok::<Seq<char>, DisruptionV>("rho_extreme("@ + l + ", "@ + r + ", 1'b0)"@)
                    &&& op is Gt ==> t == Ok::<Seq<char>, DisruptionV>("rho_mask("@ + l + " > "@ + r + ", "@ + l + ")"@)
                    &&& op is Lt ==> t == Ok::<Seq<char>, DisruptionV>("rho_mask("@ + l + " < "@ + r + ", "@ + l + ")"@)
                    &&& op is Gte ==> t == Ok::<Seq<char>, DisruptionV>("rho_mask("@ + l + " >= "@ + r + ", "@ + l + ")"@)
                    &&& op is Lte ==> t == Ok::<Seq<char>, DisruptionV>("rho_mask("@ + l + " <= "@ + r + ", "@ + l + ")"@)
                    &&& op is Eq ==> t == Ok::<Seq<char>, DisruptionV>("rho_mask("@ + l + " == "@ + r + ", "@ + l + ")"@)
                    &&& op is Residue ==> t == Ok::<Seq<char>, DisruptionV>("rho_residue("@ + l + ", "@ + r + ")"@)
                }
            },
            _ => true,
        },
{
}

/// A named function that LLVM has lowers to a call of its own intrinsic:
/// `abs` to `fabs`, `exp`, `log`, `sqrt`, `sin` and `cos` to theirs, on the
/// operand's value, under the next fresh name.
pub proof fn law_function_is_its_intrinsic(
    g: GenV,
    e: ExprV,
    b: BuffersV,
    idx: Seq<char>,
    mode: Mode,
    result: Seq<usize>,
    lifts: Seq<usize>,
    ir: Seq<char>,
    c: int,
)
    ensures
        match e {
            ExprV::Builtin { op, operand } => {
                let v = emit_spec(g, *operand, b, idx, mode, result, lifts, ir, c);
                let name = if op is Abs {
                    "fabs"@
                } else if op is Exp {
                    "exp"@
                } else if op is Log {
                    "log"@
                } else if op is Sqrt {
                    "sqrt"@
                } else if op is Sin {
                    "sin"@
                } else {
                    "cos"@
                };
                let out = vname(v.next + 1);
                let ty = ty_text(mode);
                (op is Abs || op is Exp || op is Log || op is Sqrt || op is Sin || op is Cos) && v.res is Ok ==> emit_spec(
                    g,
                    e,
                    b,
                    idx,
                    mode,
                    result,
                    lifts,
                    ir,
                    c,
                ) == (Emitted {
                    res: Ok(out),
                    ir: v.ir + "  "@ + out + " = call "@ + ty + " "@ + intrinsic_text(mode, name) + "("@ + ty + " "@
                        + v.res->Ok_0 + ")\n"@,
                    next: v.next + 1,
                })
            },
            _ => true,
        },
{
    if let ExprV::Builtin { op, operand } = e {
        if !(op is Indicator) {
            assert(emit_spec(g, e, b, idx, mode, result, lifts, ir, c) == crate::llvm::builtin_spec(
                g,
                e,
                b,
                idx,
                mode,
                result,
                lifts,
                ir,
                c,
            ));
        }
    }
}

/// A fold starts each line from its operator's identity: a sum from 0, a
/// product from 1, a maximum from -∞ and a minimum from +∞ (as IEEE bits).
pub proof fn law_fold_starts_from_its_identity(op: FoldOp)
    ensures
        op is Sum ==> identity_bits(op) == 0u64,
        op is Product ==> identity_bits(op) == 0x3FF0000000000000u64,
        op is Max ==> identity_bits(op) == 0xFFF0000000000000u64,
        op is Min ==> identity_bits(op) == 0x7FF0000000000000u64,
{
}

/// A fold takes each element into its accumulator by its own operator: a
/// sum by `fadd`, a product by `fmul`; a maximum keeps the element where it
/// is greater (`ogt`), a minimum where it is less (`olt`). What follows is
/// the same for every operator.
pub proof fn law_fold_accumulates_by_its_operator(
    g: GenV,
    op: FoldOp,
    running: bool,
    pl: Seq<char>,
    l: Seq<char>,
    buffer: Seq<char>,
    element: Seq<char>,
    ir: Seq<char>,
)
    ensures
        ({
            let elem = element_type(g.precision);
            let step = if op is Sum {
                "  "@ + pl + ".acc.next = fadd "@ + elem + " "@ + pl + ".acc, "@ + element + "\n"@
            } else if op is Product {
                "  "@ + pl + ".acc.next = fmul "@ + elem + " "@ + pl + ".acc, "@ + element + "\n"@
            } else {
                "  "@ + pl + ".win = fcmp "@ + (if op is Max {
                    "ogt"@
                } else {
                    "olt"@
                }) + " "@ + elem + " "@ + element + ", "@ + pl + ".acc\n"@ + "  "@ + pl + ".acc.next = select i1 "@ + pl
                    + ".win, "@ + elem + " "@ + element + ", "@ + elem + " "@ + pl + ".acc\n"@
            };
            fold_tail_text(g, op, running, pl, l, buffer, element, ir) == fold_store_text(g, running, pl, l, buffer, ir + step)
        }),
{
    let elem = element_type(g.precision);
    let step = if op is Sum {
        "  "@ + pl + ".acc.next = fadd "@ + elem + " "@ + pl + ".acc, "@ + element + "\n"@
    } else if op is Product {
        "  "@ + pl + ".acc.next = fmul "@ + elem + " "@ + pl + ".acc, "@ + element + "\n"@
    } else {
        "  "@ + pl + ".win = fcmp "@ + (if op is Max {
            "ogt"@
        } else {
            "olt"@
        }) + " "@ + elem + " "@ + element + ", "@ + pl + ".acc\n"@ + "  "@ + pl + ".acc.next = select i1 "@ + pl
            + ".win, "@ + elem + " "@ + element + ", "@ + elem + " "@ + pl + ".acc\n"@
    };
    // Appending the pieces of the step to `ir` one by one is appending the step.
    let cmp = if op is Max {
        "ogt"@
    } else {
        "olt"@
    };
    if op is Sum {
        let mut t = "  "@;
        vstd::seq_lib::lemma_concat_associative(ir, t, pl);
        t = t + pl;
        vstd::seq_lib::lemma_concat_associative(ir, t, ".acc.next = fadd "@);
        t = t + ".acc.next = fadd "@;
        vstd::seq_lib::lemma_concat_associative(ir, t, elem);
        t = t + elem;
        vstd::seq_lib::lemma_concat_associative(ir, t, " "@);
        t = t + " "@;
        vstd::seq_lib::lemma_concat_associative(ir, t, pl);
        t = t + pl;
        vstd::seq_lib::lemma_concat_associative(ir, t, ".acc, "@);
        t = t + ".acc, "@;
        vstd::seq_lib::lemma_concat_associative(ir, t, element);
        t = t + element;
        vstd::seq_lib::lemma_concat_associative(ir, t, "\n"@);
        t = t + "\n"@;
    } else if op is Product {
        let mut t = "  "@;
        vstd::seq_lib::lemma_concat_associative(ir, t, pl);
        t = t + pl;
        vstd::seq_lib::lemma_concat_associative(ir, t, ".acc.next = fmul "@);
        t = t + ".acc.next = fmul "@;
        vstd::seq_lib::lemma_concat_associative(ir, t, elem);
        t = t + elem;
        vstd::seq_lib::lemma_concat_associative(ir, t, " "@);
        t = t + " "@;
        vstd::seq_lib::lemma_concat_associative(ir, t, pl);
        t = t + pl;
        vstd::seq_lib::lemma_concat_associative(ir, t, ".acc, "@);
        t = t + ".acc, "@;
        vstd::seq_lib::lemma_concat_associative(ir, t, element);
        t = t + element;
        vstd::seq_lib::lemma_concat_associative(ir, t, "\n"@);
        t = t + "\n"@;
    } else {
        let mut t = "  "@;
        vstd::seq_lib::lemma_concat_associative(ir, t, pl);
        t = t + pl;
        vstd::seq_lib::lemma_concat_associative(ir, t, ".win = fcmp "@);
        t = t + ".win = fcmp "@;
        vstd::seq_lib::lemma_concat_associative(ir, t, cmp);
        t = t + cmp;
        vstd::seq_lib::lemma_concat_associative(ir, t, " "@);
        t = t + " "@;
        vstd::seq_lib::lemma_concat_associative(ir, t, elem);
        t = t + elem;
        vstd::seq_lib::lemma_concat_associative(ir, t, " "@);
        t = t + " "@;
        vstd::seq_lib::lemma_concat_associative(ir, t, element);
        t = t + element;
        vstd::seq_lib::lemma_concat_associative(ir, t, ", "@);
        t = t + ", "@;
        vstd::seq_lib::lemma_concat_associative(ir, t, pl);
        t = t + pl;
        vstd::seq_lib::lemma_concat_associative(ir, t, ".acc\n"@);
        t = t + ".acc\n"@;
        vstd::seq_lib::lemma_concat_associative(ir, t, "  "@);
        t = t + "  "@;
        vstd::seq_lib::lemma_concat_associative(ir, t, pl);
        t = t + pl;
        vstd::seq_lib::lemma_concat_associative(ir, t, ".acc.next = select i1 "@);
        t = t + ".acc.next = select i1 "@;
        vstd::seq_lib::lemma_concat_associative(ir, t, pl);
        t = t + pl;
        vstd::seq_lib::lemma_concat_associative(ir, t, ".win, "@);
        t = t + ".win, "@;
        vstd::seq_lib::lemma_concat_associative(ir, t, elem);
        t = t + elem;
        vstd::seq_lib::lemma_concat_associative(ir, t, " "@);
        t = t + " "@;
        vstd::seq_lib::lemma_concat_associative(ir, t, element);
        t = t + element;
        vstd::seq_lib::lemma_concat_associative(ir, t, ", "@);
        t = t + ", "@;
        vstd::seq_lib::lemma_concat_associative(ir, t, elem);
        t = t + elem;
        vstd::seq_lib::lemma_concat_associative(ir, t, " "@);
        t = t + " "@;
        vstd::seq_lib::lemma_concat_associative(ir, t, pl);
        t = t + pl;
        vstd::seq_lib::lemma_concat_associative(ir, t, ".acc\n"@);
        t = t + ".acc\n"@;
    }
    assert(accumulated(g, op, pl, element, ir) == ir + step);
}

/// In `jax.numpy` text a named function calls its own: `jnp.exp`, `jnp.log`,
/// `jnp.sqrt`, `jnp.sin`, `jnp.cos`, `jnp.abs`, `jnp.floor`, `jnp.ceil`.
pub proof fn law_jax_function_is_its_own(
    e: ExprV,
    line: usize,
    shapes: Map<Seq<char>, Seq<usize>>,
    tau: Seq<char>,
    nums: Map<Seq<char>, Seq<char>>,
)
    ensures
        match e {
            ExprV::Builtin { op, operand } => {
                let xt = jax_expr(*operand, line, shapes, tau, nums);
                let t = jax_expr(e, line, shapes, tau, nums);
                xt is Ok ==> {
                    let x = xt->Ok_0;
                    &&& op is Exp ==> t == Ok::<Seq<char>, DisruptionV>("jnp.exp"@ + "("@ + x + ")"@)
                    &&& op is Log ==> t == Ok::<Seq<char>, DisruptionV>("jnp.log"@ + "("@ + x + ")"@)
                    &&& op is Sqrt ==> t == Ok::<Seq<char>, DisruptionV>("jnp.sqrt"@ + "("@ + x + ")"@)
                    &&& op is Sin ==> t == Ok::<Seq<char>, DisruptionV>("jnp.sin"@ + "("@ + x + ")"@)
                    &&& op is Cos ==> t == Ok::<Seq<char>, DisruptionV>("jnp.cos"@ + "("@ + x + ")"@)
                    &&& op is Abs ==> t == Ok::<Seq<char>, DisruptionV>("jnp.abs"@ + "("@ + x + ")"@)
                    &&& op is Floor ==> t == Ok::<Seq<char>, DisruptionV>("jnp.floor"@ + "("@ + x + ")"@)
                    &&& op is Ceil ==> t == Ok::<Seq<char>, DisruptionV>("jnp.ceil"@ + "("@ + x + ")"@)
                }
            },
            _ => true,
        },
{
}

/// In SystemVerilog a named function calls its own: `$exp`, `$ln` for the
/// logarithm, `$sqrt`, `$sin`, `$cos`, `$floor`, `$ceil`; the absolute
/// value, the indicator and the roll call the pipeline's helpers.
pub proof fn law_sv_function_is_its_own(
    e: ExprV,
    shapes: Map<Seq<char>, Seq<usize>>,
    chains: Seq<(Seq<char>, Seq<char>, usize, usize)>,
    stage: usize,
    tau: u64,
    numbers: Map<Seq<char>, u64>,
    line: usize,
)
    ensures
        match e {
            ExprV::Builtin { op, operand } => {
                let xt = lower_expr(*operand, shapes, chains, stage, tau, numbers, line);
                let t = lower_expr(e, shapes, chains, stage, tau, numbers, line);
                xt is Ok ==> {
                    let x = xt->Ok_0;
                    &&& op is Exp ==> t == Ok::<Seq<char>, DisruptionV>("$exp("@ + x + ")"@)
                    &&& op is Log ==> t == Ok::<Seq<char>, DisruptionV>("$ln("@ + x + ")"@)
                    &&& op is Sqrt ==> t == Ok::<Seq<char>, DisruptionV>("$sqrt("@ + x + ")"@)
                    &&& op is Sin ==> t == Ok::<Seq<char>, DisruptionV>("$sin("@ + x + ")"@)
                    &&& op is Cos ==> t == Ok::<Seq<char>, DisruptionV>("$cos("@ + x + ")"@)
                    &&& op is Abs ==> t == Ok::<Seq<char>, DisruptionV>("rho_abs("@ + x + ")"@)
                    &&& op is Indicator ==> t == Ok::<Seq<char>, DisruptionV>("rho_ind("@ + x + ")"@)
                    &&& op is Roll ==> t == Ok::<Seq<char>, DisruptionV>("rho_roll("@ + x + ")"@)
                    &&& op is Floor ==> t == Ok::<Seq<char>, DisruptionV>("$floor("@ + x + ")"@)
                    &&& op is Ceil ==> t == Ok::<Seq<char>, DisruptionV>("$ceil("@ + x + ")"@)
                }
            },
            _ => true,
        },
{
}

} // verus!
