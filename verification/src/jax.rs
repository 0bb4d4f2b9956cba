//! Expressions as the JAX target writes them: `jax.numpy` calls, one per
//! construct, with each literal and 𝜏 spelled as the caller gives them.

use vstd::prelude::*;
use crate::ast::{
    asked_axes, default_axis, default_axis_of, is_permutation, lemma_permutation_inverse, place_of, shape_of_expr, transpose_axes,
    whole_exponent, whole_exponent_of, BinaryOpKind, BuiltinOp, Expr, ExprV, FoldOp, ShapeTable, ShiftDir,
};
use crate::error::{disruption_view, DisruptionV, HarmonyDisruption};
use crate::llvm::{pair_get, pair_map};
use crate::python::{py_name, py_name_spec, py_tuple, unsupported};
use crate::text::{chars_of, decimal, dims_joined, is_tau, is_tau_name, push_decimal, push_signed, push_str, signed_decimal};
use crate::ast::{line_at, statement_view, statements_view, FlowTarget, Statement, StatementV, TargetV, ToposBlock};
use crate::numeric::Precision;
use crate::order::in_order;
use crate::python::{hex_lower, push_lower_hex};
use crate::sv::{names_of, target_name};

verus! {

/// The Python spelling of each literal a program writes, by the literal's
/// text.
pub struct PyLiterals {
    entries: Vec<(String, String)>,
}

impl View for PyLiterals {
    type V = Map<Seq<char>, Seq<char>>;

    closed spec fn view(&self) -> Map<Seq<char>, Seq<char>> {
        pair_map(self.entries@)
    }
}

impl PyLiterals {
    pub fn new() -> (r: PyLiterals)
        ensures
            r@ == Map::<Seq<char>, Seq<char>>::empty(),
    {
        PyLiterals { entries: Vec::new() }
    }

    /// Spell the literal `text` as `spelling`.
    pub fn insert(&mut self, text: &str, spelling: &str)
        ensures
            final(self)@ == old(self)@.insert(text@, spelling@),
    {
        let mut key = String::new();
        push_str(&mut key, text);
        let mut value = String::new();
        push_str(&mut value, spelling);
        self.entries.push((key, value));
        proof {
            assert(self.entries@.drop_last() =~= old(self).entries@);
        }
    }

    /// The spelling of the literal `text`, if it has one.
    pub fn get(&self, text: &String) -> (r: Option<String>)
        ensures
            match r {
                Some(v) => self@.contains_key(text@) && self@[text@] == v@,
                None => !self@.contains_key(text@),
            },
    {
        pair_get(&self.entries, text)
    }
}

/// A construct the JAX subset lacks, as a diagnostic.
pub open spec fn unsupported_v(what: Seq<char>, line: usize) -> DisruptionV {
    DisruptionV::LoweringErr { detail: what + " is not in the JAX subset (--emit-jax)"@, line }
}

/// A shape as a Python tuple.
pub open spec fn tuple_text(s: Seq<usize>) -> Seq<char> {
    "("@ + dims_joined(s, seq![',', ' ']) + ",)"@
}

/// The shape of what `e` produces, which every axis operation needs.
pub open spec fn jax_shape(e: ExprV, line: usize, shapes: Map<Seq<char>, Seq<usize>>) -> Result<Seq<usize>, DisruptionV> {
    match shape_of_expr(e, shapes) {
        Some(s) => Ok(s),
        None => Err(unsupported_v("an expression with no shape"@, line)),
    }
}

/// The axis an operation works along: the one written, or the default.
pub open spec fn axis_or_default(axis: Option<usize>, shape: Seq<usize>) -> nat {
    match axis {
        Some(a) => a as nat,
        None => default_axis_of(shape) as nat,
    }
}

/// A binary operation on two lowered operands; a power by a small whole
/// literal is repeated products.
pub open spec fn binary_py(op: BinaryOpKind, l: Seq<char>, r: Seq<char>, whole: Option<int>) -> Seq<char> {
    match op {
        BinaryOpKind::Add => "("@ + l + " + "@ + r + ")"@,
        BinaryOpKind::Sub => "("@ + l + " - "@ + r + ")"@,
        BinaryOpKind::Mul => "("@ + l + " * "@ + r + ")"@,
        BinaryOpKind::Div => "("@ + l + " / "@ + r + ")"@,
        BinaryOpKind::Pow => match whole {
            Some(n) => "_ipow("@ + l + ", "@ + signed_decimal(n) + ")"@,
            None => "jnp.power("@ + l + ", "@ + r + ")"@,
        },
        BinaryOpKind::Gt => "_mask("@ + l + " > "@ + r + ", "@ + l + ")"@,
        BinaryOpKind::Lt => "_mask("@ + l + " < "@ + r + ", "@ + l + ")"@,
        BinaryOpKind::Gte => "_mask("@ + l + " >= "@ + r + ", "@ + l + ")"@,
        BinaryOpKind::Lte => "_mask("@ + l + " <= "@ + r + ", "@ + l + ")"@,
        BinaryOpKind::Eq => "_mask("@ + l + " == "@ + r + ", "@ + l + ")"@,
        BinaryOpKind::Max => "jnp.maximum("@ + l + ", "@ + r + ")"@,
        BinaryOpKind::Min => "jnp.minimum("@ + l + ", "@ + r + ")"@,
        BinaryOpKind::Residue => "_residue("@ + l + ", "@ + r + ")"@,
    }
}

/// The function a builtin calls.
pub open spec fn builtin_py(op: BuiltinOp) -> Seq<char> {
    match op {
        BuiltinOp::Exp => "jnp.exp"@,
        BuiltinOp::Log => "jnp.log"@,
        BuiltinOp::Sqrt => "jnp.sqrt"@,
        BuiltinOp::Sin => "jnp.sin"@,
        BuiltinOp::Cos => "jnp.cos"@,
        BuiltinOp::Abs => "jnp.abs"@,
        BuiltinOp::Indicator => "_ind"@,
        BuiltinOp::Roll => "_roll"@,
        BuiltinOp::Floor => "jnp.floor"@,
        BuiltinOp::Ceil => "jnp.ceil"@,
    }
}

/// The reduction a fold calls.
pub open spec fn reduce_py(op: FoldOp) -> Seq<char> {
    match op {
        FoldOp::Sum => "jnp.sum"@,
        FoldOp::Product => "jnp.prod"@,
        FoldOp::Max => "jnp.max"@,
        FoldOp::Min => "jnp.min"@,
    }
}

/// The running reduction a scan calls.
pub open spec fn scan_py(op: FoldOp) -> Seq<char> {
    match op {
        FoldOp::Sum => "jnp.cumsum"@,
        FoldOp::Product => "jnp.cumprod"@,
        FoldOp::Max => "lax.cummax"@,
        FoldOp::Min => "lax.cummin"@,
    }
}

/// numpy's axes for a transpose: result axis `j` comes from source axis
/// `place_of(perm, j)`.
pub open spec fn numpy_axes(perm: Seq<usize>) -> Seq<usize> {
    Seq::new(perm.len(), |j: int| place_of(perm, j) as usize)
}

/// Why a literal has no spelling.
pub open spec fn unspelled(t: Seq<char>, line: usize) -> DisruptionV {
    DisruptionV::LoweringErr { detail: "no Python spelling was given for the literal `"@ + t + "`"@, line }
}

/// An expression as a `jax.numpy` expression.
pub open spec fn jax_expr(
    e: ExprV,
    line: usize,
    shapes: Map<Seq<char>, Seq<usize>>,
    tau: Seq<char>,
    nums: Map<Seq<char>, Seq<char>>,
) -> Result<Seq<char>, DisruptionV>
    decreases e,
{
    match e {
        ExprV::Number(t) => if nums.contains_key(t) {
            Ok("_c("@ + nums[t] + ")"@)
        } else {
            Err(unspelled(t, line))
        },
        ExprV::Var(n) => if is_tau_name(n) {
            Ok("_c("@ + tau + ")"@)
        } else {
            Ok(py_name_spec(n))
        },
        ExprV::AuditTrace(inner) => jax_expr(*inner, line, shapes, tau, nums),
        ExprV::BinaryOp { op, lhs, rhs } => match jax_expr(*lhs, line, shapes, tau, nums) {
            Err(d) => Err(d),
            Ok(l) => match jax_expr(*rhs, line, shapes, tau, nums) {
                Err(d) => Err(d),
                Ok(r) => Ok(binary_py(op, l, r, whole_exponent_of(*rhs))),
            },
        },
        ExprV::Builtin { op, operand } => match jax_expr(*operand, line, shapes, tau, nums) {
            Err(d) => Err(d),
            Ok(x) => Ok(builtin_py(op) + "("@ + x + ")"@),
        },
        ExprV::Lift { axis, operand } => match jax_expr(*operand, line, shapes, tau, nums) {
            Err(d) => Err(d),
            Ok(x) => Ok("jnp.expand_dims("@ + x + ", "@ + decimal(axis as nat) + ")"@),
        },
        ExprV::Reshape { shape, operand } => match jax_expr(*operand, line, shapes, tau, nums) {
            Err(d) => Err(d),
            Ok(x) => Ok("jnp.resize("@ + x + ", "@ + tuple_text(shape) + ")"@),
        },
        ExprV::Call { name, .. } => Err(unsupported_v("the call to `"@ + name + "`, which was not expanded"@, line)),
        ExprV::Index { axis, operand } => match jax_shape(*operand, line, shapes) {
            Err(d) => Err(d),
            Ok(s) => Ok("_coord("@ + tuple_text(s) + ", "@ + decimal(axis_or_default(axis, s)) + ")"@),
        },
        ExprV::Transpose { axes, operand } => match jax_shape(*operand, line, shapes) {
            Err(d) => Err(d),
            Ok(s) => {
                let perm = asked_axes(s.len() as int, axes);
                if !is_permutation(perm, s.len() as int) {
                    Err(unsupported_v("a transpose that is not a permutation of the axes"@, line))
                } else {
                    match jax_expr(*operand, line, shapes, tau, nums) {
                        Err(d) => Err(d),
                        Ok(x) => Ok("jnp.transpose("@ + x + ", axes="@ + tuple_text(numpy_axes(perm)) + ")"@),
                    }
                }
            },
        },
        ExprV::Shift { dir, axis, operand } => axis_op(
            jax_shape(*operand, line, shapes),
            jax_expr(*operand, line, shapes, tau, nums),
            |s: Seq<usize>, x: Seq<char>|
                match dir {
                    ShiftDir::Positive => "_prev("@,
                    ShiftDir::Negative => "_next("@,
                } + x + ", "@ + decimal(axis_or_default(axis, s)) + ")"@,
        ),
        ExprV::Reduce { op, axis, operand } => axis_op(
            jax_shape(*operand, line, shapes),
            jax_expr(*operand, line, shapes, tau, nums),
            |s: Seq<usize>, x: Seq<char>| reduce_py(op) + "("@ + x + ", axis="@ + decimal(axis_or_default(axis, s)) + ")"@,
        ),
        ExprV::Scan { op, axis, operand } => axis_op(
            jax_shape(*operand, line, shapes),
            jax_expr(*operand, line, shapes, tau, nums),
            |s: Seq<usize>, x: Seq<char>| scan_py(op) + "("@ + x + ", axis="@ + decimal(axis_or_default(axis, s)) + ")"@,
        ),
        ExprV::Rotate { by, axis, operand } => axis_op(
            jax_shape(*operand, line, shapes),
            jax_expr(*operand, line, shapes, tau, nums),
            |s: Seq<usize>, x: Seq<char>|
                "jnp.roll("@ + x + ", "@ + signed_decimal(-(by as int)) + ", axis="@ + decimal(axis_or_default(axis, s)) + ")"@,
        ),
        ExprV::Reverse { axis, operand } => axis_op(
            jax_shape(*operand, line, shapes),
            jax_expr(*operand, line, shapes, tau, nums),
            |s: Seq<usize>, x: Seq<char>| "jnp.flip("@ + x + ", axis="@ + decimal(axis_or_default(axis, s)) + ")"@,
        ),
        ExprV::Take { count, axis, operand } => axis_op(
            jax_shape(*operand, line, shapes),
            jax_expr(*operand, line, shapes, tau, nums),
            |s: Seq<usize>, x: Seq<char>|
                "_take("@ + x + ", "@ + decimal(axis_or_default(axis, s)) + ", "@ + signed_decimal(count as int) + ")"@,
        ),
        ExprV::Drop { count, axis, operand } => axis_op(
            jax_shape(*operand, line, shapes),
            jax_expr(*operand, line, shapes, tau, nums),
            |s: Seq<usize>, x: Seq<char>|
                "_drop("@ + x + ", "@ + decimal(axis_or_default(axis, s)) + ", "@ + signed_decimal(count as int) + ")"@,
        ),
    }
}

/// An operation along an axis of its operand: the operand's shape first,
/// then the operand itself, then the text `f` makes of the two.
pub open spec fn axis_op(
    shape: Result<Seq<usize>, DisruptionV>,
    operand: Result<Seq<char>, DisruptionV>,
    f: spec_fn(Seq<usize>, Seq<char>) -> Seq<char>,
) -> Result<Seq<char>, DisruptionV> {
    match shape {
        Err(d) => Err(d),
        Ok(s) => match operand {
            Err(d) => Err(d),
            Ok(x) => Ok(f(s, x)),
        },
    }
}


fn shape_of(e: &Expr, line: usize, shapes: &ShapeTable) -> (r: Result<Vec<usize>, HarmonyDisruption>)
    ensures
        match r {
            Ok(v) => jax_shape(e@, line, shapes@) == Ok::<Seq<usize>, DisruptionV>(v@),
            Err(d) => jax_shape(e@, line, shapes@) == Err::<Seq<usize>, DisruptionV>(disruption_view(d)),
        },
{
    match crate::ast::expr_shape(e, shapes) {
        Some(v) => Ok(v),
        None => Err(unsupported("an expression with no shape", line)),
    }
}

fn axis_value(axis: Option<usize>, shape: &Vec<usize>) -> (r: usize)
    ensures
        r as nat == axis_or_default(axis, shape@),
{
    match axis {
        Some(a) => a,
        None => default_axis(shape.as_slice()),
    }
}

/// `-n` in decimal; the negation of the least `i64` is written out too.
fn push_negated(s: &mut String, n: i64)
    ensures
        final(s)@ == old(s)@ + signed_decimal(-(n as int)),
{
    if n > 0 {
        push_str(s, "-");
        push_decimal(s, n as u64);
        proof {
            reveal_strlit("-");
        }
        assert(s@ =~= old(s)@ + signed_decimal(-(n as int)));
    } else {
        let m: u64 = (-(n as i128)) as u64;
        push_decimal(s, m);
    }
}

fn binary_text(op: BinaryOpKind, l: &String, r: &String, rhs: &Expr) -> (t: String)
    ensures
        t@ == binary_py(op, l@, r@, whole_exponent_of(rhs@)),
{
    let mut t = String::new();
    let (open, mid, masked): (&str, &str, bool) = match op {
        BinaryOpKind::Add => ("(", " + ", false),
        BinaryOpKind::Sub => ("(", " - ", false),
        BinaryOpKind::Mul => ("(", " * ", false),
        BinaryOpKind::Div => ("(", " / ", false),
        BinaryOpKind::Pow => match whole_exponent(rhs) {
            Some(n) => {
                push_str(&mut t, "_ipow(");
                push_str(&mut t, l.as_str());
                push_str(&mut t, ", ");
                push_signed(&mut t, n as i64);
                push_str(&mut t, ")");
                return t;
            },
            None => ("jnp.power(", ", ", false),
        },
        BinaryOpKind::Gt => ("_mask(", " > ", true),
        BinaryOpKind::Lt => ("_mask(", " < ", true),
        BinaryOpKind::Gte => ("_mask(", " >= ", true),
        BinaryOpKind::Lte => ("_mask(", " <= ", true),
        BinaryOpKind::Eq => ("_mask(", " == ", true),
        BinaryOpKind::Max => ("jnp.maximum(", ", ", false),
        BinaryOpKind::Min => ("jnp.minimum(", ", ", false),
        BinaryOpKind::Residue => ("_residue(", ", ", false),
    };
    push_str(&mut t, open);
    push_str(&mut t, l.as_str());
    push_str(&mut t, mid);
    push_str(&mut t, r.as_str());
    if masked {
        push_str(&mut t, ", ");
        push_str(&mut t, l.as_str());
    }
    push_str(&mut t, ")");
    t
}

fn builtin_name_py(op: BuiltinOp) -> (r: &'static str)
    ensures
        r@ == builtin_py(op),
{
    match op {
        BuiltinOp::Exp => "jnp.exp",
        BuiltinOp::Log => "jnp.log",
        BuiltinOp::Sqrt => "jnp.sqrt",
        BuiltinOp::Sin => "jnp.sin",
        BuiltinOp::Cos => "jnp.cos",
        BuiltinOp::Abs => "jnp.abs",
        BuiltinOp::Indicator => "_ind",
        BuiltinOp::Roll => "_roll",
        BuiltinOp::Floor => "jnp.floor",
        BuiltinOp::Ceil => "jnp.ceil",
    }
}

fn fold_name_py(op: FoldOp, running: bool) -> (r: &'static str)
    ensures
        r@ == if running {
            scan_py(op)
        } else {
            reduce_py(op)
        },
{
    match (op, running) {
        (FoldOp::Sum, false) => "jnp.sum",
        (FoldOp::Product, false) => "jnp.prod",
        (FoldOp::Max, false) => "jnp.max",
        (FoldOp::Min, false) => "jnp.min",
        (FoldOp::Sum, true) => "jnp.cumsum",
        (FoldOp::Product, true) => "jnp.cumprod",
        (FoldOp::Max, true) => "lax.cummax",
        (FoldOp::Min, true) => "lax.cummin",
    }
}

/// numpy's axes for a transpose that applies `perm`.
fn numpy_inverse(perm: &Vec<usize>) -> (r: Vec<usize>)
    requires
        is_permutation(perm@, perm@.len() as int),
    ensures
        r@ == numpy_axes(perm@),
{
    let n = perm.len();
    let mut inverse: Vec<usize> = Vec::new();
    let mut k: usize = 0;
    while k < n
        invariant
            k <= n,
            n == perm.len(),
            inverse@.len() == k,
            forall|j: int| 0 <= j < k ==> inverse@[j] == 0,
        decreases n - k,
    {
        inverse.push(0);
        k = k + 1;
    }
    proof {
        lemma_permutation_inverse(perm@, n as int);
    }
    let mut k: usize = 0;
    while k < n
        invariant
            k <= n,
            n == perm.len(),
            inverse@.len() == n,
            is_permutation(perm@, n as int),
            forall|i: int| 0 <= i < k ==> inverse@[#[trigger] perm@[i] as int] == i,
        decreases n - k,
    {
        let p = perm[k];
        inverse.set(p, k);
        proof {
            assert forall|i: int| 0 <= i < k + 1 implies inverse@[#[trigger] perm@[i] as int] == i by {
                if i < k {
                    assert(perm@[i] != perm@[k as int]);
                }
            }
        }
        k = k + 1;
    }
    proof {
        assert forall|j: int| 0 <= j < n implies inverse@[j] == #[trigger] numpy_axes(perm@)[j] by {
            let c = place_of(perm@, j);
            assert(0 <= c < n && perm@[c] == j);
            assert(inverse@[perm@[c] as int] == c);
        }
    }
    assert(inverse@ =~= numpy_axes(perm@));
    inverse
}

/// An expression as `jax.numpy` text: see `jax_expr`. `tau` and the
/// literals are spelled as given.
pub fn lower(e: &Expr, line: usize, shapes: &ShapeTable, tau: &String, numbers: &PyLiterals) -> (r: Result<String, HarmonyDisruption>)
    ensures
        match r {
            Ok(t) => jax_expr(e@, line, shapes@, tau@, numbers@) == Ok::<Seq<char>, DisruptionV>(t@),
            Err(d) => jax_expr(e@, line, shapes@, tau@, numbers@) == Err::<Seq<char>, DisruptionV>(disruption_view(d)),
        },
    decreases e,
{
    match e {
        Expr::Number(t) => match numbers.get(t) {
            Some(v) => {
                let mut s = String::new();
                push_str(&mut s, "_c(");
                push_str(&mut s, v.as_str());
                push_str(&mut s, ")");
                Ok(s)
            },
            None => {
                let mut m = String::new();
                push_str(&mut m, "no Python spelling was given for the literal `");
                push_str(&mut m, t.as_str());
                push_str(&mut m, "`");
                Err(HarmonyDisruption::LoweringErr { detail: m, line })
            },
        },
        Expr::Var(n) => {
            let cs = chars_of(n.as_str());
            if is_tau(cs.as_slice()) {
                let mut s = String::new();
                push_str(&mut s, "_c(");
                push_str(&mut s, tau.as_str());
                push_str(&mut s, ")");
                Ok(s)
            } else {
                Ok(py_name(n.as_str()))
            }
        },
        Expr::AuditTrace(inner) => lower(inner, line, shapes, tau, numbers),
        Expr::BinaryOp { op, lhs, rhs } => {
            let l = match lower(lhs, line, shapes, tau, numbers) {
                Ok(x) => x,
                Err(d) => return Err(d),
            };
            let r = match lower(rhs, line, shapes, tau, numbers) {
                Ok(x) => x,
                Err(d) => return Err(d),
            };
            Ok(binary_text(*op, &l, &r, rhs))
        },
        Expr::Builtin { op, operand } => {
            let x = match lower(operand, line, shapes, tau, numbers) {
                Ok(x) => x,
                Err(d) => return Err(d),
            };
            let mut s = String::new();
            push_str(&mut s, builtin_name_py(*op));
            push_str(&mut s, "(");
            push_str(&mut s, x.as_str());
            push_str(&mut s, ")");
            Ok(s)
        },
        Expr::Lift { axis, operand } => {
            let x = match lower(operand, line, shapes, tau, numbers) {
                Ok(x) => x,
                Err(d) => return Err(d),
            };
            let mut s = String::new();
            push_str(&mut s, "jnp.expand_dims(");
            push_str(&mut s, x.as_str());
            push_str(&mut s, ", ");
            push_decimal(&mut s, *axis as u64);
            push_str(&mut s, ")");
            Ok(s)
        },
        Expr::Reshape { shape, operand } => {
            let x = match lower(operand, line, shapes, tau, numbers) {
                Ok(x) => x,
                Err(d) => return Err(d),
            };
            let mut s = String::new();
            push_str(&mut s, "jnp.resize(");
            push_str(&mut s, x.as_str());
            push_str(&mut s, ", ");
            let tup = py_tuple(shape.as_slice());
            push_str(&mut s, tup.as_str());
            push_str(&mut s, ")");
            Ok(s)
        },
        Expr::Call { name, .. } => {
            let mut w = String::new();
            push_str(&mut w, "the call to `");
            push_str(&mut w, name.as_str());
            push_str(&mut w, "`, which was not expanded");
            Err(unsupported(w.as_str(), line))
        },
        Expr::Index { axis, operand } => {
            let sh = match shape_of(operand, line, shapes) {
                Ok(v) => v,
                Err(d) => return Err(d),
            };
            let a = axis_value(*axis, &sh);
            let mut s = String::new();
            push_str(&mut s, "_coord(");
            let tup = py_tuple(sh.as_slice());
            push_str(&mut s, tup.as_str());
            push_str(&mut s, ", ");
            push_decimal(&mut s, a as u64);
            push_str(&mut s, ")");
            Ok(s)
        },
        Expr::Transpose { axes, operand } => {
            let sh = match shape_of(operand, line, shapes) {
                Ok(v) => v,
                Err(d) => return Err(d),
            };
            let written: Option<&[usize]> = match axes {
                Some(v) => Some(v.as_slice()),
                None => None,
            };
            let perm = match transpose_axes(sh.len(), written) {
                Some(p) => p,
                None => return Err(unsupported("a transpose that is not a permutation of the axes", line)),
            };
            let x = match lower(operand, line, shapes, tau, numbers) {
                Ok(x) => x,
                Err(d) => return Err(d),
            };
            let inv = numpy_inverse(&perm);
            let mut s = String::new();
            push_str(&mut s, "jnp.transpose(");
            push_str(&mut s, x.as_str());
            push_str(&mut s, ", axes=");
            let tup = py_tuple(inv.as_slice());
            push_str(&mut s, tup.as_str());
            push_str(&mut s, ")");
            Ok(s)
        },
        _ => lower_along(e, line, shapes, tau, numbers),
    }
}

/// The operations along one axis of their operand.
fn lower_along(e: &Expr, line: usize, shapes: &ShapeTable, tau: &String, numbers: &PyLiterals) -> (r: Result<String, HarmonyDisruption>)
    requires
        match e {
            Expr::Shift { .. } | Expr::Reduce { .. } | Expr::Scan { .. } | Expr::Rotate { .. } | Expr::Reverse { .. }
            | Expr::Take { .. } | Expr::Drop { .. } => true,
            _ => false,
        },
    ensures
        match r {
            Ok(t) => jax_expr(e@, line, shapes@, tau@, numbers@) == Ok::<Seq<char>, DisruptionV>(t@),
            Err(d) => jax_expr(e@, line, shapes@, tau@, numbers@) == Err::<Seq<char>, DisruptionV>(disruption_view(d)),
        },
    decreases e, 0nat,
{
    let (operand, axis): (&Expr, Option<usize>) = match e {
        Expr::Shift { axis, operand, .. } => (operand, *axis),
        Expr::Reduce { axis, operand, .. } => (operand, *axis),
        Expr::Scan { axis, operand, .. } => (operand, *axis),
        Expr::Rotate { axis, operand, .. } => (operand, *axis),
        Expr::Reverse { axis, operand } => (operand, *axis),
        Expr::Take { axis, operand, .. } => (operand, *axis),
        Expr::Drop { axis, operand, .. } => (operand, *axis),
        _ => {
            proof {
                assert(false);
            }
            return Err(unsupported("an operation along no axis", line));
        },
    };
    let sh = match shape_of(operand, line, shapes) {
        Ok(v) => v,
        Err(d) => return Err(d),
    };
    let a = axis_value(axis, &sh);
    let x = match lower(operand, line, shapes, tau, numbers) {
        Ok(x) => x,
        Err(d) => return Err(d),
    };
    let mut s = String::new();
    match e {
        Expr::Shift { dir, .. } => {
            match dir {
                ShiftDir::Positive => push_str(&mut s, "_prev("),
                ShiftDir::Negative => push_str(&mut s, "_next("),
            }
            push_str(&mut s, x.as_str());
            push_str(&mut s, ", ");
            push_decimal(&mut s, a as u64);
            push_str(&mut s, ")");
        },
        Expr::Reduce { op, .. } | Expr::Scan { op, .. } => {
            let running = match e {
                Expr::Scan { .. } => true,
                _ => false,
            };
            push_str(&mut s, fold_name_py(*op, running));
            push_str(&mut s, "(");
            push_str(&mut s, x.as_str());
            push_str(&mut s, ", axis=");
            push_decimal(&mut s, a as u64);
            push_str(&mut s, ")");
        },
        Expr::Rotate { by, .. } => {
            push_str(&mut s, "jnp.roll(");
            push_str(&mut s, x.as_str());
            push_str(&mut s, ", ");
            push_negated(&mut s, *by);
            push_str(&mut s, ", axis=");
            push_decimal(&mut s, a as u64);
            push_str(&mut s, ")");
        },
        Expr::Reverse { .. } => {
            push_str(&mut s, "jnp.flip(");
            push_str(&mut s, x.as_str());
            push_str(&mut s, ", axis=");
            push_decimal(&mut s, a as u64);
            push_str(&mut s, ")");
        },
        Expr::Take { count, .. } | Expr::Drop { count, .. } => {
            match e {
                Expr::Drop { .. } => push_str(&mut s, "_drop("),
                _ => push_str(&mut s, "_take("),
            }
            push_str(&mut s, x.as_str());
            push_str(&mut s, ", ");
            push_decimal(&mut s, a as u64);
            push_str(&mut s, ", ");
            push_signed(&mut s, *count);
            push_str(&mut s, ")");
        },
        _ => {},
    }
    Ok(s)
}


// ---------------------------------------------------------------- the module

/// How `{:?}` writes a string: in double quotes, with what Rust's debug
/// escaping escapes.
pub uninterp spec fn debug_quoted(s: Seq<char>) -> Seq<char>;

/// `format!("{:?}", s)`: std's `Debug` for `str`, which quotes the text and
/// escapes quotes, backslashes, and the characters `char::escape_debug`
/// escapes. What that escaping gives is not written out here; the result
/// is a function of the text alone.
#[verifier::external_body]
fn debug_quote(s: &str) -> (r: String)
    ensures
        r@ == debug_quoted(s@),
{
    format!("{:?}", s)
}

/// Parts joined with `sep`.
pub open spec fn joined_by(parts: Seq<Seq<char>>, sep: Seq<char>) -> Seq<char>
    decreases parts.len(),
{
    if parts.len() == 0 {
        Seq::empty()
    } else if parts.len() == 1 {
        parts[0]
    } else {
        joined_by(parts.drop_last(), sep) + sep + parts.last()
    }
}

/// What the declarations from statement `i` on give: each space's shape,
/// the arguments in order, and the bound spaces with their addresses.
pub open spec fn jax_declared(
    stmts: Seq<StatementV>,
    i: int,
    shapes: Map<Seq<char>, Seq<usize>>,
    inputs: Seq<Seq<char>>,
    bound: Seq<(Seq<char>, u64)>,
) -> (Map<Seq<char>, Seq<usize>>, Seq<Seq<char>>, Seq<(Seq<char>, u64)>)
    decreases stmts.len() - i,
{
    if i < 0 || i >= stmts.len() {
        (shapes, inputs, bound)
    } else {
        match stmts[i] {
            StatementV::SpaceDef { name, dims } => jax_declared(stmts, i + 1, shapes.insert(name, dims), inputs.push(name), bound),
            StatementV::ExtBind { address, name, dims } => jax_declared(
                stmts,
                i + 1,
                shapes.insert(name, dims),
                inputs.push(name),
                bound.push((name, address)),
            ),
            _ => jax_declared(stmts, i + 1, shapes, inputs, bound),
        }
    }
}

/// The comment for each bound space.
pub open spec fn bound_lines(bound: Seq<(Seq<char>, u64)>) -> Seq<char>
    decreases bound.len(),
{
    if bound.len() == 0 {
        Seq::empty()
    } else {
        bound_lines(bound.drop_last()) + "# "@ + bound.last().0 + " is bound to address 0x"@ + hex_lower(bound.last().1 as nat)
            + " for the compiled kernel; here it is an argument.\n"@
    }
}

/// One line of the `SHAPES` table per space, in order.
pub open spec fn shape_lines(shapes: Map<Seq<char>, Seq<usize>>, names: Seq<Seq<char>>) -> Seq<char>
    decreases names.len(),
{
    if names.len() == 0 {
        Seq::empty()
    } else {
        shape_lines(shapes, names.drop_last()) + "    "@ + debug_quoted(names.last()) + ": "@ + tuple_text(
            shapes[names.last()],
        ) + ",\n"@
    }
}

/// Each argument as a jax array of its shape.
pub open spec fn reshape_lines(shapes: Map<Seq<char>, Seq<usize>>, inputs: Seq<Seq<char>>) -> Seq<char>
    decreases inputs.len(),
{
    if inputs.len() == 0 {
        Seq::empty()
    } else {
        let p = py_name_spec(inputs.last());
        reshape_lines(shapes, inputs.drop_last()) + "    "@ + p + " = jnp.asarray("@ + p + ", dtype=DTYPE).reshape("@
            + tuple_text(shapes[inputs.last()]) + ")\n"@
    }
}

pub open spec fn dtype_text(p: Precision) -> Seq<char> {
    match p {
        Precision::F64 => "jnp.float64"@,
        Precision::F32 => "jnp.float32"@,
    }
}

/// The helpers every emitted module carries.
pub open spec fn helpers_text() -> Seq<char> {
    r#"

def _c(v):
    return jnp.asarray(v, dtype=DTYPE)


def _mask(holds, l):
    """A comparison masks: the left value where it holds, zero elsewhere."""
    return jnp.where(holds, l, _c(0.0))


def _ind(x):
    """1 where the value is not zero (a NaN is not zero), 0 at zero."""
    return jnp.where(x != 0, _c(1.0), _c(0.0))


def _ipow(x, n):
    """A whole power by repeated multiplication, as the kernel does it."""
    acc = _c(1.0)
    for _ in range(abs(n)):
        acc = acc * x
    return _c(1.0) / acc if n < 0 else acc


def _residue(a, b):
    """APL's residue: b - a * floor(b / a); 0 | b is b."""
    return jnp.where(a == 0, b, b - a * jnp.floor(b / a))


def _roll(x):
    """The roll: splitmix64's finaliser over the value's bits (as a double),
    the top 53 bits scaled into [0, 1). A NaN hashes as zero bits."""
    d = jnp.asarray(x, dtype=jnp.float64)
    bits = lax.bitcast_convert_type(jnp.where(jnp.isnan(d), 0.0, d), jnp.uint64)
    z = bits + jnp.uint64(0x9E3779B97F4A7C15)
    z = (z ^ (z >> 30)) * jnp.uint64(0xBF58476D1CE4E5B9)
    z = (z ^ (z >> 27)) * jnp.uint64(0x94D049BB133111EB)
    z = z ^ (z >> 31)
    return jnp.asarray((z >> 11).astype(jnp.float64) * (1.0 / 9007199254740992.0), dtype=DTYPE)


def _prev(x, axis):
    """▷: the preceding cell along the axis, zero at the edge."""
    pad = [(0, 0)] * x.ndim
    pad[axis] = (1, 0)
    padded = jnp.pad(x, pad)
    return lax.slice_in_dim(padded, 0, x.shape[axis], axis=axis)


def _next(x, axis):
    """▽: the following cell along the axis, zero at the edge."""
    pad = [(0, 0)] * x.ndim
    pad[axis] = (0, 1)
    padded = jnp.pad(x, pad)
    return lax.slice_in_dim(padded, 1, x.shape[axis] + 1, axis=axis)


def _coord(shape, axis):
    """⍳: the coordinate of each cell along the axis, from zero."""
    n = shape[axis]
    view = [1] * len(shape)
    view[axis] = n
    return jnp.broadcast_to(jnp.arange(n, dtype=DTYPE).reshape(view), shape)


def _take(x, axis, count):
    """k ↑ X: the first k cells along the axis (the last for a negative k),
    padded with zero past the source."""
    n = x.shape[axis]
    k = abs(count)
    if count >= 0:
        piece = lax.slice_in_dim(x, 0, min(k, n), axis=axis)
        pad_after = max(k - n, 0)
        pad = [(0, 0)] * x.ndim
        pad[axis] = (0, pad_after)
    else:
        piece = lax.slice_in_dim(x, max(n - k, 0), n, axis=axis)
        pad = [(0, 0)] * x.ndim
        pad[axis] = (max(k - n, 0), 0)
    return jnp.pad(piece, pad)


def _drop(x, axis, count):
    """k ↓ X: without the first k cells along the axis (the last for a negative k)."""
    n = x.shape[axis]
    if count >= 0:
        return lax.slice_in_dim(x, count, n, axis=axis)
    return lax.slice_in_dim(x, 0, n + count, axis=axis)


def _gather(index, x):
    """I ⌷ X: the cell of X at the position each cell of I names, in row-major
    order, floored; zero where that is no position of X."""
    flat = x.reshape(-1)
    n = flat.shape[0]
    place = jnp.floor(index)
    valid = jnp.logical_and(place >= 0, place < n)
    at = jnp.clip(jnp.where(valid, place, 0), 0, n - 1).astype(jnp.int64)
    return jnp.where(valid, flat[at], _c(0.0))
"#@
}

/// The module's first lines: what it is, the bound spaces, the imports and
/// the number type.
#[verifier::opaque]
pub open spec fn head_intro(bound: Seq<(Seq<char>, u64)>, precision: Precision) -> Seq<char> {
    "# ρ program as JAX. Generated by rhoc --emit-jax; the source is at the end.\n"@ + bound_lines(bound) + "import jax\n"@
        + "import jax.numpy as jnp\n"@ + "from jax import lax\n"@ + "jax.config.update('jax_enable_x64', True)\n"@ + "\n"@
        + "DTYPE = "@ + dtype_text(precision) + "\n"@
}

/// The table of shapes and the helpers.
#[verifier::opaque]
pub open spec fn head_shapes(shapes: Map<Seq<char>, Seq<usize>>) -> Seq<char> {
    "SHAPES = {\n"@ + shape_lines(shapes, in_order(shapes.dom())) + "}\n"@ + helpers_text() + "\n"@
}

/// The head of `rho`: its arguments, each as a jax array, and the counters.
#[verifier::opaque]
pub open spec fn head_def(shapes: Map<Seq<char>, Seq<usize>>, inputs: Seq<Seq<char>>) -> Seq<char> {
    "def rho("@ + joined_by(inputs.map_values(|n: Seq<char>| py_name_spec(n)), ", "@) + "):\n"@
        + "    \"\"\"The program over its declared spaces, as jax arrays of DTYPE.\"\"\"\n"@ + reshape_lines(shapes, inputs)
        + "    sweeps = 0\n"@ + "    converged = True\n"@
}

/// Everything before the body of `rho`.
pub open spec fn jax_head(
    shapes: Map<Seq<char>, Seq<usize>>,
    inputs: Seq<Seq<char>>,
    bound: Seq<(Seq<char>, u64)>,
    precision: Precision,
) -> Seq<char> {
    head_intro(bound, precision) + head_shapes(shapes) + head_def(shapes, inputs)
}

/// The round of the `k`-th loop: the update and whether it settled.
#[verifier::opaque]
pub open spec fn round_text(ks: Seq<char>, t: Seq<char>, value: Seq<char>, tau: Seq<char>) -> Seq<char> {
    "    def _round"@ + ks + "(state):\n"@ + "        "@ + t + ", _k, _settled = state\n"@ + "        _old = "@ + t + "\n"@
        + "        "@ + t + " = "@ + value + "\n"@ + "        _moved = jnp.max(jnp.abs("@ + t + " - _old))\n"@
        + "        _settled = _moved <= _c("@ + tau + ")\n"@ + "        return ("@ + t + ", _k + 1, _settled)\n"@
}

/// Whether the `k`-th loop goes on: under the cap and not settled.
#[verifier::opaque]
pub open spec fn go_text(ks: Seq<char>, cs: Seq<char>) -> Seq<char> {
    "    def _go"@ + ks + "(state):\n"@ + "        _k, _settled = state[-2], state[-1]\n"@
        + "        return jnp.logical_and(_k < "@ + cs + ", jnp.logical_not(_settled))\n"@
}

/// Running the `k`-th loop and counting its sweeps.
#[verifier::opaque]
pub open spec fn run_text(ks: Seq<char>, t: Seq<char>, cs: Seq<char>) -> Seq<char> {
    "    _state"@ + ks + " = ("@ + t + ", jnp.int64(0), jnp.bool_(False))\n"@ + "    _state"@ + ks + " = lax.while_loop(_go"@
        + ks + ", _round"@ + ks + ", _state"@ + ks + ")\n"@ + "    "@ + t + ", = _state"@ + ks + "[:1]\n"@
        + "    sweeps = sweeps + _state"@ + ks + "[-2]\n"@ + "    converged = jnp.logical_and(converged, _state"@ + ks
        + "[-2] < "@ + cs + ")\n"@
}

/// A `⇒` as a bounded `lax.while_loop`, the `k`-th of the program.
pub open spec fn loop_text(k: nat, t: Seq<char>, value: Seq<char>, tau: Seq<char>, cap: usize) -> Seq<char> {
    round_text(decimal(k), t, value, tau) + go_text(decimal(k), decimal(cap as nat)) + run_text(
        decimal(k),
        t,
        decimal(cap as nat),
    )
}

/// Why a program that iterates is not emitted without a cap.
pub open spec fn uncapped(line: usize) -> DisruptionV {
    DisruptionV::LoweringErr {
        detail: "this program iterates (⇒); say how many sweeps it may take with --max-iter"@,
        line,
    }
}

/// The body of `rho` from statement `i` on, and the spaces it writes.
pub struct JaxBody {
    pub res: Result<(), DisruptionV>,
    pub py: Seq<char>,
    pub shapes: Map<Seq<char>, Seq<usize>>,
    pub written: Seq<Seq<char>>,
    pub loops: nat,
}

/// `written` with `n` added unless it holds it.
pub open spec fn noted(written: Seq<Seq<char>>, n: Seq<char>) -> Seq<Seq<char>> {
    if written.contains(n) {
        written
    } else {
        written.push(n)
    }
}

/// One statement of `rho`'s body; whether it ends the body (a `→ =`).
#[verifier::opaque]
pub open spec fn jax_step(
    stmts: Seq<StatementV>,
    lines: Seq<usize>,
    tau: Seq<char>,
    cap: Option<usize>,
    nums: Map<Seq<char>, Seq<char>>,
    i: int,
    st: JaxBody,
) -> (JaxBody, bool) {
    let line = line_at(lines, i);
    match stmts[i] {
        StatementV::Flow { src, target } => {
            let name = target_name(target);
            match jax_expr(src, line, st.shapes, tau, nums) {
                Err(d) => (JaxBody { res: Err(d), ..st }, true),
                Ok(value) => (
                    JaxBody {
                        res: Ok(()),
                        py: st.py + "    "@ + py_name_spec(name) + " = "@ + value + "\n"@,
                        shapes: match shape_of_expr(src, st.shapes) {
                            Some(s) => st.shapes.insert(name, s),
                            None => st.shapes,
                        },
                        written: noted(st.written, name),
                        loops: st.loops,
                    },
                    target is Equilibrium,
                ),
            }
        },
        StatementV::Iterate { src, target } => match cap {
            None => (JaxBody { res: Err(uncapped(line)), ..st }, true),
            Some(c) => match jax_expr(src, line, st.shapes, tau, nums) {
                Err(d) => (JaxBody { res: Err(d), ..st }, true),
                Ok(value) => (
                    JaxBody {
                        res: Ok(()),
                        py: st.py + loop_text(st.loops + 1, py_name_spec(target), value, tau, c),
                        shapes: st.shapes,
                        written: noted(st.written, target),
                        loops: st.loops + 1,
                    },
                    false,
                ),
            },
        },
        _ => (st, false),
    }
}

/// The body of `rho` from statement `i` on: each statement in turn, up to
/// the first `→ =` or the first fault.
pub open spec fn jax_body(
    stmts: Seq<StatementV>,
    lines: Seq<usize>,
    tau: Seq<char>,
    cap: Option<usize>,
    nums: Map<Seq<char>, Seq<char>>,
    i: int,
    st: JaxBody,
) -> JaxBody
    decreases stmts.len() - i,
{
    if i < 0 || i >= stmts.len() {
        st
    } else {
        let (next, stop) = jax_step(stmts, lines, tau, cap, nums, i, st);
        if stop {
            next
        } else {
            jax_body(stmts, lines, tau, cap, nums, i + 1, next)
        }
    }
}

/// What `rho` returns, and the module's last lines.
pub open spec fn jax_tail(written: Seq<Seq<char>>, inputs: Seq<Seq<char>>) -> Seq<char> {
    "    return {\n"@ + returned_lines(written) + "        'rho_sweeps': sweeps,\n"@ + "        'rho_converged': converged,\n"@
        + "    }\n"@ + "\n"@ + "rho_jit = jax.jit(rho)\n"@ + "\n"@ + "INPUTS = ["@ + joined_by(
        inputs.map_values(|n: Seq<char>| debug_quoted(n)),
        ", "@,
    ) + "]\n"@ + "OUTPUT = 'OUTPUT'\n"@
}

pub open spec fn returned_lines(written: Seq<Seq<char>>) -> Seq<char>
    decreases written.len(),
{
    if written.len() == 0 {
        Seq::empty()
    } else {
        returned_lines(written.drop_last()) + "        "@ + debug_quoted(written.last()) + ": "@ + py_name_spec(
            written.last(),
        ) + ",\n"@
    }
}

/// The program as a Python module for JAX: `rho` over its declared spaces,
/// returning every space it writes, the sweeps and whether every `⇒`
/// settled, and `rho_jit`, the same under `jax.jit`. A program that
/// iterates needs a cap on its sweeps.
pub open spec fn jax_module(
    stmts: Seq<StatementV>,
    lines: Seq<usize>,
    tau: Seq<char>,
    cap: Option<usize>,
    precision: Precision,
    nums: Map<Seq<char>, Seq<char>>,
) -> Result<Seq<char>, DisruptionV> {
    let d = jax_declared(stmts, 0, Map::empty(), Seq::empty(), Seq::empty());
    let head = jax_head(d.0, d.1, d.2, precision);
    let b = jax_body(
        stmts,
        lines,
        tau,
        cap,
        nums,
        0,
        JaxBody { res: Ok(()), py: head, shapes: d.0, written: Seq::empty(), loops: 0 },
    );
    match b.res {
        Err(e) => Err(e),
        Ok(_) => Ok(b.py + jax_tail(b.written, d.1)),
    }
}


proof fn lemma_joined_by_step(parts: Seq<Seq<char>>, sep: Seq<char>, k: int)
    requires
        0 <= k < parts.len(),
    ensures
        joined_by(parts.take(k + 1), sep) == joined_by(parts.take(k), sep) + (if k > 0 {
            sep
        } else {
            Seq::<char>::empty()
        }) + parts[k],
{
    assert(parts.take(k + 1).drop_last() =~= parts.take(k));
    if k == 0 {
        assert(parts.take(0) =~= Seq::<Seq<char>>::empty());
        assert(joined_by(parts.take(1), sep) == parts.take(1)[0]);
        assert(Seq::<char>::empty() + Seq::<char>::empty() + parts[0] =~= parts[0]);
    }
}

/// The declarations: see `jax_declared`.
#[verifier::spinoff_prover]
fn declarations(block: &ToposBlock) -> (r: (ShapeTable, Vec<String>, Vec<(String, u64)>))
    ensures
        ({
            let d = jax_declared(statements_view(block.statements@), 0, Map::empty(), Seq::empty(), Seq::empty());
            &&& r.0@ == d.0
            &&& names_of(r.1@) == d.1
            &&& r.2@.map_values(|b: (String, u64)| (b.0@, b.1)) == d.2
        }),
        forall|j: int| 0 <= j < r.1@.len() ==> r.0@.contains_key(#[trigger] r.1@[j]@),
{
    let ghost sv = statements_view(block.statements@);
    let mut shapes = ShapeTable::new();
    let mut inputs: Vec<String> = Vec::new();
    let mut bound: Vec<(String, u64)> = Vec::new();
    let ghost whole = jax_declared(sv, 0, Map::empty(), Seq::empty(), Seq::empty());
    assert(names_of(inputs@) =~= Seq::<Seq<char>>::empty());
    assert(bound@.map_values(|b: (String, u64)| (b.0@, b.1)) =~= Seq::<(Seq<char>, u64)>::empty());
    let mut i: usize = 0;
    while i < block.statements.len()
        invariant
            i <= block.statements.len(),
            sv == statements_view(block.statements@),
            whole == jax_declared(
                sv,
                i as int,
                shapes@,
                names_of(inputs@),
                bound@.map_values(|b: (String, u64)| (b.0@, b.1)),
            ),
            forall|j: int| 0 <= j < inputs@.len() ==> shapes@.contains_key(#[trigger] inputs@[j]@),
        decreases block.statements.len() - i,
    {
        assert(sv[i as int] == statement_view(block.statements@[i as int]));
        let ghost ni = names_of(inputs@);
        let ghost nb = bound@.map_values(|b: (String, u64)| (b.0@, b.1));
        match &block.statements[i] {
            Statement::SpaceDef(d) => {
                shapes.insert(&d.name, d.dimensions.as_slice());
                inputs.push(d.name.clone());
                assert(names_of(inputs@) =~= ni.push(d.name@));
            },
            Statement::ExtBind(b) => {
                shapes.insert(&b.space.name, b.space.dimensions.as_slice());
                inputs.push(b.space.name.clone());
                bound.push((b.space.name.clone(), b.address));
                assert(names_of(inputs@) =~= ni.push(b.space.name@));
                assert(bound@.map_values(|b: (String, u64)| (b.0@, b.1)) =~= nb.push((b.space.name@, b.address)));
            },
            _ => {},
        }
        i = i + 1;
    }
    (shapes, inputs, bound)
}

/// Everything before the body of `rho`: see `jax_head`.
#[verifier::spinoff_prover]
fn push_head(py: &mut String, shapes: &ShapeTable, inputs: &Vec<String>, bound: &Vec<(String, u64)>, precision: Precision)
    requires
        forall|j: int| 0 <= j < inputs@.len() ==> shapes@.contains_key(#[trigger] inputs@[j]@),
    ensures
        final(py)@ == old(py)@ + jax_head(
            shapes@,
            names_of(inputs@),
            bound@.map_values(|b: (String, u64)| (b.0@, b.1)),
            precision,
        ),
{
    let ghost start = py@;
    push_intro(py, bound, precision);
    let ghost a = py@;
    push_str(py, "SHAPES = {\n");
    push_shape_lines(py, shapes);
    push_str(py, "}\n");
    push_helpers(py);
    push_str(py, "\n");
    proof {
        reveal(head_shapes);
    }
    assert(py@ =~= a + head_shapes(shapes@));
    push_def(py, shapes, inputs);
    assert(py@ =~= start + jax_head(
        shapes@,
        names_of(inputs@),
        bound@.map_values(|b: (String, u64)| (b.0@, b.1)),
        precision,
    ));
}

#[verifier::spinoff_prover]
fn push_intro(py: &mut String, bound: &Vec<(String, u64)>, precision: Precision)
    ensures
        final(py)@ == old(py)@ + head_intro(bound@.map_values(|b: (String, u64)| (b.0@, b.1)), precision),
{
    let ghost start = py@;
    push_str(py, "# ρ program as JAX. Generated by rhoc --emit-jax; the source is at the end.\n");
    let ghost nb = bound@.map_values(|b: (String, u64)| (b.0@, b.1));
    let ghost b0 = py@;
    let mut k: usize = 0;
    assert(nb.take(0) =~= Seq::<(Seq<char>, u64)>::empty());
    while k < bound.len()
        invariant
            k <= bound.len(),
            nb == bound@.map_values(|b: (String, u64)| (b.0@, b.1)),
            py@ == b0 + bound_lines(nb.take(k as int)),
        decreases bound.len() - k,
    {
        push_str(py, "# ");
        push_str(py, bound[k].0.as_str());
        push_str(py, " is bound to address 0x");
        push_lower_hex(py, bound[k].1);
        push_str(py, " for the compiled kernel; here it is an argument.\n");
        proof {
            assert(nb.take(k + 1).drop_last() =~= nb.take(k as int));
            assert(nb.take(k + 1).last() == nb[k as int]);
        }
        k = k + 1;
    }
    assert(nb.take(bound.len() as int) =~= nb);
    push_str(py, "import jax\n");
    push_str(py, "import jax.numpy as jnp\n");
    push_str(py, "from jax import lax\n");
    push_str(py, "jax.config.update('jax_enable_x64', True)\n");
    push_str(py, "\n");
    push_str(py, "DTYPE = ");
    match precision {
        Precision::F64 => push_str(py, "jnp.float64"),
        Precision::F32 => push_str(py, "jnp.float32"),
    }
    push_str(py, "\n");
    proof {
        reveal(head_intro);
    }
    assert(py@ =~= start + head_intro(nb, precision));
}

#[verifier::spinoff_prover]
fn push_def(py: &mut String, shapes: &ShapeTable, inputs: &Vec<String>)
    requires
        forall|j: int| 0 <= j < inputs@.len() ==> shapes@.contains_key(#[trigger] inputs@[j]@),
    ensures
        final(py)@ == old(py)@ + head_def(shapes@, names_of(inputs@)),
{
    let ghost start = py@;
    push_str(py, "def rho(");
    let ghost b3 = py@;
    let ghost pn = names_of(inputs@).map_values(|n: Seq<char>| py_name_spec(n));
    let mut k: usize = 0;
    assert(pn.take(0) =~= Seq::<Seq<char>>::empty());
    while k < inputs.len()
        invariant
            k <= inputs.len(),
            pn == names_of(inputs@).map_values(|n: Seq<char>| py_name_spec(n)),
            py@ == b3 + joined_by(pn.take(k as int), ", "@),
        decreases inputs.len() - k,
    {
        proof {
            lemma_joined_by_step(pn, ", "@, k as int);
        }
        if k > 0 {
            push_str(py, ", ");
        }
        let p = py_name(inputs[k].as_str());
        push_str(py, p.as_str());
        k = k + 1;
    }
    assert(pn.take(inputs.len() as int) =~= pn);
    push_str(py, "):\n");
    push_str(py, "    \"\"\"The program over its declared spaces, as jax arrays of DTYPE.\"\"\"\n");
    push_reshape_lines(py, shapes, inputs);
    push_str(py, "    sweeps = 0\n");
    push_str(py, "    converged = True\n");
    proof {
        reveal(head_def);
    }
    assert(py@ =~= start + head_def(shapes@, names_of(inputs@)));
}

/// The `SHAPES` table's lines: see `shape_lines`.
#[verifier::spinoff_prover]
fn push_shape_lines(py: &mut String, shapes: &ShapeTable)
    ensures
        final(py)@ == old(py)@ + shape_lines(shapes@, in_order(shapes@.dom())),
{
    let names = shapes.names();
    let ghost ns = names_of(names@);
    let ghost start = py@;
    let mut k: usize = 0;
    assert(ns.take(0) =~= Seq::<Seq<char>>::empty());
    while k < names.len()
        invariant
            k <= names.len(),
            ns == names_of(names@),
            forall|x: Seq<char>| #[trigger] ns.contains(x) <==> shapes@.dom().contains(x),
            py@ == start + shape_lines(shapes@, ns.take(k as int)),
        decreases names.len() - k,
    {
        let name = &names[k];
        proof {
            assert(ns[k as int] == name@);
            assert(ns.contains(name@));
            assert(ns.take(k + 1).drop_last() =~= ns.take(k as int));
            assert(ns.take(k + 1).last() == name@);
        }
        push_str(py, "    ");
        let q = debug_quote(name.as_str());
        push_str(py, q.as_str());
        push_str(py, ": ");
        match shapes.get(name) {
            Some(v) => {
                let t = py_tuple(v.as_slice());
                push_str(py, t.as_str());
            },
            None => {
                proof {
                    assert(false);
                }
            },
        }
        push_str(py, ",\n");
        k = k + 1;
    }
    assert(ns.take(names.len() as int) =~= ns);
}

/// The helpers every module carries.
#[verifier::spinoff_prover]
fn push_helpers(py: &mut String)
    ensures
        final(py)@ == old(py)@ + helpers_text(),
{
    push_str(py, r#"

def _c(v):
    return jnp.asarray(v, dtype=DTYPE)


def _mask(holds, l):
    """A comparison masks: the left value where it holds, zero elsewhere."""
    return jnp.where(holds, l, _c(0.0))


def _ind(x):
    """1 where the value is not zero (a NaN is not zero), 0 at zero."""
    return jnp.where(x != 0, _c(1.0), _c(0.0))


def _ipow(x, n):
    """A whole power by repeated multiplication, as the kernel does it."""
    acc = _c(1.0)
    for _ in range(abs(n)):
        acc = acc * x
    return _c(1.0) / acc if n < 0 else acc


def _residue(a, b):
    """APL's residue: b - a * floor(b / a); 0 | b is b."""
    return jnp.where(a == 0, b, b - a * jnp.floor(b / a))


def _roll(x):
    """The roll: splitmix64's finaliser over the value's bits (as a double),
    the top 53 bits scaled into [0, 1). A NaN hashes as zero bits."""
    d = jnp.asarray(x, dtype=jnp.float64)
    bits = lax.bitcast_convert_type(jnp.where(jnp.isnan(d), 0.0, d), jnp.uint64)
    z = bits + jnp.uint64(0x9E3779B97F4A7C15)
    z = (z ^ (z >> 30)) * jnp.uint64(0xBF58476D1CE4E5B9)
    z = (z ^ (z >> 27)) * jnp.uint64(0x94D049BB133111EB)
    z = z ^ (z >> 31)
    return jnp.asarray((z >> 11).astype(jnp.float64) * (1.0 / 9007199254740992.0), dtype=DTYPE)


def _prev(x, axis):
    """▷: the preceding cell along the axis, zero at the edge."""
    pad = [(0, 0)] * x.ndim
    pad[axis] = (1, 0)
    padded = jnp.pad(x, pad)
    return lax.slice_in_dim(padded, 0, x.shape[axis], axis=axis)


def _next(x, axis):
    """▽: the following cell along the axis, zero at the edge."""
    pad = [(0, 0)] * x.ndim
    pad[axis] = (0, 1)
    padded = jnp.pad(x, pad)
    return lax.slice_in_dim(padded, 1, x.shape[axis] + 1, axis=axis)


def _coord(shape, axis):
    """⍳: the coordinate of each cell along the axis, from zero."""
    n = shape[axis]
    view = [1] * len(shape)
    view[axis] = n
    return jnp.broadcast_to(jnp.arange(n, dtype=DTYPE).reshape(view), shape)


def _take(x, axis, count):
    """k ↑ X: the first k cells along the axis (the last for a negative k),
    padded with zero past the source."""
    n = x.shape[axis]
    k = abs(count)
    if count >= 0:
        piece = lax.slice_in_dim(x, 0, min(k, n), axis=axis)
        pad_after = max(k - n, 0)
        pad = [(0, 0)] * x.ndim
        pad[axis] = (0, pad_after)
    else:
        piece = lax.slice_in_dim(x, max(n - k, 0), n, axis=axis)
        pad = [(0, 0)] * x.ndim
        pad[axis] = (max(k - n, 0), 0)
    return jnp.pad(piece, pad)


def _drop(x, axis, count):
    """k ↓ X: without the first k cells along the axis (the last for a negative k)."""
    n = x.shape[axis]
    if count >= 0:
        return lax.slice_in_dim(x, count, n, axis=axis)
    return lax.slice_in_dim(x, 0, n + count, axis=axis)


def _gather(index, x):
    """I ⌷ X: the cell of X at the position each cell of I names, in row-major
    order, floored; zero where that is no position of X."""
    flat = x.reshape(-1)
    n = flat.shape[0]
    place = jnp.floor(index)
    valid = jnp.logical_and(place >= 0, place < n)
    at = jnp.clip(jnp.where(valid, place, 0), 0, n - 1).astype(jnp.int64)
    return jnp.where(valid, flat[at], _c(0.0))
"#);
}

/// Each argument reshaped: see `reshape_lines`.
#[verifier::spinoff_prover]
fn push_reshape_lines(py: &mut String, shapes: &ShapeTable, inputs: &Vec<String>)
    requires
        forall|j: int| 0 <= j < inputs@.len() ==> shapes@.contains_key(#[trigger] inputs@[j]@),
    ensures
        final(py)@ == old(py)@ + reshape_lines(shapes@, names_of(inputs@)),
{
    let ghost ns = names_of(inputs@);
    let ghost start = py@;
    let mut k: usize = 0;
    assert(ns.take(0) =~= Seq::<Seq<char>>::empty());
    while k < inputs.len()
        invariant
            k <= inputs.len(),
            ns == names_of(inputs@),
            forall|j: int| 0 <= j < inputs@.len() ==> shapes@.contains_key(#[trigger] inputs@[j]@),
            py@ == start + reshape_lines(shapes@, ns.take(k as int)),
        decreases inputs.len() - k,
    {
        let name = &inputs[k];
        proof {
            assert(ns[k as int] == name@);
            assert(ns.take(k + 1).drop_last() =~= ns.take(k as int));
            assert(ns.take(k + 1).last() == name@);
        }
        let p = py_name(name.as_str());
        push_str(py, "    ");
        push_str(py, p.as_str());
        push_str(py, " = jnp.asarray(");
        push_str(py, p.as_str());
        push_str(py, ", dtype=DTYPE).reshape(");
        match shapes.get(name) {
            Some(v) => {
                let t = py_tuple(v.as_slice());
                push_str(py, t.as_str());
            },
            None => {
                proof {
                    assert(false);
                }
            },
        }
        push_str(py, ")\n");
        k = k + 1;
    }
    assert(ns.take(inputs.len() as int) =~= ns);
}


#[verifier::spinoff_prover]
fn push_round(py: &mut String, ks: &str, t: &str, value: &str, tau: &str)
    ensures
        final(py)@ == old(py)@ + round_text(ks@, t@, value@, tau@),
{
    let ghost start = py@;
    push_str(py, "    def _round");
    push_str(py, ks);
    push_str(py, "(state):\n");
    push_str(py, "        ");
    push_str(py, t);
    push_str(py, ", _k, _settled = state\n");
    push_str(py, "        _old = ");
    push_str(py, t);
    push_str(py, "\n");
    push_str(py, "        ");
    push_str(py, t);
    push_str(py, " = ");
    push_str(py, value);
    push_str(py, "\n");
    push_str(py, "        _moved = jnp.max(jnp.abs(");
    push_str(py, t);
    push_str(py, " - _old))\n");
    push_str(py, "        _settled = _moved <= _c(");
    push_str(py, tau);
    push_str(py, ")\n");
    push_str(py, "        return (");
    push_str(py, t);
    push_str(py, ", _k + 1, _settled)\n");
    reveal(round_text);
    assert(py@ =~= start + round_text(ks@, t@, value@, tau@));
}

#[verifier::spinoff_prover]
fn push_go(py: &mut String, ks: &str, cs: &str)
    ensures
        final(py)@ == old(py)@ + go_text(ks@, cs@),
{
    let ghost start = py@;
    push_str(py, "    def _go");
    push_str(py, ks);
    push_str(py, "(state):\n");
    push_str(py, "        _k, _settled = state[-2], state[-1]\n");
    push_str(py, "        return jnp.logical_and(_k < ");
    push_str(py, cs);
    push_str(py, ", jnp.logical_not(_settled))\n");
    reveal(go_text);
    assert(py@ =~= start + go_text(ks@, cs@));
}

#[verifier::spinoff_prover]
fn push_run(py: &mut String, ks: &str, t: &str, cs: &str)
    ensures
        final(py)@ == old(py)@ + run_text(ks@, t@, cs@),
{
    let ghost start = py@;
    push_str(py, "    _state");
    push_str(py, ks);
    push_str(py, " = (");
    push_str(py, t);
    push_str(py, ", jnp.int64(0), jnp.bool_(False))\n");
    push_str(py, "    _state");
    push_str(py, ks);
    push_str(py, " = lax.while_loop(_go");
    push_str(py, ks);
    push_str(py, ", _round");
    push_str(py, ks);
    push_str(py, ", _state");
    push_str(py, ks);
    push_str(py, ")\n");
    push_str(py, "    ");
    push_str(py, t);
    push_str(py, ", = _state");
    push_str(py, ks);
    push_str(py, "[:1]\n");
    push_str(py, "    sweeps = sweeps + _state");
    push_str(py, ks);
    push_str(py, "[-2]\n");
    push_str(py, "    converged = jnp.logical_and(converged, _state");
    push_str(py, ks);
    push_str(py, "[-2] < ");
    push_str(py, cs);
    push_str(py, ")\n");
    reveal(run_text);
    assert(py@ =~= start + run_text(ks@, t@, cs@));
}

/// A `⇒` as a loop: see `loop_text`.
#[verifier::spinoff_prover]
fn push_loop(py: &mut String, k: usize, t: &String, value: &String, tau: &String, cap: usize)
    ensures
        final(py)@ == old(py)@ + loop_text(k as nat, t@, value@, tau@, cap),
{
    let mut ks = String::new();
    push_decimal(&mut ks, k as u64);
    let mut cs = String::new();
    push_decimal(&mut cs, cap as u64);
    assert(ks@ =~= decimal(k as nat));
    assert(cs@ =~= decimal(cap as nat));
    let ghost start = py@;
    push_round(py, ks.as_str(), t.as_str(), value.as_str(), tau.as_str());
    push_go(py, ks.as_str(), cs.as_str());
    push_run(py, ks.as_str(), t.as_str(), cs.as_str());
    assert(py@ =~= start + loop_text(k as nat, t@, value@, tau@, cap));
}

/// What `rho` returns and the last lines: see `jax_tail`.
#[verifier::spinoff_prover]
fn push_tail(py: &mut String, written: &Vec<String>, inputs: &Vec<String>)
    ensures
        final(py)@ == old(py)@ + jax_tail(names_of(written@), names_of(inputs@)),
{
    let ghost start = py@;
    push_str(py, "    return {\n");
    let ghost ws = names_of(written@);
    let ghost b0 = py@;
    let mut k: usize = 0;
    assert(ws.take(0) =~= Seq::<Seq<char>>::empty());
    while k < written.len()
        invariant
            k <= written.len(),
            ws == names_of(written@),
            py@ == b0 + returned_lines(ws.take(k as int)),
        decreases written.len() - k,
    {
        proof {
            assert(ws.take(k + 1).drop_last() =~= ws.take(k as int));
            assert(ws.take(k + 1).last() == written@[k as int]@);
        }
        push_str(py, "        ");
        let q = debug_quote(written[k].as_str());
        push_str(py, q.as_str());
        push_str(py, ": ");
        let p = py_name(written[k].as_str());
        push_str(py, p.as_str());
        push_str(py, ",\n");
        k = k + 1;
    }
    assert(ws.take(written.len() as int) =~= ws);
    push_str(py, "        'rho_sweeps': sweeps,\n");
    push_str(py, "        'rho_converged': converged,\n");
    push_str(py, "    }\n");
    push_str(py, "\n");
    push_str(py, "rho_jit = jax.jit(rho)\n");
    push_str(py, "\n");
    push_str(py, "INPUTS = [");
    let ghost b1 = py@;
    let ghost qs = names_of(inputs@).map_values(|n: Seq<char>| debug_quoted(n));
    let mut k: usize = 0;
    assert(qs.take(0) =~= Seq::<Seq<char>>::empty());
    while k < inputs.len()
        invariant
            k <= inputs.len(),
            qs == names_of(inputs@).map_values(|n: Seq<char>| debug_quoted(n)),
            py@ == b1 + joined_by(qs.take(k as int), ", "@),
        decreases inputs.len() - k,
    {
        proof {
            lemma_joined_by_step(qs, ", "@, k as int);
        }
        if k > 0 {
            push_str(py, ", ");
        }
        let q = debug_quote(inputs[k].as_str());
        push_str(py, q.as_str());
        k = k + 1;
    }
    assert(qs.take(inputs.len() as int) =~= qs);
    push_str(py, "]\n");
    push_str(py, "OUTPUT = 'OUTPUT'\n");
    assert(py@ =~= start + jax_tail(ws, names_of(inputs@)));
}

/// `written` with `n` added unless it holds it.
fn note(written: &mut Vec<String>, n: &String)
    ensures
        names_of(final(written)@) == noted(names_of(old(written)@), n@),
{
    if !crate::sv::contains_name(written, n) {
        written.push(n.clone());
        assert(names_of(written@) =~= names_of(old(written)@).push(n@));
    }
}

/// One statement of the body: see `jax_step`.
#[verifier::spinoff_prover]
#[verifier::rlimit(40)]
fn run_step(
    block: &ToposBlock,
    i: usize,
    tau: &String,
    cap: Option<usize>,
    numbers: &PyLiterals,
    py: &mut String,
    shapes: &mut ShapeTable,
    written: &mut Vec<String>,
    loops: &mut usize,
) -> (r: Result<bool, HarmonyDisruption>)
    requires
        i < block.statements.len(),
        *old(loops) <= i,
    ensures
        ({
            let st = JaxBody {
                res: Ok(()),
                py: old(py)@,
                shapes: old(shapes)@,
                written: names_of(old(written)@),
                loops: *old(loops) as nat,
            };
            let (next, stop) = jax_step(statements_view(block.statements@), block.lines@, tau@, cap, numbers@, i as int, st);
            match r {
                Ok(s) => next.res is Ok && s == stop && next == (JaxBody {
                    res: Ok(()),
                    py: final(py)@,
                    shapes: final(shapes)@,
                    written: names_of(final(written)@),
                    loops: *final(loops) as nat,
                }),
                Err(e) => stop && next.res == Err::<(), DisruptionV>(disruption_view(e)),
            }
        }),
        *final(loops) <= i + 1,
{
    let ghost sv = statements_view(block.statements@);
    assert(sv[i as int] == statement_view(block.statements@[i as int]));
    reveal(jax_step);
    let line = block.line_of(i);
    match &block.statements[i] {
        Statement::Flow { src, target } => {
            let name: String = match target {
                FlowTarget::Var(v) => v.clone(),
                FlowTarget::Equilibrium => {
                    let mut o = String::new();
                    push_str(&mut o, "OUTPUT");
                    o
                },
            };
            assert(name@ == target_name(crate::ast::target_view(*target)));
            let value = match lower(src, line, shapes, tau, numbers) {
                Ok(v) => v,
                Err(e) => return Err(e),
            };
            let p = py_name(name.as_str());
            push_str(py, "    ");
            push_str(py, p.as_str());
            push_str(py, " = ");
            push_str(py, value.as_str());
            push_str(py, "\n");
            match crate::ast::expr_shape(src, shapes) {
                Some(sh) => shapes.insert(&name, sh.as_slice()),
                None => {},
            }
            note(written, &name);
            match target {
                FlowTarget::Equilibrium => Ok(true),
                FlowTarget::Var(_) => Ok(false),
            }
        },
        Statement::Iterate { src, target } => {
            let c = match cap {
                None => {
                    let mut m = String::new();
                    push_str(&mut m, "this program iterates (⇒); say how many sweeps it may take with --max-iter");
                    return Err(HarmonyDisruption::LoweringErr { detail: m, line });
                },
                Some(c) => c,
            };
            let value = match lower(src, line, shapes, tau, numbers) {
                Ok(v) => v,
                Err(e) => return Err(e),
            };
            *loops = *loops + 1;
            let t = py_name(target.as_str());
            push_loop(py, *loops, &t, &value, tau, c);
            note(written, target);
            Ok(false)
        },
        _ => Ok(false),
    }
}

/// The program as a Python module for JAX: see `jax_module`. `tau` and
/// the literals are spelled as given; `cap` bounds the sweeps of every `⇒`.
#[verifier::spinoff_prover]
#[verifier::rlimit(40)]
pub fn emit(block: &ToposBlock, tau: &String, cap: Option<usize>, precision: Precision, numbers: &PyLiterals) -> (r: Result<
    String,
    HarmonyDisruption,
>)
    ensures
        match r {
            Ok(py) => jax_module(statements_view(block.statements@), block.lines@, tau@, cap, precision, numbers@) == Ok::<
                Seq<char>,
                DisruptionV,
            >(py@),
            Err(e) => jax_module(statements_view(block.statements@), block.lines@, tau@, cap, precision, numbers@)
                == Err::<Seq<char>, DisruptionV>(disruption_view(e)),
        },
{
    let ghost sv = statements_view(block.statements@);
    let ghost lines = block.lines@;
    let (mut shapes, inputs, bound) = declarations(block);
    let ghost d = jax_declared(sv, 0, Map::empty(), Seq::empty(), Seq::empty());
    let mut py = String::new();
    push_head(&mut py, &shapes, &inputs, &bound, precision);
    let ghost head = py@;
    assert(head =~= jax_head(d.0, d.1, d.2, precision));
    let ghost init = JaxBody { res: Ok(()), py: head, shapes: d.0, written: Seq::empty(), loops: 0 };
    let ghost whole = jax_body(sv, lines, tau@, cap, numbers@, 0, init);
    let mut written: Vec<String> = Vec::new();
    let mut loops: usize = 0;
    assert(names_of(written@) =~= Seq::<Seq<char>>::empty());
    let n = block.statements.len();
    let mut i: usize = 0;
    while i < n
        invariant
            i <= n,
            n == block.statements.len(),
            sv == statements_view(block.statements@),
            lines == block.lines@,
            loops <= i,
            names_of(inputs@) == d.1,
            whole == jax_body(sv, lines, tau@, cap, numbers@, 0, init),
            jax_module(sv, lines, tau@, cap, precision, numbers@) == match whole.res {
                Err(e) => Err(e),
                Ok(_) => Ok(whole.py + jax_tail(whole.written, d.1)),
            },
            whole == jax_body(
                sv,
                lines,
                tau@,
                cap,
                numbers@,
                i as int,
                JaxBody { res: Ok(()), py: py@, shapes: shapes@, written: names_of(written@), loops: loops as nat },
            ),
        decreases n - i,
    {
        match run_step(block, i, tau, cap, numbers, &mut py, &mut shapes, &mut written, &mut loops) {
            Err(e) => return Err(e),
            Ok(true) => {
                push_tail(&mut py, &written, &inputs);
                return Ok(py);
            },
            Ok(false) => {},
        }
        i = i + 1;
    }
    push_tail(&mut py, &written, &inputs);
    Ok(py)
}

} // verus!
