//! Expanding calls: every call of a program's own function is replaced by
//! the function's body with its arguments bound.
//!
//! An argument that is not a name or a number flows into a space of its own
//! first, so the body may shift it; a body of flows is copied out with its
//! locals renamed apart, its `=` becoming the value of the call. Each copied
//! statement remembers its origin for diagnostics. A body sees only the
//! functions defined before it, which is what makes expansion end.

use vstd::prelude::*;
use crate::ast::{
    args_view, copy_dims, copy_expr, expr_view, statement_view, Expr, ExprV, FlowTarget, Function, FunctionBody, Origin,
    Statement, StatementV, TargetV,
};
use crate::definition::{function_view, names_view, BodyV, FunctionV};
use crate::error::{disruption_view, DisruptionV, HarmonyDisruption};
use crate::expression::arity_detail;
use crate::text::{chars_of, decimal, push_char, push_decimal, push_str, seq_eq};

verus! {

// ---------------------------------------------------------------- views

/// Where an expanded statement came from.
pub struct OriginV {
    pub function: Seq<char>,
    pub body_line: usize,
}

pub open spec fn origin_view(o: Option<Origin>) -> Option<OriginV> {
    match o {
        Some(x) => Some(OriginV { function: x.function@, body_line: x.body_line }),
        None => None,
    }
}

/// The statements expansion has written so far, with their lines and
/// origins.
pub open spec fn out_view(v: Seq<(Statement, usize, Option<Origin>)>) -> Seq<(StatementV, usize, Option<OriginV>)> {
    v.map_values(|p: (Statement, usize, Option<Origin>)| (statement_view(p.0), p.1, origin_view(p.2)))
}

pub open spec fn functions_view(fs: Seq<Function>) -> Seq<FunctionV> {
    fs.map_values(|f: Function| function_view(f))
}

/// What expansion carries along: how many calls it has expanded, the
/// origin of an expression body inlined into the statement at hand, and
/// the statements written so far.
pub struct ExpState {
    pub calls: nat,
    pub inlined: Option<OriginV>,
    pub out: Seq<(StatementV, usize, Option<OriginV>)>,
}

/// The function called `name` among the first `b`.
pub open spec fn lookup(fs: Seq<FunctionV>, b: nat, name: Seq<char>) -> Option<nat>
    decreases b,
{
    if b == 0 || b > fs.len() {
        None
    } else {
        match lookup(fs, (b - 1) as nat, name) {
            Some(i) => Some(i),
            None => if fs[b - 1].name == name {
                Some((b - 1) as nat)
            } else {
                None
            },
        }
    }
}

/// A fresh name for what call number `call` of `name` binds to `local`.
pub open spec fn fresh_name(name: Seq<char>, call: nat, local: Seq<char>) -> Seq<char> {
    name + seq!['·'] + decimal(call) + seq!['·'] + local
}

// ---------------------------------------------------------------- substitution

/// A map from the pairs in `v`, a later pair for a name replacing an
/// earlier one.
pub open spec fn binding_map(v: Seq<(Seq<char>, ExprV)>) -> Map<Seq<char>, ExprV>
    decreases v.len(),
{
    if v.len() == 0 {
        Map::empty()
    } else {
        binding_map(v.drop_last()).insert(v.last().0, v.last().1)
    }
}

pub open spec fn renaming_map(v: Seq<(Seq<char>, Seq<char>)>) -> Map<Seq<char>, Seq<char>>
    decreases v.len(),
{
    if v.len() == 0 {
        Map::empty()
    } else {
        renaming_map(v.drop_last()).insert(v.last().0, v.last().1)
    }
}

/// A body with its parameters replaced by what they were bound to and its
/// locals by their renamed selves.
pub open spec fn substitute_spec(e: ExprV, binding: Map<Seq<char>, ExprV>, locals: Map<Seq<char>, Seq<char>>) -> ExprV
    decreases e,
{
    match e {
        ExprV::Var(name) => if binding.contains_key(name) {
            binding[name]
        } else if locals.contains_key(name) {
            ExprV::Var(locals[name])
        } else {
            e
        },
        ExprV::Number(_) => e,
        ExprV::Call { name, args } => ExprV::Call { name, args: substitute_args(args, binding, locals) },
        ExprV::Shift { dir, axis, operand } => ExprV::Shift {
            dir,
            axis,
            operand: Box::new(substitute_spec(*operand, binding, locals)),
        },
        ExprV::BinaryOp { op, lhs, rhs } => ExprV::BinaryOp {
            op,
            lhs: Box::new(substitute_spec(*lhs, binding, locals)),
            rhs: Box::new(substitute_spec(*rhs, binding, locals)),
        },
        ExprV::Builtin { op, operand } => ExprV::Builtin { op, operand: Box::new(substitute_spec(*operand, binding, locals)) },
        ExprV::Lift { axis, operand } => ExprV::Lift { axis, operand: Box::new(substitute_spec(*operand, binding, locals)) },
        ExprV::Scan { op, axis, operand } => ExprV::Scan {
            op,
            axis,
            operand: Box::new(substitute_spec(*operand, binding, locals)),
        },
        ExprV::Reduce { op, axis, operand } => ExprV::Reduce {
            op,
            axis,
            operand: Box::new(substitute_spec(*operand, binding, locals)),
        },
        ExprV::Rotate { by, axis, operand } => ExprV::Rotate {
            by,
            axis,
            operand: Box::new(substitute_spec(*operand, binding, locals)),
        },
        ExprV::Reverse { axis, operand } => ExprV::Reverse { axis, operand: Box::new(substitute_spec(*operand, binding, locals)) },
        ExprV::Reshape { shape, operand } => ExprV::Reshape {
            shape,
            operand: Box::new(substitute_spec(*operand, binding, locals)),
        },
        ExprV::Transpose { axes, operand } => ExprV::Transpose {
            axes,
            operand: Box::new(substitute_spec(*operand, binding, locals)),
        },
        ExprV::Take { count, axis, operand } => ExprV::Take {
            count,
            axis,
            operand: Box::new(substitute_spec(*operand, binding, locals)),
        },
        ExprV::Drop { count, axis, operand } => ExprV::Drop {
            count,
            axis,
            operand: Box::new(substitute_spec(*operand, binding, locals)),
        },
        ExprV::Index { axis, operand } => ExprV::Index { axis, operand: Box::new(substitute_spec(*operand, binding, locals)) },
        ExprV::AuditTrace(inner) => ExprV::AuditTrace(Box::new(substitute_spec(*inner, binding, locals))),
    }
}

pub open spec fn substitute_args(args: Seq<ExprV>, binding: Map<Seq<char>, ExprV>, locals: Map<Seq<char>, Seq<char>>) -> Seq<
    ExprV,
>
    decreases args,
{
    if args.len() == 0 {
        Seq::empty()
    } else {
        seq![substitute_spec(args[0], binding, locals)] + substitute_args(args.subrange(1, args.len() as int), binding, locals)
    }
}

// ---------------------------------------------------------------- expansion

pub open spec fn undefined_call(name: Seq<char>) -> Seq<char> {
    "`"@ + name + "` is not a function defined above this point"@
}

pub open spec fn too_many_calls() -> Seq<char> {
    "too many calls to expand"@
}

pub open spec fn with_out(st: ExpState, s: StatementV, line: usize, origin: Option<OriginV>) -> ExpState {
    ExpState { out: st.out.push((s, line, origin)), ..st }
}

/// Expanding the calls in `e`, written on `line`, with the first `b`
/// functions of `fs` visible.
pub open spec fn expand_expr(fs: Seq<FunctionV>, b: nat, e: ExprV, line: usize, st: ExpState) -> Result<(ExprV, ExpState), DisruptionV>
    decreases b, 0nat, e,
{
    match e {
        ExprV::Call { name, args } => match lookup(fs, b, name) {
            None => Err(DisruptionV::LoweringErr { detail: undefined_call(name), line }),
            Some(i) => {
                let f = fs[i as int];
                if args.len() != f.params.len() {
                    Err(DisruptionV::LoweringErr { detail: arity_detail(name, f.params.len(), args.len()), line })
                } else if st.calls >= u64::MAX {
                    Err(DisruptionV::LoweringErr { detail: too_many_calls(), line })
                } else {
                    let call = st.calls + 1;
                    match bind_args(fs, b, name, call, f.params, f.line, args, line, ExpState { calls: call, ..st }, Map::empty()) {
                        Err(er) => Err(er),
                        Ok((binding, s)) => {
                            proof {
                                lemma_lookup(fs, b, name);
                            }
                            after_binding(fs, i, name, call, f, line, binding, s)
                        },
                    }
                }
            },
        },
        ExprV::Var(_) => Ok((e, st)),
        ExprV::Number(_) => Ok((e, st)),
        ExprV::Shift { dir, axis, operand } => match expand_expr(fs, b, *operand, line, st) {
            Ok((x, s)) => Ok((ExprV::Shift { dir, axis, operand: Box::new(x) }, s)),
            Err(er) => Err(er),
        },
        ExprV::BinaryOp { op, lhs, rhs } => match expand_expr(fs, b, *lhs, line, st) {
            Ok((l, s)) => match expand_expr(fs, b, *rhs, line, s) {
                Ok((r, s2)) => Ok((ExprV::BinaryOp { op, lhs: Box::new(l), rhs: Box::new(r) }, s2)),
                Err(er) => Err(er),
            },
            Err(er) => Err(er),
        },
        ExprV::Builtin { op, operand } => match expand_expr(fs, b, *operand, line, st) {
            Ok((x, s)) => Ok((ExprV::Builtin { op, operand: Box::new(x) }, s)),
            Err(er) => Err(er),
        },
        ExprV::Lift { axis, operand } => match expand_expr(fs, b, *operand, line, st) {
            Ok((x, s)) => Ok((ExprV::Lift { axis, operand: Box::new(x) }, s)),
            Err(er) => Err(er),
        },
        ExprV::Scan { op, axis, operand } => match expand_expr(fs, b, *operand, line, st) {
            Ok((x, s)) => Ok((ExprV::Scan { op, axis, operand: Box::new(x) }, s)),
            Err(er) => Err(er),
        },
        ExprV::Reduce { op, axis, operand } => match expand_expr(fs, b, *operand, line, st) {
            Ok((x, s)) => Ok((ExprV::Reduce { op, axis, operand: Box::new(x) }, s)),
            Err(er) => Err(er),
        },
        ExprV::Rotate { by, axis, operand } => match expand_expr(fs, b, *operand, line, st) {
            Ok((x, s)) => Ok((ExprV::Rotate { by, axis, operand: Box::new(x) }, s)),
            Err(er) => Err(er),
        },
        ExprV::Reverse { axis, operand } => match expand_expr(fs, b, *operand, line, st) {
            Ok((x, s)) => Ok((ExprV::Reverse { axis, operand: Box::new(x) }, s)),
            Err(er) => Err(er),
        },
        ExprV::Reshape { shape, operand } => match expand_expr(fs, b, *operand, line, st) {
            Ok((x, s)) => Ok((ExprV::Reshape { shape, operand: Box::new(x) }, s)),
            Err(er) => Err(er),
        },
        ExprV::Transpose { axes, operand } => match expand_expr(fs, b, *operand, line, st) {
            Ok((x, s)) => Ok((ExprV::Transpose { axes, operand: Box::new(x) }, s)),
            Err(er) => Err(er),
        },
        ExprV::Take { count, axis, operand } => match expand_expr(fs, b, *operand, line, st) {
            Ok((x, s)) => Ok((ExprV::Take { count, axis, operand: Box::new(x) }, s)),
            Err(er) => Err(er),
        },
        ExprV::Drop { count, axis, operand } => match expand_expr(fs, b, *operand, line, st) {
            Ok((x, s)) => Ok((ExprV::Drop { count, axis, operand: Box::new(x) }, s)),
            Err(er) => Err(er),
        },
        ExprV::Index { axis, operand } => match expand_expr(fs, b, *operand, line, st) {
            Ok((x, s)) => Ok((ExprV::Index { axis, operand: Box::new(x) }, s)),
            Err(er) => Err(er),
        },
        ExprV::AuditTrace(inner) => match expand_expr(fs, b, *inner, line, st) {
            Ok((x, s)) => Ok((ExprV::AuditTrace(Box::new(x)), s)),
            Err(er) => Err(er),
        },
    }
}

/// The body of the `i`-th function, called as call number `call` of `name`
/// with its parameters bound: an expression body inlined, or a body of
/// flows copied out.
pub open spec fn after_binding(
    fs: Seq<FunctionV>,
    i: nat,
    name: Seq<char>,
    call: nat,
    f: FunctionV,
    line: usize,
    binding: Map<Seq<char>, ExprV>,
    s: ExpState,
) -> Result<(ExprV, ExpState), DisruptionV>
    decreases i, 2nat, f,
{
    match f.body {
        BodyV::Expression(body, body_line) => expand_expr(
            fs,
            i,
            substitute_spec(body, binding, Map::empty()),
            line,
            ExpState { inlined: Some(OriginV { function: name, body_line }), ..s },
        ),
        BodyV::Flows(flows) => match expand_flows(fs, i, name, call, flows, binding, Map::empty(), line, s) {
            Err(er) => Err(er),
            Ok(s2) => Ok((ExprV::Var(fresh_name(name, call, seq!['='])), s2)),
        },
    }
}

/// Binding a call's parameters to its arguments, each expanded first; an
/// argument that is not a name or a number is flowed into a space of its
/// own.
pub open spec fn bind_args(
    fs: Seq<FunctionV>,
    b: nat,
    name: Seq<char>,
    call: nat,
    params: Seq<Seq<char>>,
    def_line: usize,
    args: Seq<ExprV>,
    line: usize,
    st: ExpState,
    binding: Map<Seq<char>, ExprV>,
) -> Result<(Map<Seq<char>, ExprV>, ExpState), DisruptionV>
    decreases b, 0nat, args,
{
    if args.len() == 0 || params.len() == 0 {
        Ok((binding, st))
    } else {
        match expand_expr(fs, b, args[0], line, st) {
            Err(er) => Err(er),
            Ok((x, s)) => {
                let rest_args = args.subrange(1, args.len() as int);
                let rest_params = params.subrange(1, params.len() as int);
                if x is Var || x is Number {
                    bind_args(fs, b, name, call, rest_params, def_line, rest_args, line, s, binding.insert(params[0], x))
                } else {
                    let bound = fresh_name(name, call, params[0]);
                    bind_args(
                        fs,
                        b,
                        name,
                        call,
                        rest_params,
                        def_line,
                        rest_args,
                        line,
                        with_out(
                            s,
                            StatementV::Flow { src: x, target: TargetV::Var(bound) },
                            line,
                            Some(OriginV { function: name, body_line: def_line }),
                        ),
                        binding.insert(params[0], ExprV::Var(bound)),
                    )
                }
            },
        }
    }
}

/// Copying out a body of flows, each expanded, its locals renamed apart
/// and its `=` becoming the call's value.
pub open spec fn expand_flows(
    fs: Seq<FunctionV>,
    i: nat,
    name: Seq<char>,
    call: nat,
    flows: Seq<(StatementV, usize)>,
    binding: Map<Seq<char>, ExprV>,
    locals: Map<Seq<char>, Seq<char>>,
    line: usize,
    st: ExpState,
) -> Result<ExpState, DisruptionV>
    decreases i, 1nat, flows,
{
    if flows.len() == 0 {
        Ok(st)
    } else {
        let rest = flows.subrange(1, flows.len() as int);
        match flows[0].0 {
            StatementV::Flow { src, target } => match expand_expr(fs, i, substitute_spec(src, binding, locals), line, st) {
                Err(er) => Err(er),
                Ok((x, s)) => {
                    let renamed = match target {
                        TargetV::Var(t) => fresh_name(name, call, t),
                        TargetV::Equilibrium => fresh_name(name, call, seq!['=']),
                    };
                    let locals2 = match target {
                        TargetV::Var(t) => locals.insert(t, renamed),
                        TargetV::Equilibrium => locals,
                    };
                    expand_flows(
                        fs,
                        i,
                        name,
                        call,
                        rest,
                        binding,
                        locals2,
                        line,
                        with_out(
                            s,
                            StatementV::Flow { src: x, target: TargetV::Var(renamed) },
                            line,
                            Some(OriginV { function: name, body_line: flows[0].1 }),
                        ),
                    )
                },
            },
            _ => expand_flows(fs, i, name, call, rest, binding, locals, line, st),
        }
    }
}

pub proof fn lemma_lookup(fs: Seq<FunctionV>, b: nat, name: Seq<char>)
    ensures
        lookup(fs, b, name) matches Some(i) ==> i < b && b <= fs.len() && fs[i as int].name == name,
    decreases b,
{
    if b > 0 && b <= fs.len() {
        lemma_lookup(fs, (b - 1) as nat, name);
    }
}


// ---------------------------------------------------------------- substitution, executed

pub open spec fn bindings_view(v: Seq<(String, Expr)>) -> Seq<(Seq<char>, ExprV)> {
    v.map_values(|p: (String, Expr)| (p.0@, p.1@))
}

pub open spec fn renamings_view(v: Seq<(String, String)>) -> Seq<(Seq<char>, Seq<char>)> {
    v.map_values(|p: (String, String)| (p.0@, p.1@))
}

proof fn lemma_binding_last(v: Seq<(Seq<char>, ExprV)>, k: Seq<char>, j: int)
    requires
        0 <= j < v.len(),
        v[j].0 == k,
        forall|q: int| j < q < v.len() ==> v[q].0 != k,
    ensures
        binding_map(v).contains_key(k),
        binding_map(v)[k] == v[j].1,
    decreases v.len(),
{
    if j < v.len() - 1 {
        lemma_binding_last(v.drop_last(), k, j);
    }
}

proof fn lemma_binding_absent(v: Seq<(Seq<char>, ExprV)>, k: Seq<char>)
    requires
        forall|q: int| 0 <= q < v.len() ==> v[q].0 != k,
    ensures
        !binding_map(v).contains_key(k),
    decreases v.len(),
{
    if v.len() > 0 {
        lemma_binding_absent(v.drop_last(), k);
    }
}

proof fn lemma_renaming_last(v: Seq<(Seq<char>, Seq<char>)>, k: Seq<char>, j: int)
    requires
        0 <= j < v.len(),
        v[j].0 == k,
        forall|q: int| j < q < v.len() ==> v[q].0 != k,
    ensures
        renaming_map(v).contains_key(k),
        renaming_map(v)[k] == v[j].1,
    decreases v.len(),
{
    if j < v.len() - 1 {
        lemma_renaming_last(v.drop_last(), k, j);
    }
}

proof fn lemma_renaming_absent(v: Seq<(Seq<char>, Seq<char>)>, k: Seq<char>)
    requires
        forall|q: int| 0 <= q < v.len() ==> v[q].0 != k,
    ensures
        !renaming_map(v).contains_key(k),
    decreases v.len(),
{
    if v.len() > 0 {
        lemma_renaming_absent(v.drop_last(), k);
    }
}

/// What a name is bound to: the last binding of it.
fn bound_to(binding: &Vec<(String, Expr)>, name: &String) -> (r: Option<usize>)
    ensures
        match r {
            Some(j) => j < binding.len() && binding_map(bindings_view(binding@)).contains_key(name@)
                && binding_map(bindings_view(binding@))[name@] == binding@[j as int].1@,
            None => !binding_map(bindings_view(binding@)).contains_key(name@),
        },
{
    let ghost v = bindings_view(binding@);
    let mut i = binding.len();
    while i > 0
        invariant
            i <= binding.len(),
            v == bindings_view(binding@),
            forall|q: int| i <= q < v.len() ==> v[q].0 != name@,
        decreases i,
    {
        let j = i - 1;
        if binding[j].0 == *name {
            proof {
                lemma_binding_last(v, name@, j as int);
            }
            return Some(j);
        }
        i = j;
    }
    proof {
        lemma_binding_absent(v, name@);
    }
    None
}

/// What a local is renamed to: the last renaming of it.
fn renamed_to(locals: &Vec<(String, String)>, name: &String) -> (r: Option<usize>)
    ensures
        match r {
            Some(j) => j < locals.len() && renaming_map(renamings_view(locals@)).contains_key(name@)
                && renaming_map(renamings_view(locals@))[name@] == locals@[j as int].1@,
            None => !renaming_map(renamings_view(locals@)).contains_key(name@),
        },
{
    let ghost v = renamings_view(locals@);
    let mut i = locals.len();
    while i > 0
        invariant
            i <= locals.len(),
            v == renamings_view(locals@),
            forall|q: int| i <= q < v.len() ==> v[q].0 != name@,
        decreases i,
    {
        let j = i - 1;
        if locals[j].0 == *name {
            proof {
                lemma_renaming_last(v, name@, j as int);
            }
            return Some(j);
        }
        i = j;
    }
    proof {
        lemma_renaming_absent(v, name@);
    }
    None
}

/// A body with its parameters replaced by what they were bound to and its
/// locals by their renamed selves. Nothing else in a body is a name of the
/// caller's, since the definition was checked to see only its own.
pub fn substitute(expr: &Expr, binding: &Vec<(String, Expr)>, locals: &Vec<(String, String)>) -> (r: Expr)
    ensures
        r@ == substitute_spec(
            expr@,
            binding_map(bindings_view(binding@)),
            renaming_map(renamings_view(locals@)),
        ),
    decreases expr,
{
    match expr {
        Expr::Var(name) => {
            match bound_to(binding, name) {
                Some(j) => copy_expr(&binding[j].1),
                None => match renamed_to(locals, name) {
                    Some(j) => Expr::Var(locals[j].1.clone()),
                    None => Expr::Var(name.clone()),
                },
            }
        },
        Expr::Number(n) => Expr::Number(n.clone()),
        Expr::Call { name, args } => {
            let out = substitute_all(args.as_slice(), binding, locals);
            proof {
                let b = binding_map(bindings_view(binding@));
                let l = renaming_map(renamings_view(locals@));
                crate::ast::lemma_args_view_public(args@);
                crate::ast::lemma_args_view_public(out@);
                lemma_substitute_args(args_view(args@), b, l);
                assert(args_view(out@) =~= substitute_args(args_view(args@), b, l));
            }
            Expr::Call { name: name.clone(), args: out }
        },
        Expr::Shift { dir, axis, operand } => Expr::Shift {
            dir: *dir,
            axis: *axis,
            operand: Box::new(substitute(operand, binding, locals)),
        },
        Expr::BinaryOp { op, lhs, rhs } => Expr::BinaryOp {
            op: *op,
            lhs: Box::new(substitute(lhs, binding, locals)),
            rhs: Box::new(substitute(rhs, binding, locals)),
        },
        Expr::Builtin { op, operand } => Expr::Builtin { op: *op, operand: Box::new(substitute(operand, binding, locals)) },
        Expr::Lift { axis, operand } => Expr::Lift { axis: *axis, operand: Box::new(substitute(operand, binding, locals)) },
        Expr::Scan { op, axis, operand } => Expr::Scan {
            op: *op,
            axis: *axis,
            operand: Box::new(substitute(operand, binding, locals)),
        },
        Expr::Reduce { op, axis, operand } => Expr::Reduce {
            op: *op,
            axis: *axis,
            operand: Box::new(substitute(operand, binding, locals)),
        },
        Expr::Rotate { by, axis, operand } => Expr::Rotate {
            by: *by,
            axis: *axis,
            operand: Box::new(substitute(operand, binding, locals)),
        },
        Expr::Reverse { axis, operand } => Expr::Reverse { axis: *axis, operand: Box::new(substitute(operand, binding, locals)) },
        Expr::Reshape { shape, operand } => Expr::Reshape {
            shape: copy_dims(shape.as_slice()),
            operand: Box::new(substitute(operand, binding, locals)),
        },
        Expr::Transpose { axes, operand } => Expr::Transpose {
            axes: match axes {
                Some(a) => Some(copy_dims(a.as_slice())),
                None => None,
            },
            operand: Box::new(substitute(operand, binding, locals)),
        },
        Expr::Take { count, axis, operand } => Expr::Take {
            count: *count,
            axis: *axis,
            operand: Box::new(substitute(operand, binding, locals)),
        },
        Expr::Drop { count, axis, operand } => Expr::Drop {
            count: *count,
            axis: *axis,
            operand: Box::new(substitute(operand, binding, locals)),
        },
        Expr::Index { axis, operand } => Expr::Index { axis: *axis, operand: Box::new(substitute(operand, binding, locals)) },
        Expr::AuditTrace(inner) => Expr::AuditTrace(Box::new(substitute(inner, binding, locals))),
    }
}

/// Each of `args`, substituted.
fn substitute_all(args: &[Expr], binding: &Vec<(String, Expr)>, locals: &Vec<(String, String)>) -> (r: Vec<Expr>)
    ensures
        r.len() == args.len(),
        forall|j: int|
            0 <= j < args.len() ==> (#[trigger] r@[j])@ == substitute_spec(
                args@[j]@,
                binding_map(bindings_view(binding@)),
                renaming_map(renamings_view(locals@)),
            ),
    decreases args@,
{
    let mut out: Vec<Expr> = Vec::new();
    let mut i: usize = 0;
    while i < args.len()
        invariant
            i <= args.len(),
            out.len() == i,
            forall|j: int|
                0 <= j < i ==> (#[trigger] out@[j])@ == substitute_spec(
                    args@[j]@,
                    binding_map(bindings_view(binding@)),
                    renaming_map(renamings_view(locals@)),
                ),
        decreases args.len() - i,
    {
        proof {
            assert(decreases_to!(args@ => args@[i as int]));
        }
        out.push(substitute(&args[i], binding, locals));
        i = i + 1;
    }
    out
}

proof fn lemma_substitute_args(args: Seq<ExprV>, b: Map<Seq<char>, ExprV>, l: Map<Seq<char>, Seq<char>>)
    ensures
        substitute_args(args, b, l).len() == args.len(),
        forall|j: int| 0 <= j < args.len() ==> #[trigger] substitute_args(args, b, l)[j] == substitute_spec(args[j], b, l),
    decreases args.len(),
{
    if args.len() > 0 {
        let rest = args.subrange(1, args.len() as int);
        lemma_substitute_args(rest, b, l);
        assert forall|j: int| 0 <= j < args.len() implies #[trigger] substitute_args(args, b, l)[j] == substitute_spec(
            args[j],
            b,
            l,
        ) by {
            if j > 0 {
                assert(substitute_args(args, b, l)[j] == substitute_args(rest, b, l)[j - 1]);
                assert(rest[j - 1] == args[j]);
            }
        }
    }
}


// ---------------------------------------------------------------- expansion, executed

/// Expansion under way: the calls expanded so far, the origin of an
/// expression body inlined into the statement at hand, and the statements
/// written so far.
pub struct Expander {
    pub calls: u64,
    pub inlined: Option<Origin>,
    pub out: Vec<(Statement, usize, Option<Origin>)>,
}

pub open spec fn state_of(x: Expander) -> ExpState {
    ExpState { calls: x.calls as nat, inlined: origin_view(x.inlined), out: out_view(x.out@) }
}

proof fn lemma_lookup_first(fs: Seq<FunctionV>, b: nat, name: Seq<char>, i: nat)
    requires
        b <= fs.len(),
        i <= b,
        forall|j: int| 0 <= j < i ==> (#[trigger] fs[j]).name != name,
        i < b ==> fs[i as int].name == name,
    ensures
        lookup(fs, b, name) == (if i < b { Some(i) } else { None::<nat> }),
    decreases b,
{
    if b > 0 {
        if i < b {
            if i < b - 1 {
                lemma_lookup_first(fs, (b - 1) as nat, name, i);
            } else {
                lemma_lookup_first(fs, (b - 1) as nat, name, (b - 1) as nat);
            }
        } else {
            lemma_lookup_first(fs, (b - 1) as nat, name, (b - 1) as nat);
        }
    }
}

/// The function called `name` among the first `b`.
pub(crate) fn find_function(fns: &[Function], b: usize, name: &String) -> (r: Option<usize>)
    requires
        b <= fns.len(),
    ensures
        match r {
            Some(i) => lookup(functions_view(fns@), b as nat, name@) == Some(i as nat),
            None => lookup(functions_view(fns@), b as nat, name@) is None,
        },
{
    let ghost fv = functions_view(fns@);
    let mut i: usize = 0;
    while i < b
        invariant
            i <= b <= fns.len(),
            fv == functions_view(fns@),
            forall|j: int| 0 <= j < i ==> (#[trigger] fv[j]).name != name@,
        decreases b - i,
    {
        assert(fv[i as int].name == fns@[i as int].name@);
        if fns[i].name == *name {
            proof {
                lemma_lookup_first(fv, b as nat, name@, i as nat);
            }
            return Some(i);
        }
        i = i + 1;
    }
    proof {
        lemma_lookup_first(fv, b as nat, name@, b as nat);
    }
    None
}

/// `name·call·local`.
fn fresh(name: &String, call: u64, local: &String) -> (r: String)
    ensures
        r@ == fresh_name(name@, call as nat, local@),
{
    let mut m = String::new();
    push_str(&mut m, name.as_str());
    push_char(&mut m, '·');
    push_decimal(&mut m, call);
    push_char(&mut m, '·');
    push_str(&mut m, local.as_str());
    assert(m@ =~= fresh_name(name@, call as nat, local@));
    m
}

/// `name·call·=`: the value of a call of a body of flows.
fn fresh_result(name: &String, call: u64) -> (r: String)
    ensures
        r@ == fresh_name(name@, call as nat, seq!['=']),
{
    let mut m = String::new();
    push_str(&mut m, name.as_str());
    push_char(&mut m, '·');
    push_decimal(&mut m, call);
    push_char(&mut m, '·');
    push_char(&mut m, '=');
    assert(m@ =~= fresh_name(name@, call as nat, seq!['=']));
    m
}

fn origin(name: &String, body_line: usize) -> (r: Option<Origin>)
    ensures
        origin_view(r) == Some(OriginV { function: name@, body_line }),
{
    Some(Origin { function: name.clone(), body_line })
}

impl Expander {
    /// Expanding the calls in `e`, written on `line`, with the first `b`
    /// functions of `fns` visible.
    pub fn expression(&mut self, fns: &[Function], b: usize, e: &Expr, line: usize) -> (r: Result<Expr, HarmonyDisruption>)
        requires
            b <= fns.len(),
        ensures
            match r {
                Ok(x) => expand_expr(functions_view(fns@), b as nat, e@, line, state_of(*old(self))) == Ok::<
                    (ExprV, ExpState),
                    DisruptionV,
                >((x@, state_of(*final(self)))),
                Err(er) => expand_expr(functions_view(fns@), b as nat, e@, line, state_of(*old(self))) == Err::<
                    (ExprV, ExpState),
                    DisruptionV,
                >(er@),
            },
        decreases b, 0nat, e,
    {
        match e {
            Expr::Call { name, args } => self.call(fns, b, name, args, line),
            Expr::Var(n) => Ok(Expr::Var(n.clone())),
            Expr::Number(n) => Ok(Expr::Number(n.clone())),
            Expr::Shift { dir, axis, operand } => match self.expression(fns, b, operand, line) {
                Ok(x) => Ok(Expr::Shift { dir: *dir, axis: *axis, operand: Box::new(x) }),
                Err(er) => Err(er),
            },
            Expr::BinaryOp { op, lhs, rhs } => {
                let l = match self.expression(fns, b, lhs, line) {
                    Ok(x) => x,
                    Err(er) => return Err(er),
                };
                match self.expression(fns, b, rhs, line) {
                    Ok(r) => Ok(Expr::BinaryOp { op: *op, lhs: Box::new(l), rhs: Box::new(r) }),
                    Err(er) => Err(er),
                }
            },
            Expr::Builtin { op, operand } => match self.expression(fns, b, operand, line) {
                Ok(x) => Ok(Expr::Builtin { op: *op, operand: Box::new(x) }),
                Err(er) => Err(er),
            },
            Expr::Lift { axis, operand } => match self.expression(fns, b, operand, line) {
                Ok(x) => Ok(Expr::Lift { axis: *axis, operand: Box::new(x) }),
                Err(er) => Err(er),
            },
            Expr::Scan { op, axis, operand } => match self.expression(fns, b, operand, line) {
                Ok(x) => Ok(Expr::Scan { op: *op, axis: *axis, operand: Box::new(x) }),
                Err(er) => Err(er),
            },
            Expr::Reduce { op, axis, operand } => match self.expression(fns, b, operand, line) {
                Ok(x) => Ok(Expr::Reduce { op: *op, axis: *axis, operand: Box::new(x) }),
                Err(er) => Err(er),
            },
            Expr::Rotate { by, axis, operand } => match self.expression(fns, b, operand, line) {
                Ok(x) => Ok(Expr::Rotate { by: *by, axis: *axis, operand: Box::new(x) }),
                Err(er) => Err(er),
            },
            Expr::Reverse { axis, operand } => match self.expression(fns, b, operand, line) {
                Ok(x) => Ok(Expr::Reverse { axis: *axis, operand: Box::new(x) }),
                Err(er) => Err(er),
            },
            Expr::Reshape { shape, operand } => match self.expression(fns, b, operand, line) {
                Ok(x) => Ok(Expr::Reshape { shape: copy_dims(shape.as_slice()), operand: Box::new(x) }),
                Err(er) => Err(er),
            },
            Expr::Transpose { axes, operand } => match self.expression(fns, b, operand, line) {
                Ok(x) => Ok(
                    Expr::Transpose {
                        axes: match axes {
                            Some(a) => Some(copy_dims(a.as_slice())),
                            None => None,
                        },
                        operand: Box::new(x),
                    },
                ),
                Err(er) => Err(er),
            },
            Expr::Take { count, axis, operand } => match self.expression(fns, b, operand, line) {
                Ok(x) => Ok(Expr::Take { count: *count, axis: *axis, operand: Box::new(x) }),
                Err(er) => Err(er),
            },
            Expr::Drop { count, axis, operand } => match self.expression(fns, b, operand, line) {
                Ok(x) => Ok(Expr::Drop { count: *count, axis: *axis, operand: Box::new(x) }),
                Err(er) => Err(er),
            },
            Expr::Index { axis, operand } => match self.expression(fns, b, operand, line) {
                Ok(x) => Ok(Expr::Index { axis: *axis, operand: Box::new(x) }),
                Err(er) => Err(er),
            },
            Expr::AuditTrace(inner) => match self.expression(fns, b, inner, line) {
                Ok(x) => Ok(Expr::AuditTrace(Box::new(x))),
                Err(er) => Err(er),
            },
        }
    }

    /// A call of `name` with `args`: the arguments bound, then the body.
    #[verifier::rlimit(60)]
    fn call(&mut self, fns: &[Function], b: usize, name: &String, args: &Vec<Expr>, line: usize) -> (r: Result<Expr, HarmonyDisruption>)
        requires
            b <= fns.len(),
        ensures
            match r {
                Ok(x) => expand_expr(
                    functions_view(fns@),
                    b as nat,
                    ExprV::Call { name: name@, args: args_view(args@) },
                    line,
                    state_of(*old(self)),
                ) == Ok::<(ExprV, ExpState), DisruptionV>((x@, state_of(*final(self)))),
                Err(er) => expand_expr(
                    functions_view(fns@),
                    b as nat,
                    ExprV::Call { name: name@, args: args_view(args@) },
                    line,
                    state_of(*old(self)),
                ) == Err::<(ExprV, ExpState), DisruptionV>(er@),
            },
        decreases b, 0nat, args@,
    {
        let ghost fv = functions_view(fns@);
        let ghost av = args_view(args@);
        proof {
            crate::ast::lemma_args_view_public(args@);
        }
        let i = match find_function(fns, b, name) {
            Some(i) => i,
            None => {
                let mut m = String::new();
                push_str(&mut m, "`");
                push_str(&mut m, name.as_str());
                push_str(&mut m, "` is not a function defined above this point");
                return Err(HarmonyDisruption::LoweringErr { detail: m, line });
            },
        };
        proof {
            lemma_lookup(fv, b as nat, name@);
        }
        let f = &fns[i];
        let ghost fview = fv[i as int];
        assert(fview == function_view(*f));
        let ghost pv = names_view(f.params@);
        if args.len() != f.params.len() {
            let word = chars_of(name.as_str());
            return Err(
                HarmonyDisruption::LoweringErr {
                    detail: crate::expression::arity_message(word.as_slice(), f.params.len(), args.len()),
                    line,
                },
            );
        }
        if self.calls == u64::MAX {
            let mut m = String::new();
            push_str(&mut m, "too many calls to expand");
            return Err(HarmonyDisruption::LoweringErr { detail: m, line });
        }
        self.calls = self.calls + 1;
        let call = self.calls;
        let ghost start = state_of(*self);
        assert(start == ExpState { calls: call as nat, ..state_of(*old(self)) });
        let ghost whole = bind_args(fv, b as nat, name@, call as nat, pv, f.line, av, line, start, Map::empty());
        let n = args.len();
        let mut binding: Vec<(String, Expr)> = Vec::new();
        let mut k: usize = 0;
        assert(av.subrange(0, n as int) =~= av);
        assert(pv.subrange(0, n as int) =~= pv);
        assert(binding_map(bindings_view(binding@)) =~= Map::<Seq<char>, ExprV>::empty());
        while k < n
            invariant
                k <= n == args.len() == f.params.len(),
                b <= fns.len(),
                fv == functions_view(fns@),
                av == args_view(args@),
                av.len() == n,
                forall|j: int| 0 <= j < n ==> #[trigger] av[j] == expr_view(args@[j]),
                pv == names_view(f.params@),
                i < b,
                fview == fv[i as int],
                expand_expr(fv, b as nat, ExprV::Call { name: name@, args: av }, line, state_of(*old(self))) == (match whole {
                    Err(er) => Err(er),
                    Ok((bm, st)) => after_binding(fv, i as nat, name@, call as nat, fview, line, bm, st),
                }),
                whole == bind_args(
                    fv,
                    b as nat,
                    name@,
                    call as nat,
                    pv.subrange(k as int, n as int),
                    f.line,
                    av.subrange(k as int, n as int),
                    line,
                    state_of(*self),
                    binding_map(bindings_view(binding@)),
                ),
            decreases n - k,
        {
            proof {
                assert(decreases_to!(args@ => args@[k as int]));
                let ra = av.subrange(k as int, n as int);
                let rp = pv.subrange(k as int, n as int);
                assert(ra[0] == av[k as int]);
                assert(rp[0] == f.params@[k as int]@);
                assert(ra.subrange(1, ra.len() as int) =~= av.subrange(k + 1, n as int));
                assert(rp.subrange(1, rp.len() as int) =~= pv.subrange(k + 1, n as int));
            }
            let ghost st_k = state_of(*self);
            let ghost bm_k = binding_map(bindings_view(binding@));
            let ghost ra = av.subrange(k as int, n as int);
            let ghost rp = pv.subrange(k as int, n as int);
            let x = match self.expression(fns, b, &args[k], line) {
                Ok(x) => x,
                Err(er) => {
                    assert(whole == bind_args(fv, b as nat, name@, call as nat, rp, f.line, ra, line, st_k, bm_k));
                    assert(whole == Err::<(Map<Seq<char>, ExprV>, ExpState), DisruptionV>(er@));
                    return Err(er);
                },
            };
            let ghost before = bindings_view(binding@);
            let simple = match x {
                Expr::Var(_) => true,
                Expr::Number(_) => true,
                _ => false,
            };
            if simple {
                let ghost xv = x@;
                binding.push((f.params[k].clone(), x));
                assert(bindings_view(binding@) =~= before.push((f.params@[k as int]@, xv)));
            } else {
                let bound = fresh(name, call, &f.params[k]);
                let ghost xv = x@;
                let ghost out_before = out_view(self.out@);
                self.out.push((Statement::Flow { src: x, target: FlowTarget::Var(bound.clone()) }, line, origin(name, f.line)));
                assert(out_view(self.out@) =~= out_before.push(
                    (StatementV::Flow { src: xv, target: TargetV::Var(bound@) }, line, Some(OriginV { function: name@, body_line: f.line })),
                ));
                binding.push((f.params[k].clone(), Expr::Var(bound)));
                assert(bindings_view(binding@) =~= before.push((f.params@[k as int]@, ExprV::Var(bound@))));
            }
            proof {
                let bm2 = binding_map(bindings_view(binding@));
                assert(bindings_view(binding@).drop_last() =~= before);
                assert(whole == bind_args(
                    fv,
                    b as nat,
                    name@,
                    call as nat,
                    rp.subrange(1, rp.len() as int),
                    f.line,
                    ra.subrange(1, ra.len() as int),
                    line,
                    state_of(*self),
                    bm2,
                ));
            }
            k = k + 1;
        }
        let ghost bmap = binding_map(bindings_view(binding@));
        assert(whole == Ok::<(Map<Seq<char>, ExprV>, ExpState), DisruptionV>((bmap, state_of(*self))));
        match &f.body {
            FunctionBody::Expression(body, body_line) => {
                let empty: Vec<(String, String)> = Vec::new();
                assert(renaming_map(renamings_view(empty@)) =~= Map::<Seq<char>, Seq<char>>::empty());
                let sub = substitute(body, &binding, &empty);
                self.inlined = origin(name, *body_line);
                self.expression(fns, i, &sub, line)
            },
            FunctionBody::Flows(flows) => {
                let ghost flv = crate::definition::flows_view(flows@);
                let ghost fl_whole = expand_flows(fv, i as nat, name@, call as nat, flv, bmap, Map::empty(), line, state_of(*self));
                let mut locals: Vec<(String, String)> = Vec::new();
                let mut q: usize = 0;
                let m = flows.len();
                assert(flv.subrange(0, m as int) =~= flv);
                assert(renaming_map(renamings_view(locals@)) =~= Map::<Seq<char>, Seq<char>>::empty());
                while q < m
                    invariant
                        q <= m == flows.len(),
                        i < b <= fns.len(),
                        fv == functions_view(fns@),
                        flv == crate::definition::flows_view(flows@),
                        bmap == binding_map(bindings_view(binding@)),
                        av == args_view(args@),
                        expand_expr(fv, b as nat, ExprV::Call { name: name@, args: av }, line, state_of(*old(self))) == (
                        match fl_whole {
                            Err(er) => Err(er),
                            Ok(s2) => Ok((ExprV::Var(fresh_name(name@, call as nat, seq!['='])), s2)),
                        }),
                        fl_whole == expand_flows(
                            fv,
                            i as nat,
                            name@,
                            call as nat,
                            flv.subrange(q as int, m as int),
                            bmap,
                            renaming_map(renamings_view(locals@)),
                            line,
                            state_of(*self),
                        ),
                    decreases m - q,
                {
                    let ghost rf = flv.subrange(q as int, m as int);
                    proof {
                        assert(rf[0] == flv[q as int]);
                        assert(rf.subrange(1, rf.len() as int) =~= flv.subrange(q + 1, m as int));
                    }
                    let body_line = flows[q].1;
                    match &flows[q].0 {
                        Statement::Flow { src, target } => {
                            let ghost st_q = state_of(*self);
                            let ghost lm_q = renaming_map(renamings_view(locals@));
                            let sub = substitute(src, &binding, &locals);
                            let x = match self.expression(fns, i, &sub, line) {
                                Ok(x) => x,
                                Err(er) => {
                                    assert(rf[0].0 == statement_view(flows@[q as int].0));
                                    assert(expand_flows(fv, i as nat, name@, call as nat, rf, bmap, lm_q, line, st_q)
                                        == Err::<ExpState, DisruptionV>(er@));
                                    assert(fl_whole == Err::<ExpState, DisruptionV>(er@));
                                    return Err(er);
                                },
                            };
                            let renamed = match target {
                                FlowTarget::Var(t) => fresh(name, call, t),
                                FlowTarget::Equilibrium => fresh_result(name, call),
                            };
                            match target {
                                FlowTarget::Var(t) => {
                                    let ghost before = renamings_view(locals@);
                                    locals.push((t.clone(), renamed.clone()));
                                    assert(renamings_view(locals@) =~= before.push((t@, renamed@)));
                                    assert(renamings_view(locals@).drop_last() =~= before);
                                },
                                FlowTarget::Equilibrium => {},
                            }
                            let ghost xv = x@;
                            let ghost out_before = out_view(self.out@);
                            self.out.push(
                                (Statement::Flow { src: x, target: FlowTarget::Var(renamed) }, line, origin(name, body_line)),
                            );
                            assert(out_view(self.out@) =~= out_before.push(
                                (
                                    StatementV::Flow { src: xv, target: TargetV::Var(renamed@) },
                                    line,
                                    Some(OriginV { function: name@, body_line }),
                                ),
                            ));
                        },
                        _ => {},
                    }
                    proof {
                        assert(fl_whole == expand_flows(
                            fv,
                            i as nat,
                            name@,
                            call as nat,
                            rf.subrange(1, rf.len() as int),
                            bmap,
                            renaming_map(renamings_view(locals@)),
                            line,
                            state_of(*self),
                        ));
                    }
                    q = q + 1;
                }
                Ok(Expr::Var(fresh_result(name, call)))
            },
        }
    }
}

} // verus!
