//! Flow fusion for the compiled kernel.
//!
//! Each `→` is a sweep that writes its whole space, and the next flow reads
//! it back. When exactly one later flow reads an intermediate, and reads it
//! cell for cell, the intermediate need not exist between the two: its
//! expression goes into the reader's, and the reader's sweep computes both.
//!
//! What is not fused: a space read by a shift, a turn, `⍳` and the other
//! forms that take a place in a declared space; a space read by more than
//! one statement; an expression with a turn in it; an intermediate a loop
//! reads; and a reader that writes something the expression reads, or has
//! such a write between it and the flow.

use vstd::prelude::*;
use crate::ast::{
    args_view, copy_dims, copy_expr, copy_statement, copy_target, lemma_args_view_public, statements_view, Expr, ExprV,
    FlowTarget, Origin, Statement, StatementV, TargetV, ToposBlock,
};
use crate::expand::origin_view;
use crate::program::{copy_origin, origins_view};
use crate::text::{chars_of, is_tau, is_tau_name, seq_eq};

verus! {

/// More reads of one space in one expression than this and the fusion is
/// not attempted.
pub const MOST_READS: u64 = 8;

/// How many times an expression names a space.
pub open spec fn occurrences(e: ExprV, name: Seq<char>) -> nat
    decreases e,
{
    match e {
        ExprV::Var(n) => if n == name { 1 } else { 0 },
        ExprV::Number(_) => 0,
        ExprV::AuditTrace(inner) => occurrences(*inner, name),
        ExprV::Builtin { operand, .. } => occurrences(*operand, name),
        ExprV::Shift { operand, .. } => occurrences(*operand, name),
        ExprV::Index { operand, .. } => occurrences(*operand, name),
        ExprV::Lift { operand, .. } => occurrences(*operand, name),
        ExprV::Reduce { operand, .. } => occurrences(*operand, name),
        ExprV::Scan { operand, .. } => occurrences(*operand, name),
        ExprV::Rotate { operand, .. } => occurrences(*operand, name),
        ExprV::Reverse { operand, .. } => occurrences(*operand, name),
        ExprV::Reshape { operand, .. } => occurrences(*operand, name),
        ExprV::Transpose { operand, .. } => occurrences(*operand, name),
        ExprV::Take { operand, .. } => occurrences(*operand, name),
        ExprV::Drop { operand, .. } => occurrences(*operand, name),
        ExprV::BinaryOp { lhs, rhs, .. } => occurrences(*lhs, name) + occurrences(*rhs, name),
        ExprV::Call { args, .. } => occurrences_in(args, name),
    }
}

pub open spec fn occurrences_in(args: Seq<ExprV>, name: Seq<char>) -> nat
    decreases args,
{
    if args.len() == 0 {
        0
    } else {
        occurrences_in(args.subrange(0, args.len() - 1), name) + occurrences(args[args.len() - 1], name)
    }
}

/// Whether every read of the space is by the cell itself: never under a
/// form that takes a place in a declared space.
pub open spec fn pointwise(e: ExprV, name: Seq<char>, placed: bool) -> bool
    decreases e,
{
    match e {
        ExprV::Var(n) => n != name || !placed,
        ExprV::Number(_) => true,
        ExprV::AuditTrace(inner) => pointwise(*inner, name, placed),
        ExprV::Builtin { operand, .. } => pointwise(*operand, name, placed),
        ExprV::Lift { operand, .. } => pointwise(*operand, name, placed),
        ExprV::Reduce { operand, .. } => pointwise(*operand, name, placed),
        ExprV::Scan { operand, .. } => pointwise(*operand, name, placed),
        ExprV::Shift { operand, .. } => pointwise(*operand, name, true),
        ExprV::Index { operand, .. } => pointwise(*operand, name, true),
        ExprV::Rotate { operand, .. } => pointwise(*operand, name, true),
        ExprV::Reverse { operand, .. } => pointwise(*operand, name, true),
        ExprV::Reshape { operand, .. } => pointwise(*operand, name, true),
        ExprV::Transpose { operand, .. } => pointwise(*operand, name, true),
        ExprV::Take { operand, .. } => pointwise(*operand, name, true),
        ExprV::Drop { operand, .. } => pointwise(*operand, name, true),
        ExprV::BinaryOp { lhs, rhs, .. } => pointwise(*lhs, name, placed) && pointwise(*rhs, name, placed),
        ExprV::Call { args, .. } => pointwise_all(args, name, placed),
    }
}

pub open spec fn pointwise_all(args: Seq<ExprV>, name: Seq<char>, placed: bool) -> bool
    decreases args,
{
    args.len() == 0 || (pointwise_all(args.subrange(0, args.len() - 1), name, placed) && pointwise(
        args[args.len() - 1],
        name,
        placed,
    ))
}

/// Whether an expression may stand inside another flow's sweep: nothing
/// in it reads by place, and no call is left in it.
pub open spec fn portable(e: ExprV) -> bool
    decreases e,
{
    match e {
        ExprV::Var(_) => true,
        ExprV::Number(_) => true,
        ExprV::AuditTrace(inner) => portable(*inner),
        ExprV::Builtin { operand, .. } => portable(*operand),
        ExprV::Lift { operand, .. } => portable(*operand),
        ExprV::Reduce { operand, .. } => portable(*operand),
        ExprV::Scan { operand, .. } => portable(*operand),
        ExprV::Shift { operand, .. } => portable(*operand),
        ExprV::BinaryOp { lhs, rhs, .. } => portable(*lhs) && portable(*rhs),
        _ => false,
    }
}

/// The expression with every read of the space replaced by `value`.
pub open spec fn replace_reads(e: ExprV, name: Seq<char>, value: ExprV) -> ExprV
    decreases e,
{
    match e {
        ExprV::Var(n) => if n == name {
            value
        } else {
            e
        },
        ExprV::Number(_) => e,
        ExprV::AuditTrace(inner) => ExprV::AuditTrace(Box::new(replace_reads(*inner, name, value))),
        ExprV::Builtin { op, operand } => ExprV::Builtin { op, operand: Box::new(replace_reads(*operand, name, value)) },
        ExprV::Shift { dir, axis, operand } => ExprV::Shift {
            dir,
            axis,
            operand: Box::new(replace_reads(*operand, name, value)),
        },
        ExprV::Index { axis, operand } => ExprV::Index { axis, operand: Box::new(replace_reads(*operand, name, value)) },
        ExprV::Lift { axis, operand } => ExprV::Lift { axis, operand: Box::new(replace_reads(*operand, name, value)) },
        ExprV::Reduce { op, axis, operand } => ExprV::Reduce {
            op,
            axis,
            operand: Box::new(replace_reads(*operand, name, value)),
        },
        ExprV::Scan { op, axis, operand } => ExprV::Scan {
            op,
            axis,
            operand: Box::new(replace_reads(*operand, name, value)),
        },
        ExprV::BinaryOp { op, lhs, rhs } => ExprV::BinaryOp {
            op,
            lhs: Box::new(replace_reads(*lhs, name, value)),
            rhs: Box::new(replace_reads(*rhs, name, value)),
        },
        ExprV::Rotate { by, axis, operand } => ExprV::Rotate {
            by,
            axis,
            operand: Box::new(replace_reads(*operand, name, value)),
        },
        ExprV::Reverse { axis, operand } => ExprV::Reverse { axis, operand: Box::new(replace_reads(*operand, name, value)) },
        ExprV::Reshape { shape, operand } => ExprV::Reshape {
            shape,
            operand: Box::new(replace_reads(*operand, name, value)),
        },
        ExprV::Transpose { axes, operand } => ExprV::Transpose {
            axes,
            operand: Box::new(replace_reads(*operand, name, value)),
        },
        ExprV::Take { count, axis, operand } => ExprV::Take {
            count,
            axis,
            operand: Box::new(replace_reads(*operand, name, value)),
        },
        ExprV::Drop { count, axis, operand } => ExprV::Drop {
            count,
            axis,
            operand: Box::new(replace_reads(*operand, name, value)),
        },
        ExprV::Call { name: f, args } => ExprV::Call { name: f, args: replace_in(args, name, value) },
    }
}

pub open spec fn replace_in(args: Seq<ExprV>, name: Seq<char>, value: ExprV) -> Seq<ExprV>
    decreases args,
{
    if args.len() == 0 {
        Seq::empty()
    } else {
        replace_in(args.subrange(0, args.len() - 1), name, value).push(replace_reads(args[args.len() - 1], name, value))
    }
}

pub open spec fn output_name() -> Seq<char> {
    seq!['O', 'U', 'T', 'P', 'U', 'T']
}

/// The spaces a statement writes when it runs.
pub open spec fn writes_of(s: StatementV) -> Seq<Seq<char>> {
    match s {
        StatementV::Flow { target: TargetV::Var(t), .. } => seq![t],
        StatementV::Flow { target: TargetV::Equilibrium, .. } => seq![output_name()],
        StatementV::Iterate { target, .. } => seq![target],
        _ => Seq::empty(),
    }
}

/// The expression a statement evaluates when it runs, if any: a
/// constraint and a trace are settled at compile time.
pub open spec fn evaluated(s: StatementV) -> Option<ExprV> {
    match s {
        StatementV::Flow { src, .. } => Some(src),
        StatementV::Iterate { src, .. } => Some(src),
        _ => None,
    }
}

/// How many statements write `name`.
pub open spec fn write_count(stmts: Seq<StatementV>, name: Seq<char>) -> nat
    decreases stmts.len(),
{
    if stmts.len() == 0 {
        0
    } else {
        write_count(stmts.drop_last(), name) + (if writes_of(stmts.last()).contains(name) { 1nat } else { 0 })
    }
}

/// Whether statement `j` reads `name`.
pub open spec fn reads_at(stmts: Seq<StatementV>, j: int, name: Seq<char>) -> bool {
    match evaluated(stmts[j]) {
        Some(e) => occurrences(e, name) > 0,
        None => false,
    }
}

/// The statements from `j` on that read `name`, in order.
pub open spec fn readers_from(stmts: Seq<StatementV>, j: int, name: Seq<char>) -> Seq<int>
    decreases stmts.len() - j,
{
    if j < 0 || j >= stmts.len() {
        Seq::empty()
    } else if reads_at(stmts, j, name) {
        seq![j] + readers_from(stmts, j + 1, name)
    } else {
        readers_from(stmts, j + 1, name)
    }
}

/// Whether statement `s` writes a space that `src` reads.
pub open spec fn writes_a_source(s: StatementV, src: ExprV) -> bool {
    exists|w: int|
        0 <= w < writes_of(s).len() && !is_tau_name(#[trigger] writes_of(s)[w]) && occurrences(src, writes_of(s)[w]) > 0
}

/// The space a flow target names.
pub open spec fn target_name(t: TargetV) -> Seq<char> {
    match t {
        TargetV::Var(n) => n,
        TargetV::Equilibrium => output_name(),
    }
}

/// Whether the flow at `i` folds into a later flow: the name it writes,
/// where its one reader stands, and what that reader becomes. `orig` is the
/// program before any fusion, which counts the writes.
pub open spec fn fusion_at(orig: Seq<StatementV>, stmts: Seq<StatementV>, i: int) -> Option<(Seq<char>, int, StatementV)> {
    match stmts[i] {
        StatementV::Flow { src, target: TargetV::Var(name) } => {
            let readers = readers_from(stmts, i + 1, name);
            if name == output_name() || write_count(orig, name) != 1 || !portable(src) || readers.len() != 1 {
                None
            } else {
                let j = readers[0];
                match stmts[j] {
                    StatementV::Flow { src: reader, target: rt } => {
                        let rw = target_name(rt);
                        if !pointwise(reader, name, false) || occurrences(reader, name) > MOST_READS || (!is_tau_name(rw)
                            && occurrences(src, rw) > 0) || exists|k: int|
                            i + 1 <= k < j && #[trigger] writes_a_source(stmts[k], src) {
                            None
                        } else {
                            Some((name, j, StatementV::Flow { src: replace_reads(reader, name, src), target: rt }))
                        }
                    },
                    _ => None,
                }
            }
        },
        _ => None,
    }
}

/// The fusions from statement `i` on, over `stmts` as fused so far: a
/// fused reader may itself be fused on.
pub open spec fn fuse_from(orig: Seq<StatementV>, stmts: Seq<StatementV>, i: int, fused: Seq<Seq<char>>) -> (
    Seq<StatementV>,
    Seq<Seq<char>>,
)
    decreases stmts.len() - i,
{
    if i < 0 || i >= stmts.len() {
        (stmts, fused)
    } else {
        proof {
            lemma_fusion_in_range(orig, stmts, i);
        }
        match fusion_at(orig, stmts, i) {
            Some((name, j, reader)) => fuse_from(orig, stmts.update(j, reader), i + 1, fused.push(name)),
            None => fuse_from(orig, stmts, i + 1, fused),
        }
    }
}

/// The program with every fusable intermediate folded into its reader,
/// and the names of those intermediates, in the order they were fused.
pub open spec fn fuse_spec(stmts: Seq<StatementV>) -> (Seq<StatementV>, Seq<Seq<char>>) {
    fuse_from(stmts, stmts, 0, Seq::empty())
}

/// Whether `after` is `before` with at most the source of a flow changed.
pub open spec fn same_but_source(before: StatementV, after: StatementV) -> bool {
    match (before, after) {
        (StatementV::Flow { target: t1, .. }, StatementV::Flow { target: t2, .. }) => t1 == t2,
        _ => before == after,
    }
}

proof fn lemma_fuse_from_keeps(orig: Seq<StatementV>, stmts: Seq<StatementV>, i: int, fused: Seq<Seq<char>>)
    requires
        0 <= i,
    ensures
        fuse_from(orig, stmts, i, fused).0.len() == stmts.len(),
        forall|k: int| 0 <= k < stmts.len() ==> same_but_source(stmts[k], #[trigger] fuse_from(orig, stmts, i, fused).0[k]),
    decreases stmts.len() - i,
{
    if i < stmts.len() {
        lemma_fusion_in_range(orig, stmts, i);
        match fusion_at(orig, stmts, i) {
            Some((name, j, reader)) => {
                let next = stmts.update(j, reader);
                lemma_fuse_from_keeps(orig, next, i + 1, fused.push(name));
                assert(same_but_source(stmts[j], reader));
                assert forall|k: int| 0 <= k < stmts.len() implies same_but_source(
                    stmts[k],
                    #[trigger] fuse_from(orig, stmts, i, fused).0[k],
                ) by {
                    assert(same_but_source(next[k], fuse_from(orig, next, i + 1, fused.push(name)).0[k]));
                }
            },
            None => {
                lemma_fuse_from_keeps(orig, stmts, i + 1, fused);
            },
        }
    } else {
        assert forall|k: int| 0 <= k < stmts.len() implies same_but_source(
            stmts[k],
            #[trigger] fuse_from(orig, stmts, i, fused).0[k],
        ) by {
            assert(fuse_from(orig, stmts, i, fused).0 == stmts);
        }
    }
}

/// Fusion changes no statement but the source of a flow: the program keeps
/// its length, every declaration, binding, loop, constraint and trace, and
/// every flow's target, so each space stays declared and written.
pub proof fn law_fusion_rewrites_only_sources(stmts: Seq<StatementV>)
    ensures
        fuse_spec(stmts).0.len() == stmts.len(),
        forall|k: int| 0 <= k < stmts.len() ==> same_but_source(stmts[k], #[trigger] fuse_spec(stmts).0[k]),
{
    lemma_fuse_from_keeps(stmts, stmts, 0, Seq::empty());
}

/// A count that stops at the largest `u64`.
pub open spec fn capped(n: nat) -> u64 {
    if n < u64::MAX {
        n as u64
    } else {
        u64::MAX
    }
}

pub open spec fn names_view(v: Seq<String>) -> Seq<Seq<char>> {
    v.map_values(|s: String| s@)
}

pub proof fn lemma_readers_range(stmts: Seq<StatementV>, j: int, name: Seq<char>)
    ensures
        forall|q: int|
            0 <= q < readers_from(stmts, j, name).len() ==> j <= #[trigger] readers_from(stmts, j, name)[q] < stmts.len(),
    decreases stmts.len() - j,
{
    if 0 <= j < stmts.len() {
        lemma_readers_range(stmts, j + 1, name);
        let r = readers_from(stmts, j, name);
        let rest = readers_from(stmts, j + 1, name);
        if reads_at(stmts, j, name) {
            assert(r == seq![j] + rest);
            assert forall|q: int| 0 <= q < r.len() implies j <= #[trigger] r[q] < stmts.len() by {
                if q > 0 {
                    assert(r[q] == rest[q - 1]);
                }
            }
        } else {
            assert(r == rest);
            assert forall|q: int| 0 <= q < r.len() implies j <= #[trigger] r[q] < stmts.len() by {
                assert(r[q] == rest[q]);
            }
        }
    }
}

pub proof fn lemma_fusion_in_range(orig: Seq<StatementV>, stmts: Seq<StatementV>, i: int)
    requires
        0 <= i < stmts.len(),
    ensures
        fusion_at(orig, stmts, i) matches Some((_, j, _)) ==> i < j < stmts.len(),
{
    if let StatementV::Flow { target: TargetV::Var(name), .. } = stmts[i] {
        lemma_readers_range(stmts, i + 1, name);
    }
}

proof fn lemma_replace_in(args: Seq<ExprV>, name: Seq<char>, value: ExprV)
    ensures
        replace_in(args, name, value).len() == args.len(),
        forall|k: int| 0 <= k < args.len() ==> #[trigger] replace_in(args, name, value)[k] == replace_reads(args[k], name, value),
    decreases args.len(),
{
    if args.len() > 0 {
        let front = args.subrange(0, args.len() - 1);
        lemma_replace_in(front, name, value);
        assert forall|k: int| 0 <= k < args.len() implies #[trigger] replace_in(args, name, value)[k] == replace_reads(
            args[k],
            name,
            value,
        ) by {
            if k < args.len() - 1 {
                assert(front[k] == args[k]);
            }
        }
    }
}

proof fn lemma_prefix_step(v: Seq<ExprV>, i: int)
    requires
        0 <= i < v.len(),
    ensures
        v.subrange(0, i + 1).subrange(0, i) == v.subrange(0, i),
        v.subrange(0, i + 1)[i] == v[i],
{
    assert(v.subrange(0, i + 1).subrange(0, i) =~= v.subrange(0, i));
}

fn output_chars() -> (r: Vec<char>)
    ensures
        r@ == output_name(),
{
    let r = chars_of("OUTPUT");
    proof {
        reveal_strlit("OUTPUT");
    }
    assert(r@ =~= output_name());
    r
}

fn names_space(n: &String, name: &[char]) -> (r: bool)
    ensures
        r == (n@ == name@),
{
    let c = chars_of(n.as_str());
    seq_eq(c.as_slice(), name)
}

/// How many times `e` names the space, counted up to the largest `u64`.
fn count_reads(e: &Expr, name: &[char]) -> (r: u64)
    ensures
        r == capped(occurrences(e@, name@)),
    decreases e,
{
    match e {
        Expr::Var(n) => if names_space(n, name) {
            1
        } else {
            0
        },
        Expr::Number(_) => 0,
        Expr::AuditTrace(inner) => count_reads(inner, name),
        Expr::Builtin { operand, .. } => count_reads(operand, name),
        Expr::Shift { operand, .. } => count_reads(operand, name),
        Expr::Index { operand, .. } => count_reads(operand, name),
        Expr::Lift { operand, .. } => count_reads(operand, name),
        Expr::Reduce { operand, .. } => count_reads(operand, name),
        Expr::Scan { operand, .. } => count_reads(operand, name),
        Expr::Rotate { operand, .. } => count_reads(operand, name),
        Expr::Reverse { operand, .. } => count_reads(operand, name),
        Expr::Reshape { operand, .. } => count_reads(operand, name),
        Expr::Transpose { operand, .. } => count_reads(operand, name),
        Expr::Take { operand, .. } => count_reads(operand, name),
        Expr::Drop { operand, .. } => count_reads(operand, name),
        Expr::BinaryOp { lhs, rhs, .. } => {
            let a = count_reads(lhs, name);
            let b = count_reads(rhs, name);
            a.saturating_add(b)
        },
        Expr::Call { args, .. } => count_reads_in(args.as_slice(), name),
    }
}

fn count_reads_in(args: &[Expr], name: &[char]) -> (r: u64)
    ensures
        r == capped(occurrences_in(args_view(args@), name@)),
    decreases args@,
{
    let ghost v = args_view(args@);
    proof {
        lemma_args_view_public(args@);
        assert(v.subrange(0, 0) =~= Seq::<ExprV>::empty());
    }
    let mut total: u64 = 0;
    let mut i: usize = 0;
    while i < args.len()
        invariant
            i <= args.len(),
            v == args_view(args@),
            v.len() == args.len(),
            forall|k: int| 0 <= k < args.len() ==> #[trigger] v[k] == args@[k]@,
            total == capped(occurrences_in(v.subrange(0, i as int), name@)),
        decreases args.len() - i,
    {
        proof {
            assert(decreases_to!(args@ => args@[i as int]));
            lemma_prefix_step(v, i as int);
        }
        let c = count_reads(&args[i], name);
        total = total.saturating_add(c);
        i = i + 1;
    }
    assert(v.subrange(0, args.len() as int) =~= v);
    total
}

/// Whether every read of the space in `e` is by the cell itself.
fn reads_pointwise(e: &Expr, name: &[char], placed: bool) -> (r: bool)
    ensures
        r == pointwise(e@, name@, placed),
    decreases e,
{
    match e {
        Expr::Var(n) => !names_space(n, name) || !placed,
        Expr::Number(_) => true,
        Expr::AuditTrace(inner) => reads_pointwise(inner, name, placed),
        Expr::Builtin { operand, .. } => reads_pointwise(operand, name, placed),
        Expr::Lift { operand, .. } => reads_pointwise(operand, name, placed),
        Expr::Reduce { operand, .. } => reads_pointwise(operand, name, placed),
        Expr::Scan { operand, .. } => reads_pointwise(operand, name, placed),
        Expr::Shift { operand, .. } => reads_pointwise(operand, name, true),
        Expr::Index { operand, .. } => reads_pointwise(operand, name, true),
        Expr::Rotate { operand, .. } => reads_pointwise(operand, name, true),
        Expr::Reverse { operand, .. } => reads_pointwise(operand, name, true),
        Expr::Reshape { operand, .. } => reads_pointwise(operand, name, true),
        Expr::Transpose { operand, .. } => reads_pointwise(operand, name, true),
        Expr::Take { operand, .. } => reads_pointwise(operand, name, true),
        Expr::Drop { operand, .. } => reads_pointwise(operand, name, true),
        Expr::BinaryOp { lhs, rhs, .. } => {
            let a = reads_pointwise(lhs, name, placed);
            let b = reads_pointwise(rhs, name, placed);
            a && b
        },
        Expr::Call { args, .. } => reads_pointwise_in(args.as_slice(), name, placed),
    }
}

fn reads_pointwise_in(args: &[Expr], name: &[char], placed: bool) -> (r: bool)
    ensures
        r == pointwise_all(args_view(args@), name@, placed),
    decreases args@,
{
    let ghost v = args_view(args@);
    proof {
        lemma_args_view_public(args@);
        assert(v.subrange(0, 0) =~= Seq::<ExprV>::empty());
    }
    let mut all: bool = true;
    let mut i: usize = 0;
    while i < args.len()
        invariant
            i <= args.len(),
            v == args_view(args@),
            v.len() == args.len(),
            forall|k: int| 0 <= k < args.len() ==> #[trigger] v[k] == args@[k]@,
            all == pointwise_all(v.subrange(0, i as int), name@, placed),
        decreases args.len() - i,
    {
        proof {
            assert(decreases_to!(args@ => args@[i as int]));
            lemma_prefix_step(v, i as int);
        }
        let p = reads_pointwise(&args[i], name, placed);
        all = all && p;
        i = i + 1;
    }
    assert(v.subrange(0, args.len() as int) =~= v);
    all
}

/// Whether `e` may stand inside another flow's sweep.
fn is_portable(e: &Expr) -> (r: bool)
    ensures
        r == portable(e@),
    decreases e,
{
    match e {
        Expr::Var(_) => true,
        Expr::Number(_) => true,
        Expr::AuditTrace(inner) => is_portable(inner),
        Expr::Builtin { operand, .. } => is_portable(operand),
        Expr::Lift { operand, .. } => is_portable(operand),
        Expr::Reduce { operand, .. } => is_portable(operand),
        Expr::Scan { operand, .. } => is_portable(operand),
        Expr::Shift { operand, .. } => is_portable(operand),
        Expr::BinaryOp { lhs, rhs, .. } => {
            let a = is_portable(lhs);
            let b = is_portable(rhs);
            a && b
        },
        _ => false,
    }
}

/// `e` with every read of the space replaced by `value`.
fn replace_space(e: &Expr, name: &[char], value: &Expr) -> (r: Expr)
    ensures
        r@ == replace_reads(e@, name@, value@),
    decreases e,
{
    match e {
        Expr::Var(n) => if names_space(n, name) {
            copy_expr(value)
        } else {
            Expr::Var(n.clone())
        },
        Expr::Number(n) => Expr::Number(n.clone()),
        Expr::AuditTrace(inner) => Expr::AuditTrace(Box::new(replace_space(inner, name, value))),
        Expr::Builtin { op, operand } => Expr::Builtin { op: *op, operand: Box::new(replace_space(operand, name, value)) },
        Expr::Shift { dir, axis, operand } => Expr::Shift {
            dir: *dir,
            axis: *axis,
            operand: Box::new(replace_space(operand, name, value)),
        },
        Expr::Index { axis, operand } => Expr::Index { axis: *axis, operand: Box::new(replace_space(operand, name, value)) },
        Expr::Lift { axis, operand } => Expr::Lift { axis: *axis, operand: Box::new(replace_space(operand, name, value)) },
        Expr::Reduce { op, axis, operand } => Expr::Reduce {
            op: *op,
            axis: *axis,
            operand: Box::new(replace_space(operand, name, value)),
        },
        Expr::Scan { op, axis, operand } => Expr::Scan {
            op: *op,
            axis: *axis,
            operand: Box::new(replace_space(operand, name, value)),
        },
        Expr::BinaryOp { op, lhs, rhs } => Expr::BinaryOp {
            op: *op,
            lhs: Box::new(replace_space(lhs, name, value)),
            rhs: Box::new(replace_space(rhs, name, value)),
        },
        Expr::Rotate { by, axis, operand } => Expr::Rotate {
            by: *by,
            axis: *axis,
            operand: Box::new(replace_space(operand, name, value)),
        },
        Expr::Reverse { axis, operand } => Expr::Reverse {
            axis: *axis,
            operand: Box::new(replace_space(operand, name, value)),
        },
        Expr::Reshape { shape, operand } => Expr::Reshape {
            shape: copy_dims(shape.as_slice()),
            operand: Box::new(replace_space(operand, name, value)),
        },
        Expr::Transpose { axes, operand } => Expr::Transpose {
            axes: match axes {
                Some(a) => Some(copy_dims(a.as_slice())),
                None => None,
            },
            operand: Box::new(replace_space(operand, name, value)),
        },
        Expr::Take { count, axis, operand } => Expr::Take {
            count: *count,
            axis: *axis,
            operand: Box::new(replace_space(operand, name, value)),
        },
        Expr::Drop { count, axis, operand } => Expr::Drop {
            count: *count,
            axis: *axis,
            operand: Box::new(replace_space(operand, name, value)),
        },
        Expr::Call { name: f, args } => {
            let replaced = replace_space_in(args.as_slice(), name, value);
            proof {
                lemma_args_view_public(args@);
                lemma_args_view_public(replaced@);
                lemma_replace_in(args_view(args@), name@, value@);
                assert(args_view(replaced@) =~= replace_in(args_view(args@), name@, value@));
            }
            Expr::Call { name: f.clone(), args: replaced }
        },
    }
}

fn replace_space_in(args: &[Expr], name: &[char], value: &Expr) -> (r: Vec<Expr>)
    ensures
        r.len() == args.len(),
        forall|k: int| 0 <= k < args.len() ==> (#[trigger] r@[k])@ == replace_reads(args@[k]@, name@, value@),
    decreases args@,
{
    let mut out: Vec<Expr> = Vec::new();
    let mut i: usize = 0;
    while i < args.len()
        invariant
            i <= args.len(),
            out.len() == i,
            forall|k: int| 0 <= k < i ==> (#[trigger] out@[k])@ == replace_reads(args@[k]@, name@, value@),
        decreases args.len() - i,
    {
        proof {
            assert(decreases_to!(args@ => args@[i as int]));
        }
        out.push(replace_space(&args[i], name, value));
        i = i + 1;
    }
    out
}

/// The space a statement writes, if it writes one.
fn written_space(s: &Statement) -> (r: Option<Vec<char>>)
    ensures
        match r {
            Some(w) => writes_of(s@) == seq![w@],
            None => writes_of(s@).len() == 0,
        },
{
    match s {
        Statement::Flow { target: FlowTarget::Var(t), .. } => Some(chars_of(t.as_str())),
        Statement::Flow { target: FlowTarget::Equilibrium, .. } => Some(output_chars()),
        Statement::Iterate { target, .. } => Some(chars_of(target.as_str())),
        _ => None,
    }
}

/// How many statements write the space.
fn count_writes(stmts: &[Statement], name: &[char]) -> (r: usize)
    ensures
        r == write_count(statements_view(stmts@), name@),
{
    let ghost sv = statements_view(stmts@);
    let mut total: usize = 0;
    let mut i: usize = 0;
    while i < stmts.len()
        invariant
            i <= stmts.len(),
            sv == statements_view(stmts@),
            total <= i,
            total == write_count(sv.subrange(0, i as int), name@),
        decreases stmts.len() - i,
    {
        proof {
            let next = sv.subrange(0, i as int + 1);
            assert(next.drop_last() =~= sv.subrange(0, i as int));
            assert(next.last() == stmts@[i as int]@);
        }
        match written_space(&stmts[i]) {
            Some(w) => {
                if seq_eq(w.as_slice(), name) {
                    total = total + 1;
                } else {
                    proof {
                        assert(!seq![w@].contains(name@)) by {
                            if seq![w@].contains(name@) {
                                let q = choose|q: int| 0 <= q < 1 && seq![w@][q] == name@;
                                assert(q == 0);
                            }
                        }
                    }
                }
                proof {
                    assert(seq![w@][0] == w@);
                }
            },
            None => {},
        }
        i = i + 1;
    }
    assert(sv.subrange(0, stmts.len() as int) =~= sv);
    total
}

/// Whether statement `s` reads the space.
fn reads_space(s: &Statement, name: &[char]) -> (r: bool)
    ensures
        r == match evaluated(s@) {
            Some(e) => occurrences(e, name@) > 0,
            None => false,
        },
{
    match s {
        Statement::Flow { src, .. } => count_reads(src, name) > 0,
        Statement::Iterate { src, .. } => count_reads(src, name) > 0,
        _ => false,
    }
}

/// The one statement from `from` on that reads the space, if exactly one
/// does.
fn sole_reader(stmts: &[Statement], from: usize, name: &[char]) -> (r: Option<usize>)
    requires
        from <= stmts.len(),
    ensures
        match r {
            Some(j) => readers_from(statements_view(stmts@), from as int, name@) == seq![j as int],
            None => readers_from(statements_view(stmts@), from as int, name@).len() != 1,
        },
{
    let ghost sv = statements_view(stmts@);
    let ghost mut found: Seq<int> = Seq::empty();
    let mut first: Option<usize> = None;
    let mut count: usize = 0;
    let mut k: usize = from;
    while k < stmts.len()
        invariant
            from <= k <= stmts.len(),
            sv == statements_view(stmts@),
            count == found.len(),
            count <= 1,
            count == 1 ==> first == Some(found[0] as usize) && found[0] == found[0] as usize,
            readers_from(sv, from as int, name@) == found + readers_from(sv, k as int, name@),
        decreases stmts.len() - k,
    {
        let reads = reads_space(&stmts[k], name);
        proof {
            assert(sv[k as int] == stmts@[k as int]@);
        }
        if reads {
            proof {
                assert(readers_from(sv, k as int, name@) == seq![k as int] + readers_from(sv, k as int + 1, name@));
                assert(found + (seq![k as int] + readers_from(sv, k as int + 1, name@)) =~= found.push(k as int)
                    + readers_from(sv, k as int + 1, name@));
            }
            if count == 1 {
                proof {
                    found = found.push(k as int);
                }
                return None;
            }
            first = Some(k);
            count = 1;
            proof {
                found = found.push(k as int);
            }
        }
        k = k + 1;
    }
    assert(readers_from(sv, k as int, name@) == Seq::<int>::empty());
    assert(found + Seq::<int>::empty() =~= found);
    if count == 1 {
        assert(found =~= seq![found[0]]);
        first
    } else {
        None
    }
}

/// Whether a statement strictly between `from` and `to` writes a space
/// that `src` reads.
fn written_between(stmts: &[Statement], from: usize, to: usize, src: &Expr) -> (r: bool)
    requires
        to <= stmts.len(),
    ensures
        r == exists|k: int| from <= k < to && #[trigger] writes_a_source(statements_view(stmts@)[k], src@),
{
    let ghost sv = statements_view(stmts@);
    let mut k: usize = from;
    while k < to
        invariant
            from <= k,
            to <= stmts.len(),
            sv == statements_view(stmts@),
            forall|q: int| from <= q < k ==> !#[trigger] writes_a_source(sv[q], src@),
        decreases to - k,
    {
        proof {
            assert(sv[k as int] == stmts@[k as int]@);
        }
        match written_space(&stmts[k]) {
            Some(w) => {
                let hit = !is_tau(w.as_slice()) && count_reads(src, w.as_slice()) > 0;
                proof {
                    assert(writes_of(sv[k as int])[0] == w@);
                }
                if hit {
                    assert(writes_a_source(sv[k as int], src@));
                    return true;
                }
                assert(!writes_a_source(sv[k as int], src@));
            },
            None => {},
        }
        k = k + 1;
    }
    false
}

/// The fusion the flow at `i` takes part in, if any: the name it writes,
/// where its reader stands, and the reader with the flow folded in.
fn fusion_of(orig: &[Statement], stmts: &[Statement], i: usize) -> (r: Option<(String, usize, Statement)>)
    requires
        i < stmts.len(),
    ensures
        match r {
            Some((n, j, st)) => i < j < stmts.len() && fusion_at(statements_view(orig@), statements_view(stmts@), i as int)
                == Some((n@, j as int, st@)),
            None => fusion_at(statements_view(orig@), statements_view(stmts@), i as int) is None,
        },
{
    let ghost sv = statements_view(stmts@);
    assert(sv[i as int] == stmts@[i as int]@);
    let (src, t) = match &stmts[i] {
        Statement::Flow { src, target: FlowTarget::Var(t) } => (src, t),
        _ => return None,
    };
    let name = chars_of(t.as_str());
    let out = output_chars();
    if seq_eq(name.as_slice(), out.as_slice()) || count_writes(orig, name.as_slice()) != 1 || !is_portable(src) {
        return None;
    }
    let j = match sole_reader(stmts, i + 1, name.as_slice()) {
        Some(j) => j,
        None => return None,
    };
    proof {
        lemma_readers_range(sv, i as int + 1, name@);
        assert(readers_from(sv, i as int + 1, name@)[0] == j);
        assert(sv[j as int] == stmts@[j as int]@);
    }
    let (reader, rt) = match &stmts[j] {
        Statement::Flow { src, target } => (src, target),
        _ => return None,
    };
    if !reads_pointwise(reader, name.as_slice(), false) || count_reads(reader, name.as_slice()) > MOST_READS {
        return None;
    }
    let rw = match rt {
        FlowTarget::Var(w) => chars_of(w.as_str()),
        FlowTarget::Equilibrium => output_chars(),
    };
    if !is_tau(rw.as_slice()) && count_reads(src, rw.as_slice()) > 0 {
        return None;
    }
    if written_between(stmts, i + 1, j, src) {
        return None;
    }
    let folded = Statement::Flow { src: replace_space(reader, name.as_slice(), src), target: copy_target(rt) };
    Some((t.clone(), j, folded))
}

/// The block with every fusable intermediate folded into its one reader,
/// and the names of those intermediates, each once, in order. Their flows
/// run only when a caller asks for the space.
pub fn fuse(block: &ToposBlock) -> (r: (ToposBlock, Vec<String>))
    ensures
        statements_view(r.0.statements@) == fuse_spec(statements_view(block.statements@)).0,
        names_view(r.1@) == crate::order::in_order(fuse_spec(statements_view(block.statements@)).1.to_set()),
        crate::order::strictly_sorted(names_view(r.1@)),
        forall|k: Seq<char>| #[trigger] names_view(r.1@).contains(k) <==> fuse_spec(
            statements_view(block.statements@),
        ).1.contains(k),
        r.0.lines@ == block.lines@,
        origins_view(r.0.origins@) == origins_view(block.origins@),
{
    let ghost orig = statements_view(block.statements@);
    let n = block.statements.len();
    let mut stmts: Vec<Statement> = Vec::new();
    let mut c: usize = 0;
    while c < n
        invariant
            n == block.statements.len(),
            c <= n,
            stmts.len() == c,
            forall|q: int| 0 <= q < c ==> #[trigger] stmts@[q]@ == block.statements@[q]@,
        decreases n - c,
    {
        stmts.push(copy_statement(&block.statements[c]));
        c = c + 1;
    }
    assert(statements_view(stmts@) =~= orig);
    let mut fused: Vec<String> = Vec::new();
    assert(names_view(fused@) =~= Seq::<Seq<char>>::empty());
    let mut i: usize = 0;
    while i < n
        invariant
            n == block.statements.len(),
            orig == statements_view(block.statements@),
            stmts.len() == n,
            i <= n,
            fuse_from(orig, statements_view(stmts@), i as int, names_view(fused@)) == fuse_spec(orig),
        decreases n - i,
    {
        let ghost before = statements_view(stmts@);
        let ghost names_before = names_view(fused@);
        match fusion_of(block.statements.as_slice(), stmts.as_slice(), i) {
            Some((name, j, folded)) => {
                stmts.set(j, folded);
                fused.push(name);
                proof {
                    assert(statements_view(stmts@) =~= before.update(j as int, folded@));
                    assert(names_view(fused@) =~= names_before.push(name@));
                }
            },
            None => {},
        }
        i = i + 1;
    }
    let mut origins: Vec<Option<Origin>> = Vec::new();
    let mut q: usize = 0;
    while q < block.origins.len()
        invariant
            q <= block.origins.len(),
            origins.len() == q,
            forall|p: int| 0 <= p < q ==> origin_view(#[trigger] origins@[p]) == origin_view(block.origins@[p]),
        decreases block.origins.len() - q,
    {
        origins.push(copy_origin(&block.origins[q]));
        q = q + 1;
    }
    assert(origins_view(origins@) =~= origins_view(block.origins@));
    let lines = copy_dims(block.lines.as_slice());
    let names = crate::order::sorted_distinct(&fused);
    proof {
        let all = fuse_spec(orig).1;
        assert(names_view(fused@) == all);
        assert(crate::sv::names_of(fused@) =~= names_view(fused@));
        assert(crate::sv::names_of(names@) =~= names_view(names@));
        assert forall|k: Seq<char>| #[trigger] names_view(names@).contains(k) <==> all.to_set().contains(k) by {
            assert(all.to_set().contains(k) <==> all.contains(k));
        }
        crate::order::lemma_in_order(names_view(names@), all.to_set());
    }
    (ToposBlock { statements: stmts, lines, origins }, names)
}

} // verus!
