//! A program's values at one cell, expanded symbolically: every space a
//! flow reads is replaced by the flow that wrote it, back to the spaces no
//! flow writes. The constraints, the divisions and the arguments of the
//! named functions are expanded this way for the analysis to bound.
//!
//! A literal stays as it was written and the threshold stays a symbol: the
//! analysis gives them their values.

use vstd::prelude::*;
use crate::ast::{
    axis_geometry, cells, copy_dims, declared_name, fits, geometry_of, lemma_cells_pos, lemma_cells_skip,
    lemma_cells_skip_mono, line_at, max1, shape_of_expr, BinaryOpKind, BuiltinOp, Expr, ExprV, FoldOp, ShapeTable,
    statements_view, FlowTarget, ShiftDir, Statement, StatementV, TargetV, ToposBlock,
};
use crate::symbolic::{cmp_of, glyphs, Cmp};
use crate::text::{chars_of, decimal, is_tau, is_tau_name, push_decimal, push_signed, push_str, signed_decimal};

verus! {

/// A fully expanded scalar value at one cell.
#[derive(Debug, PartialEq)]
pub enum Sym {
    /// A cell of an unwritten space, or a value nothing is known of.
    Free(String),
    /// A coordinate along an axis: some whole number from 0 to `extent - 1`.
    Coordinate { name: String, extent: usize },
    /// A literal, as it was written.
    Const(String),
    /// The threshold.
    Tau,
    Add(Box<Sym>, Box<Sym>),
    Sub(Box<Sym>, Box<Sym>),
    Mul(Box<Sym>, Box<Sym>),
    Div(Box<Sym>, Box<Sym>),
    Pow(Box<Sym>, Box<Sym>),
    /// The greater and the lesser of two values.
    Max(Box<Sym>, Box<Sym>),
    Min(Box<Sym>, Box<Sym>),
    /// APL's residue of the right by the left.
    Residue(Box<Sym>, Box<Sym>),
    /// `lhs` where the comparison holds, `0` elsewhere.
    Mask { cmp: Cmp, lhs: Box<Sym>, rhs: Box<Sym> },
    /// A shift that may or may not sit on a boundary; `flag` names the choice.
    Boundary { flag: String, interior: Box<Sym> },
    /// A named function applied to a value.
    Named { op: BuiltinOp, operand: Box<Sym> },
    /// The result of folding an axis away: what the operator can produce.
    Fold { op: FoldOp, id: usize },
}

pub enum SymV {
    Free(Seq<char>),
    Coordinate { name: Seq<char>, extent: usize },
    Const(Seq<char>),
    Tau,
    Add(Box<SymV>, Box<SymV>),
    Sub(Box<SymV>, Box<SymV>),
    Mul(Box<SymV>, Box<SymV>),
    Div(Box<SymV>, Box<SymV>),
    Pow(Box<SymV>, Box<SymV>),
    Max(Box<SymV>, Box<SymV>),
    Min(Box<SymV>, Box<SymV>),
    Residue(Box<SymV>, Box<SymV>),
    Mask { cmp: Cmp, lhs: Box<SymV>, rhs: Box<SymV> },
    Boundary { flag: Seq<char>, interior: Box<SymV> },
    Named { op: BuiltinOp, operand: Box<SymV> },
    Fold { op: FoldOp, id: usize },
}

pub open spec fn sym_view(s: Sym) -> SymV
    decreases s,
{
    match s {
        Sym::Free(n) => SymV::Free(n@),
        Sym::Coordinate { name, extent } => SymV::Coordinate { name: name@, extent },
        Sym::Const(t) => SymV::Const(t@),
        Sym::Tau => SymV::Tau,
        Sym::Add(a, b) => SymV::Add(Box::new(sym_view(*a)), Box::new(sym_view(*b))),
        Sym::Sub(a, b) => SymV::Sub(Box::new(sym_view(*a)), Box::new(sym_view(*b))),
        Sym::Mul(a, b) => SymV::Mul(Box::new(sym_view(*a)), Box::new(sym_view(*b))),
        Sym::Div(a, b) => SymV::Div(Box::new(sym_view(*a)), Box::new(sym_view(*b))),
        Sym::Pow(a, b) => SymV::Pow(Box::new(sym_view(*a)), Box::new(sym_view(*b))),
        Sym::Max(a, b) => SymV::Max(Box::new(sym_view(*a)), Box::new(sym_view(*b))),
        Sym::Min(a, b) => SymV::Min(Box::new(sym_view(*a)), Box::new(sym_view(*b))),
        Sym::Residue(a, b) => SymV::Residue(Box::new(sym_view(*a)), Box::new(sym_view(*b))),
        Sym::Mask { cmp, lhs, rhs } => SymV::Mask { cmp, lhs: Box::new(sym_view(*lhs)), rhs: Box::new(sym_view(*rhs)) },
        Sym::Boundary { flag, interior } => SymV::Boundary { flag: flag@, interior: Box::new(sym_view(*interior)) },
        Sym::Named { op, operand } => SymV::Named { op, operand: Box::new(sym_view(*operand)) },
        Sym::Fold { op, id } => SymV::Fold { op, id },
    }
}

impl View for Sym {
    type V = SymV;

    open spec fn view(&self) -> SymV {
        sym_view(*self)
    }
}

/// The flows an expansion substitutes: each flow's target and source in
/// program order, which of them are loops, the shapes by name, and the
/// shape of a space that has none.
pub struct FlowsV {
    pub defs: Seq<(Seq<char>, ExprV)>,
    pub looped: Seq<bool>,
    pub shapes: Map<Seq<char>, Seq<usize>>,
    pub fallback: Seq<usize>,
}

/// How deep an expression nests.
pub open spec fn height(e: ExprV) -> nat
    decreases e,
{
    match e {
        ExprV::AuditTrace(inner) => 1 + height(*inner),
        ExprV::Builtin { operand, .. } => 1 + height(*operand),
        ExprV::Shift { operand, .. } => 1 + height(*operand),
        ExprV::Index { operand, .. } => 1 + height(*operand),
        ExprV::Lift { operand, .. } => 1 + height(*operand),
        ExprV::Reduce { operand, .. } => 1 + height(*operand),
        ExprV::Scan { operand, .. } => 1 + height(*operand),
        ExprV::Rotate { operand, .. } => 1 + height(*operand),
        ExprV::Reverse { operand, .. } => 1 + height(*operand),
        ExprV::Reshape { operand, .. } => 1 + height(*operand),
        ExprV::Transpose { operand, .. } => 1 + height(*operand),
        ExprV::Take { operand, .. } => 1 + height(*operand),
        ExprV::Drop { operand, .. } => 1 + height(*operand),
        ExprV::BinaryOp { lhs, rhs, .. } => 1 + if height(*lhs) > height(*rhs) {
            height(*lhs)
        } else {
            height(*rhs)
        },
        _ => 0,
    }
}

/// The last flow before flow `before` that writes `name`.
pub open spec fn definition_before(defs: Seq<(Seq<char>, ExprV)>, name: Seq<char>, before: int) -> Option<int>
    decreases before,
{
    if before <= 0 {
        None
    } else if before - 1 < defs.len() && defs[before - 1].0 == name {
        Some(before - 1)
    } else {
        definition_before(defs, name, before - 1)
    }
}

pub proof fn lemma_definition_before(defs: Seq<(Seq<char>, ExprV)>, name: Seq<char>, before: int)
    ensures
        definition_before(defs, name, before) matches Some(i) ==> 0 <= i < before && i < defs.len() && defs[i].0 == name,
    decreases before,
{
    if before > 0 {
        lemma_definition_before(defs, name, before - 1);
    }
}

/// Whether `name`, read while expanding flow `at`, is that loop's own
/// iterate rather than an earlier flow's value.
pub open spec fn is_iterate_of(fl: FlowsV, at: int, name: Seq<char>) -> bool {
    0 <= at < fl.looped.len() && fl.looped[at] && at < fl.defs.len() && fl.defs[at].0 == name
}

/// An offset as it stands in a symbol's name: `m` and the magnitude when
/// it is negative.
pub open spec fn tag(offset: i64) -> Seq<char> {
    if offset < 0 {
        seq!['m'] + decimal((-offset) as nat)
    } else {
        decimal(offset as nat)
    }
}

/// What a loop leaves in its target: nothing is assumed of it.
pub open spec fn iterate_sym(idx: nat, name: Seq<char>, offset: i64) -> SymV {
    SymV::Free(name + "⇒"@ + decimal(idx) + "@"@ + tag(offset))
}

/// The shape of a space, or the fallback when it has none.
pub open spec fn shape_for(fl: FlowsV, name: Seq<char>) -> Seq<usize> {
    if fl.shapes.contains_key(name) {
        fl.shapes[name]
    } else {
        fl.fallback
    }
}

/// The geometry of an axis of a shape whose cells can be counted.
pub open spec fn geometry(s: Seq<usize>, axis: Option<usize>) -> Option<(usize, usize)> {
    if fits(s) {
        geometry_of(s, axis)
    } else {
        None
    }
}

/// The space an expression is a place in, if it is one.
pub open spec fn place_name(e: ExprV) -> Option<Seq<char>>
    decreases e,
{
    match e {
        ExprV::Var(n) => Some(n),
        ExprV::AuditTrace(inner) => place_name(*inner),
        _ => None,
    }
}

pub open spec fn axis_digits(axis: Option<usize>) -> Seq<char> {
    match axis {
        Some(a) => decimal(a as nat),
        None => Seq::empty(),
    }
}

/// Two expanded operands joined by an operator.
pub open spec fn combine(op: BinaryOpKind, l: SymV, r: SymV) -> SymV {
    match op {
        BinaryOpKind::Add => SymV::Add(Box::new(l), Box::new(r)),
        BinaryOpKind::Sub => SymV::Sub(Box::new(l), Box::new(r)),
        BinaryOpKind::Mul => SymV::Mul(Box::new(l), Box::new(r)),
        BinaryOpKind::Div => SymV::Div(Box::new(l), Box::new(r)),
        BinaryOpKind::Pow => SymV::Pow(Box::new(l), Box::new(r)),
        BinaryOpKind::Max => SymV::Max(Box::new(l), Box::new(r)),
        BinaryOpKind::Min => SymV::Min(Box::new(l), Box::new(r)),
        BinaryOpKind::Residue => SymV::Residue(Box::new(l), Box::new(r)),
        _ => SymV::Mask {
            cmp: match cmp_of(op) {
                Some(c) => c,
                None => Cmp::Eq,
            },
            lhs: Box::new(l),
            rhs: Box::new(r),
        },
    }
}

/// A value nothing is known of, named by its kind and offset.
pub open spec fn free_tagged(kind: Seq<char>, offset: i64) -> SymV {
    SymV::Free(kind + "@"@ + tag(offset))
}

pub open spec fn zero() -> SymV {
    SymV::Const(seq!['0'])
}

/// `e` as flow `before` evaluates it at cell offset `offset`, and the fold
/// count after it: each fold met is numbered by the count it raises.
pub open spec fn sym_build(fl: FlowsV, e: ExprV, before: nat, offset: i64, folds: usize) -> (SymV, usize)
    decreases before, height(e),
{
    match e {
        ExprV::Number(v) => (SymV::Const(v), folds),
        ExprV::Var(name) => if is_tau_name(name) {
            (SymV::Tau, folds)
        } else if is_iterate_of(fl, before as int, name) {
            (iterate_sym(before, name, offset), folds)
        } else {
            proof {
                lemma_definition_before(fl.defs, name, before as int);
            }
            match definition_before(fl.defs, name, before as int) {
                Some(idx) => if 0 <= idx < fl.looped.len() && fl.looped[idx] {
                    (iterate_sym(idx as nat, name, offset), folds)
                } else {
                    sym_build(fl, fl.defs[idx].1, idx as nat, offset, folds)
                },
                None => (SymV::Free(name + "@"@ + signed_decimal(offset as int)), folds),
            }
        },
        ExprV::AuditTrace(inner) => sym_build(fl, *inner, before, offset, folds),
        ExprV::Lift { operand, .. } => sym_build(fl, *operand, before, offset, folds),
        ExprV::Rotate { by, axis, operand } => match place_name(*operand) {
            Some(name) => {
                let stride: i64 = match geometry(shape_for(fl, name), axis) {
                    Some((st, _)) => st as i64,
                    None => 1,
                };
                sym_build(fl, ExprV::Var(name), before, offset.wrapping_add(by.wrapping_mul(stride)), folds)
            },
            None => (free_tagged("rotate"@, offset), folds),
        },
        ExprV::Reverse { operand, .. } => match place_name(*operand) {
            Some(name) => sym_build(fl, ExprV::Var(name), before, offset, folds),
            None => (free_tagged("reverse"@, offset), folds),
        },
        ExprV::Transpose { operand, .. } => match place_name(*operand) {
            Some(name) => sym_build(fl, ExprV::Var(name), before, offset, folds),
            None => (free_tagged("transpose"@, offset), folds),
        },
        ExprV::Reshape { operand, .. } => match place_name(*operand) {
            Some(name) => sym_build(fl, ExprV::Var(name), before, offset, folds),
            None => (free_tagged("reshape"@, offset), folds),
        },
        ExprV::Take { .. } => (free_tagged("take"@, offset), folds),
        ExprV::Drop { .. } => (free_tagged("drop"@, offset), folds),
        ExprV::Call { .. } => (free_tagged("call"@, offset), folds),
        ExprV::Index { axis, operand } => {
            let extent = match place_name(*operand) {
                Some(name) => match geometry(shape_for(fl, name), axis) {
                    Some((_, x)) => Some(x),
                    None => None,
                },
                None => None,
            };
            match extent {
                Some(x) => (SymV::Coordinate { name: "⍳"@ + axis_digits(axis) + "@"@ + tag(offset), extent: x }, folds),
                None => (free_tagged("⍳"@, offset), folds),
            }
        },
        ExprV::Builtin { op, operand } => {
            let inner = sym_build(fl, *operand, before, offset, folds);
            (SymV::Named { op, operand: Box::new(inner.0) }, inner.1)
        },
        ExprV::Shift { dir, axis, operand } => match place_name(*operand) {
            None => (SymV::Free("shift@"@ + signed_decimal(offset as int)), folds),
            Some(name) => match geometry(shape_for(fl, name), axis) {
                None => (zero(), folds),
                Some((stride, extent)) => if extent <= 1 {
                    (zero(), folds)
                } else {
                    let next = match dir {
                        ShiftDir::Positive => offset.wrapping_sub(stride as i64),
                        ShiftDir::Negative => offset.wrapping_add(stride as i64),
                    };
                    let flag = "edge_o"@ + tag(offset) + "_s"@ + decimal(stride as nat) + "_e"@ + decimal(extent as nat)
                        + match dir {
                        ShiftDir::Positive => "_p"@,
                        ShiftDir::Negative => "_n"@,
                    };
                    let interior = sym_build(fl, ExprV::Var(name), before, next, folds);
                    (SymV::Boundary { flag, interior: Box::new(interior.0) }, interior.1)
                },
            },
        },
        ExprV::Scan { op, operand, .. } => {
            let inner = sym_build(fl, *operand, before, offset, folds);
            let id = inner.1.wrapping_add(1);
            (SymV::Fold { op, id }, id)
        },
        ExprV::Reduce { op, operand, .. } => {
            let inner = sym_build(fl, *operand, before, offset, folds);
            let id = inner.1.wrapping_add(1);
            (SymV::Fold { op, id }, id)
        },
        ExprV::BinaryOp { op, lhs, rhs } => {
            let l = sym_build(fl, *lhs, before, offset, folds);
            let r = sym_build(fl, *rhs, before, offset, l.1);
            (combine(op, l.0, r.0), r.1)
        },
    }
}

/// Whether the cells of a shape can be counted in a machine word.
pub fn shape_fits(s: &[usize]) -> (r: bool)
    ensures
        r == fits(s@),
{
    let limit: u64 = if (usize::MAX as u64) < (i64::MAX as u64) {
        usize::MAX as u64
    } else {
        i64::MAX as u64
    };
    let mut acc: u64 = 1;
    let mut i: usize = s.len();
    assert(s@.skip(s.len() as int) =~= Seq::<usize>::empty());
    while i > 0
        invariant
            i <= s.len(),
            acc == cells(s@.skip(i as int)),
            acc <= limit,
            limit <= usize::MAX,
            limit <= i64::MAX,
            limit == usize::MAX || limit == i64::MAX,
        decreases i,
    {
        proof {
            lemma_cells_skip(s@, i as int - 1);
            lemma_cells_pos(s@.skip(i as int));
        }
        let d: u64 = if s[i - 1] == 0 { 1 } else { s[i - 1] as u64 };
        assert(d == max1(s@[i as int - 1]));
        if acc > limit / d {
            proof {
                assert(acc * d > limit && d * acc == acc * d) by (nonlinear_arith)
                    requires
                        acc > limit / d,
                        d >= 1,
                ;
                lemma_cells_skip_mono(s@, 0, i as int - 1);
                assert(s@.skip(0) =~= s@);
            }
            return false;
        }
        proof {
            assert(acc * d <= limit && d * acc == acc * d) by (nonlinear_arith)
                requires
                    acc <= limit / d,
                    d >= 1,
            ;
        }
        acc = acc * d;
        i = i - 1;
    }
    assert(s@.skip(0) =~= s@);
    true
}

/// Expands values flow by flow.
pub struct Builder {
    pub defs: Vec<(String, Expr)>,
    pub looped: Vec<bool>,
    pub shapes: ShapeTable,
    pub fallback: Vec<usize>,
    pub folds: usize,
}

pub open spec fn defs_view(v: Seq<(String, Expr)>) -> Seq<(Seq<char>, ExprV)> {
    v.map_values(|d: (String, Expr)| (d.0@, d.1@))
}

impl Builder {
    pub open spec fn flows(&self) -> FlowsV {
        FlowsV { defs: defs_view(self.defs@), looped: self.looped@, shapes: self.shapes@, fallback: self.fallback@ }
    }

    fn shape_for(&self, name: &String) -> (r: Vec<usize>)
        ensures
            r@ == shape_for(self.flows(), name@),
    {
        match self.shapes.get(name) {
            Some(v) => v,
            None => copy_dims(self.fallback.as_slice()),
        }
    }

    fn geometry(&self, name: &String, axis: Option<usize>) -> (r: Option<(usize, usize)>)
        ensures
            r == geometry(shape_for(self.flows(), name@), axis),
    {
        let shape = self.shape_for(name);
        if shape_fits(shape.as_slice()) {
            axis_geometry(shape.as_slice(), axis)
        } else {
            None
        }
    }

    /// The last flow before `before` that writes `name`.
    fn definition(&self, name: &String, before: usize) -> (r: Option<usize>)
        ensures
            match r {
                Some(i) => definition_before(self.flows().defs, name@, before as int) == Some(i as int),
                None => definition_before(self.flows().defs, name@, before as int) is None,
            },
    {
        let ghost dv = self.flows().defs;
        let mut k: usize = if before < self.defs.len() { before } else { self.defs.len() };
        proof {
            lemma_definition_skip(dv, name@, before as int, k as int);
        }
        while k > 0
            invariant
                k <= self.defs.len(),
                dv == self.flows().defs,
                definition_before(dv, name@, before as int) == definition_before(dv, name@, k as int),
            decreases k,
        {
            assert(dv[k - 1] == (self.defs@[k - 1].0@, self.defs@[k - 1].1@));
            if crate::text::str_eq(self.defs[k - 1].0.as_str(), name.as_str()) {
                return Some(k - 1);
            }
            k = k - 1;
        }
        None
    }
}

/// Past the last flow, a later `before` finds the same flow.
proof fn lemma_definition_skip(defs: Seq<(Seq<char>, ExprV)>, name: Seq<char>, before: int, k: int)
    requires
        k == (if before < defs.len() { before } else { defs.len() as int }),
        0 <= before,
    ensures
        definition_before(defs, name, before) == definition_before(defs, name, k),
    decreases before - k,
{
    if before > k {
        lemma_definition_skip(defs, name, before - 1, k);
    }
}

/// An offset's tag, appended.
fn push_tag(s: &mut String, offset: i64)
    ensures
        final(s)@ == old(s)@ + tag(offset),
{
    let t = crate::symbolic::offset_tag(offset);
    push_str(s, t.as_str());
}

fn free_at(kind: &str, offset: i64) -> (r: Sym)
    ensures
        r@ == free_tagged(kind@, offset),
{
    let mut s = String::new();
    push_str(&mut s, kind);
    push_str(&mut s, "@");
    push_tag(&mut s, offset);
    assert(s@ =~= kind@ + "@"@ + tag(offset));
    Sym::Free(s)
}

fn iterate_value(idx: usize, name: &String, offset: i64) -> (r: Sym)
    ensures
        r@ == iterate_sym(idx as nat, name@, offset),
{
    let mut s = String::new();
    push_str(&mut s, name.as_str());
    push_str(&mut s, "⇒");
    push_decimal(&mut s, idx as u64);
    push_str(&mut s, "@");
    push_tag(&mut s, offset);
    assert(s@ =~= name@ + "⇒"@ + decimal(idx as nat) + "@"@ + tag(offset));
    Sym::Free(s)
}

fn zero_sym() -> (r: Sym)
    ensures
        r@ == zero(),
{
    let mut s = String::new();
    crate::text::push_char(&mut s, '0');
    assert(s@ =~= seq!['0']);
    Sym::Const(s)
}

/// The space an expression is a place in, if it is one.
fn place_of(e: &Expr) -> (r: Option<String>)
    ensures
        match r {
            Some(n) => place_name(e@) == Some(n@),
            None => place_name(e@) is None,
        },
    decreases e,
{
    match e {
        Expr::Var(n) => Some(n.clone()),
        Expr::AuditTrace(inner) => place_of(inner),
        _ => None,
    }
}

fn combine_syms(op: BinaryOpKind, l: Sym, r: Sym) -> (s: Sym)
    ensures
        s@ == combine(op, l@, r@),
{
    match op {
        BinaryOpKind::Add => Sym::Add(Box::new(l), Box::new(r)),
        BinaryOpKind::Sub => Sym::Sub(Box::new(l), Box::new(r)),
        BinaryOpKind::Mul => Sym::Mul(Box::new(l), Box::new(r)),
        BinaryOpKind::Div => Sym::Div(Box::new(l), Box::new(r)),
        BinaryOpKind::Pow => Sym::Pow(Box::new(l), Box::new(r)),
        BinaryOpKind::Max => Sym::Max(Box::new(l), Box::new(r)),
        BinaryOpKind::Min => Sym::Min(Box::new(l), Box::new(r)),
        BinaryOpKind::Residue => Sym::Residue(Box::new(l), Box::new(r)),
        _ => {
            let cmp = match Cmp::from_op(&op) {
                Some(c) => c,
                None => Cmp::Eq,
            };
            Sym::Mask { cmp, lhs: Box::new(l), rhs: Box::new(r) }
        },
    }
}

impl Builder {
    /// `expr` as flow `before` would evaluate it at cell offset `offset`.
    /// Substituting a space always moves to an earlier flow, so the
    /// expansion ends.
    pub fn build(&mut self, expr: &Expr, before: usize, offset: i64) -> (r: Sym)
        requires
            old(self).defs.len() == old(self).looped.len(),
        ensures
            final(self).flows() == old(self).flows(),
            final(self).defs.len() == final(self).looped.len(),
            (r@, final(self).folds) == sym_build(old(self).flows(), expr@, before as nat, offset, old(self).folds),
        decreases before, height(expr@),
    {
        match expr {
            Expr::Number(v) => Sym::Const(v.clone()),
            Expr::Var(name) => {
                let c = chars_of(name.as_str());
                if is_tau(c.as_slice()) {
                    return Sym::Tau;
                }
                if before < self.looped.len() && self.looped[before] && crate::text::str_eq(
                    self.defs[before].0.as_str(),
                    name.as_str(),
                ) {
                    return iterate_value(before, name, offset);
                }
                proof {
                    lemma_definition_before(self.flows().defs, name@, before as int);
                }
                match self.definition(name, before) {
                    Some(idx) => {
                        if self.looped[idx] {
                            iterate_value(idx, name, offset)
                        } else {
                            let def = crate::ast::copy_expr(&self.defs[idx].1);
                            assert(self.flows().defs[idx as int] == (self.defs@[idx as int].0@, self.defs@[idx as int].1@));
                            self.build(&def, idx, offset)
                        }
                    },
                    None => {
                        let mut s = String::new();
                        push_str(&mut s, name.as_str());
                        push_str(&mut s, "@");
                        push_signed(&mut s, offset);
                        assert(s@ =~= name@ + "@"@ + signed_decimal(offset as int));
                        Sym::Free(s)
                    },
                }
            },
            Expr::AuditTrace(inner) => self.build(inner, before, offset),
            Expr::Lift { operand, .. } => self.build(operand, before, offset),
            Expr::Rotate { by, axis, operand } => match place_of(operand) {
                Some(name) => {
                    let stride: i64 = match self.geometry(&name, *axis) {
                        Some((st, _)) => st as i64,
                        None => 1,
                    };
                    let var = Expr::Var(name);
                    self.build(&var, before, offset.wrapping_add(by.wrapping_mul(stride)))
                },
                None => free_at("rotate", offset),
            },
            Expr::Reverse { operand, .. } => match place_of(operand) {
                Some(name) => {
                    let var = Expr::Var(name);
                    self.build(&var, before, offset)
                },
                None => free_at("reverse", offset),
            },
            Expr::Transpose { operand, .. } => match place_of(operand) {
                Some(name) => {
                    let var = Expr::Var(name);
                    self.build(&var, before, offset)
                },
                None => free_at("transpose", offset),
            },
            Expr::Reshape { operand, .. } => match place_of(operand) {
                Some(name) => {
                    let var = Expr::Var(name);
                    self.build(&var, before, offset)
                },
                None => free_at("reshape", offset),
            },
            Expr::Take { .. } => free_at("take", offset),
            Expr::Drop { .. } => free_at("drop", offset),
            Expr::Call { .. } => free_at("call", offset),
            Expr::Index { axis, operand } => {
                let extent = match place_of(operand) {
                    Some(name) => match self.geometry(&name, *axis) {
                        Some((_, x)) => Some(x),
                        None => None,
                    },
                    None => None,
                };
                match extent {
                    Some(x) => {
                        let mut s = String::new();
                        push_str(&mut s, "⍳");
                        match axis {
                            Some(a) => push_decimal(&mut s, *a as u64),
                            None => {},
                        }
                        push_str(&mut s, "@");
                        push_tag(&mut s, offset);
                        assert(s@ =~= "⍳"@ + axis_digits(*axis) + "@"@ + tag(offset));
                        Sym::Coordinate { name: s, extent: x }
                    },
                    None => free_at("⍳", offset),
                }
            },
            Expr::Builtin { op, operand } => {
                let inner = self.build(operand, before, offset);
                Sym::Named { op: *op, operand: Box::new(inner) }
            },
            Expr::Shift { dir, axis, operand } => match place_of(operand) {
                None => {
                    let mut s = String::new();
                    push_str(&mut s, "shift@");
                    push_signed(&mut s, offset);
                    assert(s@ =~= "shift@"@ + signed_decimal(offset as int));
                    Sym::Free(s)
                },
                Some(name) => match self.geometry(&name, *axis) {
                    None => zero_sym(),
                    Some((stride, extent)) => {
                        if extent <= 1 {
                            return zero_sym();
                        }
                        let next = match dir {
                            ShiftDir::Positive => offset.wrapping_sub(stride as i64),
                            ShiftDir::Negative => offset.wrapping_add(stride as i64),
                        };
                        let mut flag = String::new();
                        push_str(&mut flag, "edge_o");
                        push_tag(&mut flag, offset);
                        push_str(&mut flag, "_s");
                        push_decimal(&mut flag, stride as u64);
                        push_str(&mut flag, "_e");
                        push_decimal(&mut flag, extent as u64);
                        match dir {
                            ShiftDir::Positive => push_str(&mut flag, "_p"),
                            ShiftDir::Negative => push_str(&mut flag, "_n"),
                        }
                        assert(flag@ =~= "edge_o"@ + tag(offset) + "_s"@ + decimal(stride as nat) + "_e"@ + decimal(
                            extent as nat,
                        ) + match dir {
                            ShiftDir::Positive => "_p"@,
                            ShiftDir::Negative => "_n"@,
                        });
                        let var = Expr::Var(name);
                        let interior = self.build(&var, before, next);
                        Sym::Boundary { flag, interior: Box::new(interior) }
                    },
                },
            },
            Expr::Scan { op, operand, .. } => {
                let _ = self.build(operand, before, offset);
                self.folds = self.folds.wrapping_add(1);
                Sym::Fold { op: *op, id: self.folds }
            },
            Expr::Reduce { op, operand, .. } => {
                let _ = self.build(operand, before, offset);
                self.folds = self.folds.wrapping_add(1);
                Sym::Fold { op: *op, id: self.folds }
            },
            Expr::BinaryOp { op, lhs, rhs } => {
                let l = self.build(lhs, before, offset);
                let r = self.build(rhs, before, offset);
                combine_syms(*op, l, r)
            },
        }
    }
}

/// What a named function needs of its argument.
#[derive(Debug, Clone, Copy, PartialEq, Eq, Structural)]
pub enum Domain {
    /// `log` is undefined at zero and below.
    Positive,
    /// `sqrt` of a negative is not a real number.
    NonNegative,
}

/// A constraint lifted to `lhs cmp rhs` over expanded values.
#[derive(Debug)]
pub struct Obligation {
    pub source: String,
    pub cmp: Cmp,
    pub lhs: Sym,
    pub rhs: Sym,
    pub line: usize,
}

pub struct ObligationV {
    pub source: Seq<char>,
    pub cmp: Cmp,
    pub lhs: SymV,
    pub rhs: SymV,
    pub line: usize,
}

/// What the expansion of a program yields.
pub struct Expansion {
    pub obligations: Vec<Obligation>,
    /// Every division a flow performs: its text, its denominator, its line.
    pub divisions: Vec<(String, Sym, usize)>,
    /// Every argument that has to stay inside a function's domain: the call
    /// as written, the argument, the bound, and the line.
    pub domains: Vec<(String, Sym, Domain, usize)>,
    /// The value written at the equilibrium point, expanded through every
    /// flow that produced it.
    pub output: Option<Sym>,
}

pub struct ExpansionV {
    pub obligations: Seq<ObligationV>,
    pub divisions: Seq<(Seq<char>, SymV, usize)>,
    pub domains: Seq<(Seq<char>, SymV, Domain, usize)>,
    pub output: Option<SymV>,
}

pub open spec fn obligation_view(o: Obligation) -> ObligationV {
    ObligationV { source: o.source@, cmp: o.cmp, lhs: o.lhs@, rhs: o.rhs@, line: o.line }
}

pub open spec fn divisions_view(v: Seq<(String, Sym, usize)>) -> Seq<(Seq<char>, SymV, usize)> {
    v.map_values(|d: (String, Sym, usize)| (d.0@, d.1@, d.2))
}

pub open spec fn domains_view(v: Seq<(String, Sym, Domain, usize)>) -> Seq<(Seq<char>, SymV, Domain, usize)> {
    v.map_values(|d: (String, Sym, Domain, usize)| (d.0@, d.1@, d.2, d.3))
}

pub open spec fn expansion_view(x: Expansion) -> ExpansionV {
    ExpansionV {
        obligations: x.obligations@.map_values(|o: Obligation| obligation_view(o)),
        divisions: divisions_view(x.divisions@),
        domains: domains_view(x.domains@),
        output: match x.output {
            Some(s) => Some(s@),
            None => None,
        },
    }
}

/// Whether `a` comes before `b` in the order of their characters.
pub open spec fn chars_less(a: Seq<char>, b: Seq<char>) -> bool
    decreases a.len(),
{
    if a.len() == 0 {
        b.len() > 0
    } else if b.len() == 0 {
        false
    } else if a[0] != b[0] {
        (a[0] as u32) < (b[0] as u32)
    } else {
        chars_less(a.drop_first(), b.drop_first())
    }
}

/// The declared shapes, and the declared space whose name comes first.
pub struct DeclV {
    pub shapes: Map<Seq<char>, Seq<usize>>,
    pub least: Option<(Seq<char>, Seq<usize>)>,
}

pub open spec fn declare_named(st: DeclV, n: Seq<char>, d: Seq<usize>) -> DeclV {
    DeclV {
        shapes: st.shapes.insert(n, d),
        least: match st.least {
            None => Some((n, d)),
            Some((k, v)) => if n == k || chars_less(n, k) {
                Some((n, d))
            } else {
                Some((k, v))
            },
        },
    }
}

pub open spec fn declare_shape(st: DeclV, s: StatementV) -> DeclV {
    match declared_name(s) {
        Some((n, d)) => declare_named(st, n, d),
        None => st,
    }
}

pub open spec fn decls_upto(stmts: Seq<StatementV>, k: int) -> DeclV
    decreases k,
{
    if k <= 0 {
        DeclV { shapes: Map::empty(), least: None }
    } else {
        declare_shape(decls_upto(stmts, k - 1), stmts[k - 1])
    }
}

/// The shape of a space that has none: `INPUT`'s, else that of the space
/// whose name comes first, else four cells.
pub open spec fn fallback_of(d: DeclV) -> Seq<usize> {
    if d.shapes.contains_key("INPUT"@) {
        d.shapes["INPUT"@]
    } else {
        match d.least {
            Some((_, v)) => v,
            None => seq![4usize],
        }
    }
}

/// The flows in order, which are loops, their lines, the shapes, and each
/// constraint with the count of flows before it.
pub struct ScanV {
    pub shapes: Map<Seq<char>, Seq<usize>>,
    pub defs: Seq<(Seq<char>, ExprV)>,
    pub looped: Seq<bool>,
    pub def_lines: Seq<usize>,
    pub constraints: Seq<(nat, ExprV, usize)>,
}

pub open spec fn add_def(st: ScanV, name: Seq<char>, src: ExprV, looped: bool, line: usize, fallback: Seq<usize>) -> ScanV {
    let inferred = match shape_of_expr(src, st.shapes) {
        Some(v) => v,
        None => fallback,
    };
    ScanV {
        shapes: if st.shapes.contains_key(name) {
            st.shapes
        } else {
            st.shapes.insert(name, inferred)
        },
        defs: st.defs.push((name, src)),
        looped: st.looped.push(looped),
        def_lines: st.def_lines.push(line),
        constraints: st.constraints,
    }
}

pub open spec fn scan_step(st: ScanV, s: StatementV, line: usize, fallback: Seq<usize>) -> ScanV {
    match s {
        StatementV::Flow { src, target } => add_def(
            st,
            match target {
                TargetV::Var(n) => n,
                TargetV::Equilibrium => "OUTPUT"@,
            },
            src,
            false,
            line,
            fallback,
        ),
        StatementV::Iterate { src, target } => add_def(st, target, src, true, line, fallback),
        StatementV::Constraint(e) => ScanV {
            shapes: st.shapes,
            defs: st.defs,
            looped: st.looped,
            def_lines: st.def_lines,
            constraints: st.constraints.push((st.defs.len(), e, line)),
        },
        _ => st,
    }
}

pub open spec fn scan_upto(stmts: Seq<StatementV>, lines: Seq<usize>, k: int, start: ScanV, fallback: Seq<usize>) -> ScanV
    decreases k,
{
    if k <= 0 {
        start
    } else {
        scan_step(scan_upto(stmts, lines, k - 1, start, fallback), stmts[k - 1], line_at(lines, k - 1), fallback)
    }
}

/// Every division written in `e`, each denominator expanded as flow `at`
/// evaluates it.
pub open spec fn divisions_in(fl: FlowsV, e: ExprV, at: nat, line: usize, folds: usize) -> (Seq<(Seq<char>, SymV, usize)>, usize)
    decreases e,
{
    match e {
        ExprV::BinaryOp { op, lhs, rhs } => {
            let first = if op == BinaryOpKind::Div {
                let d = sym_build(fl, *rhs, at, 0, folds);
                (seq![(glyphs(e), d.0, line)], d.1)
            } else {
                (Seq::empty(), folds)
            };
            let a = divisions_in(fl, *lhs, at, line, first.1);
            let b = divisions_in(fl, *rhs, at, line, a.1);
            (first.0 + a.0 + b.0, b.1)
        },
        ExprV::Shift { operand, .. } => divisions_in(fl, *operand, at, line, folds),
        ExprV::Reduce { operand, .. } => divisions_in(fl, *operand, at, line, folds),
        ExprV::Scan { operand, .. } => divisions_in(fl, *operand, at, line, folds),
        ExprV::Builtin { operand, .. } => divisions_in(fl, *operand, at, line, folds),
        ExprV::Lift { operand, .. } => divisions_in(fl, *operand, at, line, folds),
        ExprV::Rotate { operand, .. } => divisions_in(fl, *operand, at, line, folds),
        ExprV::Reverse { operand, .. } => divisions_in(fl, *operand, at, line, folds),
        ExprV::Reshape { operand, .. } => divisions_in(fl, *operand, at, line, folds),
        ExprV::Transpose { operand, .. } => divisions_in(fl, *operand, at, line, folds),
        ExprV::Take { operand, .. } => divisions_in(fl, *operand, at, line, folds),
        ExprV::Drop { operand, .. } => divisions_in(fl, *operand, at, line, folds),
        ExprV::AuditTrace(inner) => divisions_in(fl, *inner, at, line, folds),
        _ => (Seq::empty(), folds),
    }
}

/// What a named function needs of its argument, if anything.
pub open spec fn needs(op: BuiltinOp) -> Option<Domain> {
    match op {
        BuiltinOp::Log => Some(Domain::Positive),
        BuiltinOp::Sqrt => Some(Domain::NonNegative),
        _ => None,
    }
}

/// Every argument a named function in `e` constrains, expanded as flow
/// `at` evaluates it.
pub open spec fn domains_in(fl: FlowsV, e: ExprV, at: nat, line: usize, folds: usize) -> (
    Seq<(Seq<char>, SymV, Domain, usize)>,
    usize,
)
    decreases e,
{
    match e {
        ExprV::Builtin { op, operand } => {
            let first = match needs(op) {
                Some(d) => {
                    let a = sym_build(fl, *operand, at, 0, folds);
                    (seq![(glyphs(e), a.0, d, line)], a.1)
                },
                None => (Seq::empty(), folds),
            };
            let rest = domains_in(fl, *operand, at, line, first.1);
            (first.0 + rest.0, rest.1)
        },
        ExprV::BinaryOp { lhs, rhs, .. } => {
            let a = domains_in(fl, *lhs, at, line, folds);
            let b = domains_in(fl, *rhs, at, line, a.1);
            (a.0 + b.0, b.1)
        },
        ExprV::Shift { operand, .. } => domains_in(fl, *operand, at, line, folds),
        ExprV::Reduce { operand, .. } => domains_in(fl, *operand, at, line, folds),
        ExprV::Scan { operand, .. } => domains_in(fl, *operand, at, line, folds),
        ExprV::Lift { operand, .. } => domains_in(fl, *operand, at, line, folds),
        ExprV::Rotate { operand, .. } => domains_in(fl, *operand, at, line, folds),
        ExprV::Reverse { operand, .. } => domains_in(fl, *operand, at, line, folds),
        ExprV::Reshape { operand, .. } => domains_in(fl, *operand, at, line, folds),
        ExprV::Transpose { operand, .. } => domains_in(fl, *operand, at, line, folds),
        ExprV::Take { operand, .. } => domains_in(fl, *operand, at, line, folds),
        ExprV::Drop { operand, .. } => domains_in(fl, *operand, at, line, folds),
        ExprV::AuditTrace(inner) => domains_in(fl, *inner, at, line, folds),
        _ => (Seq::empty(), folds),
    }
}

/// The divisions and domains of the first `k` flows, and the fold count.
pub open spec fn collected_upto(fl: FlowsV, lines: Seq<usize>, k: int, folds: usize) -> (
    Seq<(Seq<char>, SymV, usize)>,
    Seq<(Seq<char>, SymV, Domain, usize)>,
    usize,
)
    decreases k,
{
    if k <= 0 {
        (Seq::empty(), Seq::empty(), folds)
    } else {
        let before = collected_upto(fl, lines, k - 1, folds);
        let d = divisions_in(fl, fl.defs[k - 1].1, (k - 1) as nat, lines[k - 1], before.2);
        let m = domains_in(fl, fl.defs[k - 1].1, (k - 1) as nat, lines[k - 1], d.1);
        (before.0 + d.0, before.1 + m.0, m.1)
    }
}

/// A constraint as `lhs cmp rhs`: a comparison keeps its two sides, any
/// other expression is compared equal to zero.
pub open spec fn obligation_of(fl: FlowsV, c: (nat, ExprV, usize), folds: usize) -> (ObligationV, usize) {
    match c.1 {
        ExprV::BinaryOp { op, lhs, rhs } => match cmp_of(op) {
            Some(cmp) => {
                let l = sym_build(fl, *lhs, c.0, 0, folds);
                let r = sym_build(fl, *rhs, c.0, 0, l.1);
                (ObligationV { source: glyphs(c.1), cmp, lhs: l.0, rhs: r.0, line: c.2 }, r.1)
            },
            None => {
                let l = sym_build(fl, c.1, c.0, 0, folds);
                (ObligationV { source: glyphs(c.1), cmp: Cmp::Eq, lhs: l.0, rhs: zero(), line: c.2 }, l.1)
            },
        },
        _ => {
            let l = sym_build(fl, c.1, c.0, 0, folds);
            (ObligationV { source: glyphs(c.1), cmp: Cmp::Eq, lhs: l.0, rhs: zero(), line: c.2 }, l.1)
        },
    }
}

pub open spec fn obligations_upto(fl: FlowsV, cs: Seq<(nat, ExprV, usize)>, k: int, folds: usize) -> (Seq<ObligationV>, usize)
    decreases k,
{
    if k <= 0 {
        (Seq::empty(), folds)
    } else {
        let before = obligations_upto(fl, cs, k - 1, folds);
        let o = obligation_of(fl, cs[k - 1], before.1);
        (before.0.push(o.0), o.1)
    }
}

/// The expansion of a program: its divisions and domains flow by flow,
/// then its constraints, then the value of its last flow.
pub open spec fn expand_spec(stmts: Seq<StatementV>, lines: Seq<usize>) -> ExpansionV {
    let decl = decls_upto(stmts, stmts.len() as int);
    let fallback = fallback_of(decl);
    let scan = scan_upto(
        stmts,
        lines,
        stmts.len() as int,
        ScanV { shapes: decl.shapes, defs: Seq::empty(), looped: Seq::empty(), def_lines: Seq::empty(), constraints: Seq::empty() },
        fallback,
    );
    let fl = FlowsV { defs: scan.defs, looped: scan.looped, shapes: scan.shapes, fallback };
    let collected = collected_upto(fl, scan.def_lines, scan.defs.len() as int, 0);
    let obligations = obligations_upto(fl, scan.constraints, scan.constraints.len() as int, collected.2);
    ExpansionV {
        obligations: obligations.0,
        divisions: collected.0,
        domains: collected.1,
        output: if scan.defs.len() == 0 {
            None
        } else {
            Some(sym_build(fl, scan.defs.last().1, (scan.defs.len() - 1) as nat, 0, obligations.1).0)
        },
    }
}

/// Whether `a` comes before `b` in the order of their characters.
fn comes_before(a: &str, b: &str) -> (r: bool)
    ensures
        r == chars_less(a@, b@),
{
    let x = chars_of(a);
    let y = chars_of(b);
    let mut i: usize = 0;
    assert(x@.skip(0) =~= x@);
    assert(y@.skip(0) =~= y@);
    while i < x.len() && i < y.len()
        invariant
            i <= x.len(),
            i <= y.len(),
            x@ == a@,
            y@ == b@,
            chars_less(a@, b@) == chars_less(x@.skip(i as int), y@.skip(i as int)),
        decreases x.len() - i,
    {
        assert(x@.skip(i as int).drop_first() =~= x@.skip(i as int + 1));
        assert(y@.skip(i as int).drop_first() =~= y@.skip(i as int + 1));
        assert(x@.skip(i as int)[0] == x@[i as int]);
        assert(y@.skip(i as int)[0] == y@[i as int]);
        if x[i] != y[i] {
            return (x[i] as u32) < (y[i] as u32);
        }
        i = i + 1;
    }
    i == x.len() && i < y.len()
}

/// Every division in `e`, appended, each denominator expanded as flow `at`
/// evaluates it.
fn collect_divisions(b: &mut Builder, e: &Expr, at: usize, line: usize, out: &mut Vec<(String, Sym, usize)>)
    requires
        old(b).defs.len() == old(b).looped.len(),
    ensures
        final(b).flows() == old(b).flows(),
        final(b).defs.len() == final(b).looped.len(),
        divisions_view(final(out)@) == divisions_view(old(out)@) + divisions_in(old(b).flows(), e@, at as nat, line, old(b).folds).0,
        final(b).folds == divisions_in(old(b).flows(), e@, at as nat, line, old(b).folds).1,
    decreases e,
{
    let ghost start = divisions_view(out@);
    match e {
        Expr::BinaryOp { op, lhs, rhs } => {
            if *op == BinaryOpKind::Div {
                let denom = b.build(rhs, at, 0);
                out.push((crate::symbolic::expr_glyphs(e), denom, line));
            }
            let ghost mid = divisions_view(out@);
            collect_divisions(b, lhs, at, line, out);
            collect_divisions(b, rhs, at, line, out);
            proof {
                if *op == BinaryOpKind::Div {
                    assert(mid =~= start + seq![(glyphs(e@), sym_build(old(b).flows(), rhs@, at as nat, 0, old(b).folds).0, line)]);
                } else {
                    assert(mid =~= start + Seq::<(Seq<char>, SymV, usize)>::empty());
                }
            }
            assert(divisions_view(out@) =~= start + divisions_in(old(b).flows(), e@, at as nat, line, old(b).folds).0);
        },
        Expr::Shift { operand, .. } => collect_divisions(b, operand, at, line, out),
        Expr::Reduce { operand, .. } => collect_divisions(b, operand, at, line, out),
        Expr::Scan { operand, .. } => collect_divisions(b, operand, at, line, out),
        Expr::Builtin { operand, .. } => collect_divisions(b, operand, at, line, out),
        Expr::Lift { operand, .. } => collect_divisions(b, operand, at, line, out),
        Expr::Rotate { operand, .. } => collect_divisions(b, operand, at, line, out),
        Expr::Reverse { operand, .. } => collect_divisions(b, operand, at, line, out),
        Expr::Reshape { operand, .. } => collect_divisions(b, operand, at, line, out),
        Expr::Transpose { operand, .. } => collect_divisions(b, operand, at, line, out),
        Expr::Take { operand, .. } => collect_divisions(b, operand, at, line, out),
        Expr::Drop { operand, .. } => collect_divisions(b, operand, at, line, out),
        Expr::AuditTrace(inner) => collect_divisions(b, inner, at, line, out),
        _ => {
            assert(divisions_view(out@) =~= start + Seq::<(Seq<char>, SymV, usize)>::empty());
        },
    }
}

/// Every argument a named function in `e` constrains, appended.
fn collect_domains(b: &mut Builder, e: &Expr, at: usize, line: usize, out: &mut Vec<(String, Sym, Domain, usize)>)
    requires
        old(b).defs.len() == old(b).looped.len(),
    ensures
        final(b).flows() == old(b).flows(),
        final(b).defs.len() == final(b).looped.len(),
        domains_view(final(out)@) == domains_view(old(out)@) + domains_in(old(b).flows(), e@, at as nat, line, old(b).folds).0,
        final(b).folds == domains_in(old(b).flows(), e@, at as nat, line, old(b).folds).1,
    decreases e,
{
    let ghost start = domains_view(out@);
    match e {
        Expr::Builtin { op, operand } => {
            let need = match op {
                BuiltinOp::Log => Some(Domain::Positive),
                BuiltinOp::Sqrt => Some(Domain::NonNegative),
                _ => None,
            };
            match need {
                Some(d) => {
                    let argument = b.build(operand, at, 0);
                    out.push((crate::symbolic::expr_glyphs(e), argument, d, line));
                },
                None => {},
            }
            let ghost mid = domains_view(out@);
            collect_domains(b, operand, at, line, out);
            proof {
                match need {
                    Some(d) => {
                        assert(mid =~= start + seq![(glyphs(e@), sym_build(old(b).flows(), operand@, at as nat, 0, old(b).folds).0, d, line)]);
                    },
                    None => {
                        assert(mid =~= start + Seq::<(Seq<char>, SymV, Domain, usize)>::empty());
                    },
                }
            }
            assert(domains_view(out@) =~= start + domains_in(old(b).flows(), e@, at as nat, line, old(b).folds).0);
        },
        Expr::BinaryOp { lhs, rhs, .. } => {
            collect_domains(b, lhs, at, line, out);
            collect_domains(b, rhs, at, line, out);
            assert(domains_view(out@) =~= start + domains_in(old(b).flows(), e@, at as nat, line, old(b).folds).0);
        },
        Expr::Shift { operand, .. } => collect_domains(b, operand, at, line, out),
        Expr::Reduce { operand, .. } => collect_domains(b, operand, at, line, out),
        Expr::Scan { operand, .. } => collect_domains(b, operand, at, line, out),
        Expr::Lift { operand, .. } => collect_domains(b, operand, at, line, out),
        Expr::Rotate { operand, .. } => collect_domains(b, operand, at, line, out),
        Expr::Reverse { operand, .. } => collect_domains(b, operand, at, line, out),
        Expr::Reshape { operand, .. } => collect_domains(b, operand, at, line, out),
        Expr::Transpose { operand, .. } => collect_domains(b, operand, at, line, out),
        Expr::Take { operand, .. } => collect_domains(b, operand, at, line, out),
        Expr::Drop { operand, .. } => collect_domains(b, operand, at, line, out),
        Expr::AuditTrace(inner) => collect_domains(b, inner, at, line, out),
        _ => {
            assert(domains_view(out@) =~= start + Seq::<(Seq<char>, SymV, Domain, usize)>::empty());
        },
    }
}


pub open spec fn least_view(o: Option<(String, Vec<usize>)>) -> Option<(Seq<char>, Seq<usize>)> {
    match o {
        Some((n, d)) => Some((n@, d@)),
        None => None,
    }
}

pub open spec fn constraints_view(v: Seq<(usize, Expr, usize)>) -> Seq<(nat, ExprV, usize)> {
    v.map_values(|c: (usize, Expr, usize)| (c.0 as nat, c.1@, c.2))
}

fn record_declaration(shapes: &mut ShapeTable, least: &mut Option<(String, Vec<usize>)>, name: &String, dims: &Vec<usize>)
    ensures
        (DeclV { shapes: final(shapes)@, least: least_view(*final(least)) }) == declare_named(
            DeclV { shapes: old(shapes)@, least: least_view(*old(least)) },
            name@,
            dims@,
        ),
{
    shapes.insert(name, dims.as_slice());
    let replace = match &*least {
        None => true,
        Some((k, _)) => crate::text::str_eq(name.as_str(), k.as_str()) || comes_before(name.as_str(), k.as_str()),
    };
    if replace {
        *least = Some((name.clone(), copy_dims(dims.as_slice())));
    }
}

fn add_definition(
    shapes: &mut ShapeTable,
    defs: &mut Vec<(String, Expr)>,
    looped: &mut Vec<bool>,
    def_lines: &mut Vec<usize>,
    name: String,
    src: &Expr,
    is_loop: bool,
    line: usize,
    fallback: &Vec<usize>,
)
    ensures
        final(shapes)@ == add_def(
            ScanV { shapes: old(shapes)@, defs: defs_view(old(defs)@), looped: old(looped)@, def_lines: old(def_lines)@, constraints: Seq::empty() },
            name@,
            src@,
            is_loop,
            line,
            fallback@,
        ).shapes,
        defs_view(final(defs)@) == defs_view(old(defs)@).push((name@, src@)),
        final(defs).len() == old(defs).len() + 1,
        final(looped)@ == old(looped)@.push(is_loop),
        final(def_lines)@ == old(def_lines)@.push(line),
{
    let inferred = match crate::ast::expr_shape(src, &*shapes) {
        Some(v) => v,
        None => copy_dims(fallback.as_slice()),
    };
    if !shapes.contains(&name) {
        shapes.insert(&name, inferred.as_slice());
    }
    let ghost before = defs_view(defs@);
    defs.push((name, crate::ast::copy_expr(src)));
    assert(defs_view(defs@) =~= before.push((name@, src@)));
    looped.push(is_loop);
    def_lines.push(line);
}

/// A constraint as flow `at` sees it, over expanded values.
pub open spec fn obligation_at(fl: FlowsV, at: usize, e: ExprV, line: usize, folds: usize) -> (ObligationV, usize) {
    obligation_of(fl, (at as nat, e, line), folds)
}

fn lift_constraint(b: &mut Builder, at: usize, e: &Expr, line: usize) -> (r: Obligation)
    requires
        old(b).defs.len() == old(b).looped.len(),
    ensures
        final(b).flows() == old(b).flows(),
        final(b).defs.len() == final(b).looped.len(),
        (obligation_view(r), final(b).folds) == obligation_at(old(b).flows(), at, e@, line, old(b).folds),
{
    let source = crate::symbolic::expr_glyphs(e);
    match e {
        Expr::BinaryOp { op, lhs, rhs } => match Cmp::from_op(op) {
            Some(relation) => {
                let l = b.build(lhs, at, 0);
                let r = b.build(rhs, at, 0);
                Obligation { source, cmp: relation, lhs: l, rhs: r, line }
            },
            None => {
                let l = b.build(e, at, 0);
                Obligation { source, cmp: Cmp::Eq, lhs: l, rhs: zero_sym(), line }
            },
        },
        _ => {
            let l = b.build(e, at, 0);
            Obligation { source, cmp: Cmp::Eq, lhs: l, rhs: zero_sym(), line }
        },
    }
}

/// The declared shapes, and the shape of a space that has none.
fn declarations(block: &ToposBlock) -> (r: (ShapeTable, Vec<usize>))
    ensures
        r.0@ == decls_upto(statements_view(block.statements@), block.statements.len() as int).shapes,
        r.1@ == fallback_of(decls_upto(statements_view(block.statements@), block.statements.len() as int)),
{
    let ghost sv = statements_view(block.statements@);
    let mut shapes = ShapeTable::new();
    let mut least: Option<(String, Vec<usize>)> = None;
    let mut k: usize = 0;
    while k < block.statements.len()
        invariant
            k <= block.statements.len(),
            sv == statements_view(block.statements@),
            (DeclV { shapes: shapes@, least: least_view(least) }) == decls_upto(sv, k as int),
        decreases block.statements.len() - k,
    {
        assert(sv[k as int] == block.statements@[k as int]@);
        match &block.statements[k] {
            Statement::SpaceDef(d) => record_declaration(&mut shapes, &mut least, &d.name, &d.dimensions),
            Statement::ExtBind(b) => record_declaration(&mut shapes, &mut least, &b.space.name, &b.space.dimensions),
            _ => {},
        }
        k = k + 1;
    }
    let input = String::from_str("INPUT");
    let fallback: Vec<usize> = match shapes.get(&input) {
        Some(v) => v,
        None => match &least {
            Some((_, v)) => copy_dims(v.as_slice()),
            None => {
                let mut v: Vec<usize> = Vec::new();
                v.push(4);
                assert(v@ =~= seq![4usize]);
                v
            },
        },
    };
    (shapes, fallback)
}

/// The flows and constraints in order, each flow's target given a shape.
fn scan_flows(block: &ToposBlock, shapes: ShapeTable, fallback: Vec<usize>) -> (r: (Builder, Vec<usize>, Vec<(usize, Expr, usize)>))
    ensures
        ({
            let scan = scan_upto(
                statements_view(block.statements@),
                block.lines@,
                block.statements.len() as int,
                ScanV { shapes: shapes@, defs: Seq::empty(), looped: Seq::empty(), def_lines: Seq::empty(), constraints: Seq::empty() },
                fallback@,
            );
            &&& r.0.flows() == (FlowsV { defs: scan.defs, looped: scan.looped, shapes: scan.shapes, fallback: fallback@ })
            &&& r.0.folds == 0
            &&& r.0.defs.len() == r.0.looped.len()
            &&& r.1@ == scan.def_lines
            &&& r.1.len() == r.0.defs.len()
            &&& constraints_view(r.2@) == scan.constraints
        }),
{
    let ghost sv = statements_view(block.statements@);
    let ghost start = ScanV {
        shapes: shapes@,
        defs: Seq::empty(),
        looped: Seq::empty(),
        def_lines: Seq::empty(),
        constraints: Seq::empty(),
    };
    let mut shapes = shapes;
    let mut defs: Vec<(String, Expr)> = Vec::new();
    let mut looped: Vec<bool> = Vec::new();
    let mut def_lines: Vec<usize> = Vec::new();
    let mut constraints: Vec<(usize, Expr, usize)> = Vec::new();
    assert(defs_view(defs@) =~= Seq::<(Seq<char>, ExprV)>::empty());
    assert(constraints_view(constraints@) =~= Seq::<(nat, ExprV, usize)>::empty());
    let mut k: usize = 0;
    while k < block.statements.len()
        invariant
            k <= block.statements.len(),
            sv == statements_view(block.statements@),
            looped.len() == defs.len(),
            def_lines.len() == defs.len(),
            (ScanV {
                shapes: shapes@,
                defs: defs_view(defs@),
                looped: looped@,
                def_lines: def_lines@,
                constraints: constraints_view(constraints@),
            }) == scan_upto(sv, block.lines@, k as int, start, fallback@),
        decreases block.statements.len() - k,
    {
        assert(sv[k as int] == block.statements@[k as int]@);
        let line = block.line_of(k);
        match &block.statements[k] {
            Statement::Flow { src, target } => {
                let name = match target {
                    FlowTarget::Var(n) => n.clone(),
                    FlowTarget::Equilibrium => String::from_str("OUTPUT"),
                };
                add_definition(&mut shapes, &mut defs, &mut looped, &mut def_lines, name, src, false, line, &fallback);
            },
            Statement::Iterate { src, target } => {
                add_definition(&mut shapes, &mut defs, &mut looped, &mut def_lines, target.clone(), src, true, line, &fallback);
            },
            Statement::Constraint(e) => {
                let ghost before = constraints_view(constraints@);
                constraints.push((defs.len(), crate::ast::copy_expr(e), line));
                assert(constraints_view(constraints@) =~= before.push((defs.len() as nat, e@, line)));
            },
            _ => {},
        }
        k = k + 1;
    }
    (Builder { defs, looped, shapes, fallback, folds: 0 }, def_lines, constraints)
}

/// The divisions and domains of every flow, in order.
fn collect_all(builder: &mut Builder, def_lines: &Vec<usize>) -> (r: (Vec<(String, Sym, usize)>, Vec<(String, Sym, Domain, usize)>))
    requires
        old(builder).defs.len() == old(builder).looped.len(),
        def_lines.len() == old(builder).defs.len(),
    ensures
        final(builder).flows() == old(builder).flows(),
        final(builder).defs.len() == final(builder).looped.len(),
        (divisions_view(r.0@), domains_view(r.1@), final(builder).folds) == collected_upto(
            old(builder).flows(),
            def_lines@,
            old(builder).defs.len() as int,
            old(builder).folds,
        ),
{
    let ghost fl = builder.flows();
    let ghost folds0 = builder.folds;
    let mut divisions: Vec<(String, Sym, usize)> = Vec::new();
    let mut domains: Vec<(String, Sym, Domain, usize)> = Vec::new();
    assert(divisions_view(divisions@) =~= Seq::<(Seq<char>, SymV, usize)>::empty());
    assert(domains_view(domains@) =~= Seq::<(Seq<char>, SymV, Domain, usize)>::empty());
    let mut idx: usize = 0;
    while idx < builder.defs.len()
        invariant
            idx <= builder.defs.len(),
            builder.flows() == fl,
            builder.defs.len() == builder.looped.len(),
            def_lines.len() == builder.defs.len(),
            (divisions_view(divisions@), domains_view(domains@), builder.folds) == collected_upto(fl, def_lines@, idx as int, folds0),
        decreases builder.defs.len() - idx,
    {
        let e = crate::ast::copy_expr(&builder.defs[idx].1);
        assert(fl.defs[idx as int] == (builder.defs@[idx as int].0@, builder.defs@[idx as int].1@));
        collect_divisions(builder, &e, idx, def_lines[idx], &mut divisions);
        collect_domains(builder, &e, idx, def_lines[idx], &mut domains);
        idx = idx + 1;
    }
    (divisions, domains)
}

/// Every constraint over expanded values, in order.
fn lift_all(builder: &mut Builder, constraints: &Vec<(usize, Expr, usize)>) -> (r: Vec<Obligation>)
    requires
        old(builder).defs.len() == old(builder).looped.len(),
    ensures
        final(builder).flows() == old(builder).flows(),
        final(builder).defs.len() == final(builder).looped.len(),
        (r@.map_values(|o: Obligation| obligation_view(o)), final(builder).folds) == obligations_upto(
            old(builder).flows(),
            constraints_view(constraints@),
            constraints.len() as int,
            old(builder).folds,
        ),
{
    let ghost fl = builder.flows();
    let ghost folds0 = builder.folds;
    let mut obligations: Vec<Obligation> = Vec::new();
    assert(obligations@.map_values(|o: Obligation| obligation_view(o)) =~= Seq::<ObligationV>::empty());
    let ghost cv = constraints_view(constraints@);
    let mut q: usize = 0;
    while q < constraints.len()
        invariant
            q <= constraints.len(),
            cv == constraints_view(constraints@),
            builder.flows() == fl,
            builder.defs.len() == builder.looped.len(),
            (obligations@.map_values(|o: Obligation| obligation_view(o)), builder.folds) == obligations_upto(fl, cv, q as int, folds0),
        decreases constraints.len() - q,
    {
        let at = constraints[q].0;
        let e = &constraints[q].1;
        let line = constraints[q].2;
        assert(cv[q as int] == (at as nat, e@, line));
        let ob = lift_constraint(builder, at, e, line);
        let ghost before = obligations@.map_values(|o: Obligation| obligation_view(o));
        obligations.push(ob);
        assert(obligations@.map_values(|o: Obligation| obligation_view(o)) =~= before.push(obligation_view(ob)));
        q = q + 1;
    }
    obligations
}

/// Expands every constraint, every division and every argument of `log`
/// and `sqrt`, and the value of the last flow.
pub fn expand(block: &ToposBlock) -> (r: Expansion)
    ensures
        expansion_view(r) == expand_spec(statements_view(block.statements@), block.lines@),
{
    let (shapes, fallback) = declarations(block);
    let (mut builder, def_lines, constraints) = scan_flows(block, shapes, fallback);
    let (divisions, domains) = collect_all(&mut builder, &def_lines);
    let obligations = lift_all(&mut builder, &constraints);
    let output = if builder.defs.len() > 0 {
        let last = builder.defs.len() - 1;
        let e = crate::ast::copy_expr(&builder.defs[last].1);
        assert(builder.flows().defs.last() == (builder.defs@[last as int].0@, builder.defs@[last as int].1@));
        Some(builder.build(&e, last, 0))
    } else {
        None
    };
    Expansion { obligations, divisions, domains, output }
}

} // verus!
