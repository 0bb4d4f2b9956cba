//! A program as a circuit: SystemVerilog for a streaming pipeline that takes
//! one cell per clock, in row-major order, and gives one cell per clock back.
//!
//! Each flow becomes a stage: its sources pass through delay lines long
//! enough to hold the furthest neighbour on either side, the stage reads the
//! taps, and the target is one more register. A shift along the innermost
//! axis is a tap one cell away; along an outer axis it is a tap one line
//! away. Boundary cells read zero, decided by the cell's coordinates, which a
//! counter carries along.
//!
//! The cells are SystemVerilog `real`. A literal is written by its IEEE
//! bits, which the caller supplies for each literal text (with the bits of
//! the threshold 𝜏): reading a decimal into a double is the caller's part.

use vstd::prelude::*;
use crate::ast::{
    axis_geometry, expr_view, default_axis, default_axis_of, expr_shape, fits, geometry_of, line_at, shape_of_expr, whole_exponent,
    whole_exponent_of, BinaryOpKind, BuiltinOp, Expr, ExprV, FlowTarget, ShapeTable, ShiftDir, Statement, StatementV,
    TargetV, ToposBlock,
};
use crate::circuit::{ident, ident_char, unsupported, Circuit};
use crate::error::{disruption_view, DisruptionV, HarmonyDisruption};
use crate::text::{before, name_before, chars_of, decimal, debug_dims, is_tau, is_tau_name, push_char, push_debug_dims, push_decimal, push_str};

verus! {

// ---------------------------------------------------------------- literals

/// An upper-case hexadecimal digit.
pub open spec fn hex_char(d: nat) -> char {
    if d < 10 {
        crate::text::digit_char(d)
    } else if d == 10 {
        'A'
    } else if d == 11 {
        'B'
    } else if d == 12 {
        'C'
    } else if d == 13 {
        'D'
    } else if d == 14 {
        'E'
    } else {
        'F'
    }
}

/// The last `n` hexadecimal digits of `v`, zero-padded.
pub open spec fn hex_digits(v: nat, n: nat) -> Seq<char>
    decreases n,
{
    if n == 0 {
        Seq::empty()
    } else {
        hex_digits(v / 16, (n - 1) as nat).push(hex_char(v % 16))
    }
}

pub(crate) fn hex_digit(d: u64) -> (c: char)
    requires
        d < 16,
    ensures
        c == hex_char(d as nat),
{
    if d < 10 {
        crate::text::digit(d as usize)
    } else if d == 10 {
        'A'
    } else if d == 11 {
        'B'
    } else if d == 12 {
        'C'
    } else if d == 13 {
        'D'
    } else if d == 14 {
        'E'
    } else {
        'F'
    }
}

pub(crate) fn push_hex(s: &mut String, v: u64, n: u64)
    ensures
        final(s)@ == old(s)@ + hex_digits(v as nat, n as nat),
    decreases n,
{
    if n > 0 {
        push_hex(s, v / 16, n - 1);
        push_char(s, hex_digit(v % 16));
        assert(s@ =~= old(s)@ + hex_digits(v as nat, n as nat));
    } else {
        assert(s@ =~= old(s)@ + hex_digits(v as nat, n as nat));
    }
}

/// A double as SystemVerilog `real`, by its bits: `$bitstoreal(64'h…)`
/// with sixteen upper-case hexadecimal digits.
pub open spec fn real_text(bits: u64) -> Seq<char> {
    "$bitstoreal(64'h"@ + hex_digits(bits as nat, 16) + ")"@
}

/// Appends a double written by its bits.
pub fn push_real(s: &mut String, bits: u64)
    ensures
        final(s)@ == old(s)@ + real_text(bits),
{
    push_str(s, "$bitstoreal(64'h");
    push_hex(s, bits, 16);
    push_str(s, ")");
}

/// The bits of a literal's text: the last entry for a text wins.
pub open spec fn bits_map(s: Seq<(String, u64)>) -> Map<Seq<char>, u64>
    decreases s.len(),
{
    if s.len() == 0 {
        Map::empty()
    } else {
        bits_map(s.drop_last()).insert(s.last().0@, s.last().1)
    }
}

/// The IEEE bits of each literal a program writes, by the literal's text.
pub struct NumberBits {
    entries: Vec<(String, u64)>,
}

impl View for NumberBits {
    type V = Map<Seq<char>, u64>;

    closed spec fn view(&self) -> Map<Seq<char>, u64> {
        bits_map(self.entries@)
    }
}

proof fn lemma_bits_last(s: Seq<(String, u64)>, k: int, key: Seq<char>)
    requires
        0 <= k < s.len(),
        s[k].0@ == key,
        forall|j: int| k < j < s.len() ==> s[j].0@ != key,
    ensures
        bits_map(s).contains_key(key),
        bits_map(s)[key] == s[k].1,
    decreases s.len(),
{
    if k < s.len() - 1 {
        lemma_bits_last(s.drop_last(), k, key);
    }
}

proof fn lemma_bits_absent(s: Seq<(String, u64)>, key: Seq<char>)
    requires
        forall|j: int| 0 <= j < s.len() ==> s[j].0@ != key,
    ensures
        !bits_map(s).contains_key(key),
    decreases s.len(),
{
    if s.len() > 0 {
        lemma_bits_absent(s.drop_last(), key);
    }
}

impl NumberBits {
    pub fn new() -> (r: NumberBits)
        ensures
            r@ == Map::<Seq<char>, u64>::empty(),
    {
        NumberBits { entries: Vec::new() }
    }

    /// Give the literal `text` the bits `bits`.
    pub fn insert(&mut self, text: &str, bits: u64)
        ensures
            final(self)@ == old(self)@.insert(text@, bits),
    {
        let mut key = String::new();
        push_str(&mut key, text);
        self.entries.push((key, bits));
        proof {
            assert(self.entries@.drop_last() =~= old(self).entries@);
        }
    }

    /// The bits of the literal `text`, if it has them.
    pub fn get(&self, text: &String) -> (r: Option<u64>)
        ensures
            match r {
                Some(b) => self@.contains_key(text@) && self@[text@] == b,
                None => !self@.contains_key(text@),
            },
    {
        let mut k: usize = self.entries.len();
        while k > 0
            invariant
                k <= self.entries.len(),
                forall|j: int| k <= j < self.entries.len() ==> self.entries@[j].0@ != text@,
            decreases k,
        {
            let entry = &self.entries[k - 1];
            if entry.0 == *text {
                proof {
                    lemma_bits_last(self.entries@, k - 1, text@);
                }
                return Some(entry.1);
            }
            k = k - 1;
        }
        proof {
            lemma_bits_absent(self.entries@, text@);
        }
        None
    }
}

// ---------------------------------------------------------------- names in order

/// A sorted list of distinct names with `x` added where it sorts.
pub open spec fn with_name(names: Seq<Seq<char>>, x: Seq<char>) -> Seq<Seq<char>>
    decreases names.len(),
{
    if names.len() == 0 {
        seq![x]
    } else if names[0] == x {
        names
    } else if name_before(x, names[0]) {
        seq![x] + names
    } else {
        seq![names[0]] + with_name(names.drop_first(), x)
    }
}

/// The names a list of strings holds.
pub open spec fn names_of(v: Seq<String>) -> Seq<Seq<char>> {
    v.map_values(|s: String| s@)
}

/// Adds `x` to a sorted list of distinct names, where it sorts.
pub(crate) fn add_name(names: &mut Vec<String>, x: &String)
    ensures
        names_of(final(names)@) == with_name(names_of(old(names)@), x@),
{
    let xs = chars_of(x.as_str());
    let ghost full = names_of(names@);
    let mut out: Vec<String> = Vec::new();
    let mut placed = false;
    let mut k: usize = 0;
    assert(full.skip(0) =~= full);
    assert(names_of(out@) =~= Seq::<Seq<char>>::empty());
    while k < names.len()
        invariant
            k <= names.len(),
            full == names_of(names@),
            xs@ == x@,
            !placed ==> with_name(full, x@) == names_of(out@) + with_name(full.skip(k as int), x@),
            placed ==> with_name(full, x@) == names_of(out@) + full.skip(k as int),
        decreases names.len() - k,
    {
        let n = &names[k];
        proof {
            assert(full.skip(k as int)[0] == n@);
            assert(full.skip(k as int).drop_first() =~= full.skip(k + 1));
        }
        if !placed {
            let ns = chars_of(n.as_str());
            if *n == *x {
                placed = true;
                out.push(n.clone());
                proof {
                    assert(names_of(out@) =~= names_of(out@.drop_last()) + seq![n@]);
                    assert(seq![n@] + full.skip(k + 1) =~= full.skip(k as int));
                }
            } else if before(xs.as_slice(), ns.as_slice()) {
                placed = true;
                out.push(x.clone());
                out.push(n.clone());
                proof {
                    assert(names_of(out@) =~= names_of(out@.drop_last().drop_last()) + seq![x@] + seq![n@]);
                    assert(seq![x@] + full.skip(k as int) =~= seq![x@] + (seq![n@] + full.skip(k + 1)));
                }
            } else {
                out.push(n.clone());
                proof {
                    assert(names_of(out@) =~= names_of(out@.drop_last()) + seq![n@]);
                }
            }
        } else {
            out.push(n.clone());
            proof {
                assert(names_of(out@) =~= names_of(out@.drop_last()) + seq![n@]);
            }
        }
        k = k + 1;
    }
    proof {
        assert(full.skip(k as int) =~= Seq::<Seq<char>>::empty());
    }
    if !placed {
        out.push(x.clone());
        proof {
            assert(names_of(out@) =~= names_of(out@.drop_last()) + seq![x@]);
        }
    }
    *names = out;
}

// ---------------------------------------------------------------- what a flow reads

/// A construct the SystemVerilog subset lacks, as a diagnostic.
pub open spec fn lacking(what: Seq<char>, line: usize) -> DisruptionV {
    DisruptionV::LoweringErr { detail: what + " is not yet in the SystemVerilog subset (--emit-sv)"@, line }
}

/// The spaces an expression reads, added to `names` in order, and the
/// furthest a shift reaches along the buffer, at least `reach`: the delay
/// lines have to hold that much either side. A shape whose cells do not fit
/// a machine word cannot be laid out in cells.
pub open spec fn walk_sources(
    e: ExprV,
    shapes: Map<Seq<char>, Seq<usize>>,
    line: usize,
    names: Seq<Seq<char>>,
    reach: usize,
) -> Result<(Seq<Seq<char>>, usize), DisruptionV>
    decreases e,
{
    match e {
        ExprV::Number(_) => Ok((names, reach)),
        ExprV::Var(n) => if is_tau_name(n) {
            Ok((names, reach))
        } else {
            Ok((with_name(names, n), reach))
        },
        ExprV::AuditTrace(inner) => walk_sources(*inner, shapes, line, names, reach),
        ExprV::Builtin { operand, .. } => walk_sources(*operand, shapes, line, names, reach),
        ExprV::BinaryOp { lhs, rhs, .. } => match walk_sources(*lhs, shapes, line, names, reach) {
            Ok((n2, r2)) => walk_sources(*rhs, shapes, line, n2, r2),
            Err(d) => Err(d),
        },
        ExprV::Shift { axis, operand, .. } => match *operand {
            ExprV::Var(name) => if !shapes.contains_key(name) {
                Err(lacking("the shape of `"@ + name + "`"@, line))
            } else if !fits(shapes[name]) {
                Err(lacking("a shape whose cells overflow a machine word"@, line))
            } else {
                match geometry_of(shapes[name], axis) {
                    None => Err(lacking("an axis past the shape"@, line)),
                    Some((stride, extent)) => Ok(
                        (with_name(names, name), if extent > 1 && stride > reach { stride } else { reach }),
                    ),
                }
            },
            _ => Err(lacking("a shift of a computed value"@, line)),
        },
        ExprV::Index { operand, .. } => match *operand {
            ExprV::Var(_) => Ok((names, reach)),
            _ => Err(lacking("`⍳` of a computed value"@, line)),
        },
        ExprV::Reduce { .. } => Err(lacking("a fold or scan"@, line)),
        ExprV::Scan { .. } => Err(lacking("a fold or scan"@, line)),
        ExprV::Lift { .. } => Err(lacking("a lift (`□`)"@, line)),
        ExprV::Rotate { .. } => Err(lacking("a rotation or reversal"@, line)),
        ExprV::Reverse { .. } => Err(lacking("a rotation or reversal"@, line)),
        ExprV::Reshape { .. } => Err(lacking("a reshape or transpose"@, line)),
        ExprV::Transpose { .. } => Err(lacking("a reshape or transpose"@, line)),
        ExprV::Take { .. } => Err(lacking("a take or drop"@, line)),
        ExprV::Drop { .. } => Err(lacking("a take or drop"@, line)),
        ExprV::Call { name, .. } => Err(lacking("the call to `"@ + name + "`, which was not expanded"@, line)),
    }
}

/// The spaces an expression reads, sorted and each once, and the furthest
/// reach of its shifts.
pub open spec fn sources_of(e: ExprV, shapes: Map<Seq<char>, Seq<usize>>, line: usize) -> Result<
    (Seq<Seq<char>>, usize),
    DisruptionV,
> {
    walk_sources(e, shapes, line, Seq::empty(), 0)
}

fn lacking_named(before: &str, name: &String, after: &str, line: usize) -> (r: HarmonyDisruption)
    ensures
        disruption_view(r) == lacking(before@ + name@ + after@, line),
{
    let mut m = String::new();
    push_str(&mut m, before);
    push_str(&mut m, name.as_str());
    push_str(&mut m, after);
    unsupported(m.as_str(), line)
}

fn walk(e: &Expr, shapes: &ShapeTable, line: usize, names: &mut Vec<String>, reach: &mut usize) -> (r: Result<
    (),
    HarmonyDisruption,
>)
    ensures
        match r {
            Ok(()) => walk_sources(e@, shapes@, line, names_of(old(names)@), *old(reach)) == Ok::<
                (Seq<Seq<char>>, usize),
                DisruptionV,
            >((names_of(final(names)@), *final(reach))),
            Err(d) => walk_sources(e@, shapes@, line, names_of(old(names)@), *old(reach)) == Err::<
                (Seq<Seq<char>>, usize),
                DisruptionV,
            >(disruption_view(d)),
        },
    decreases e,
{
    match e {
        Expr::Number(_) => {
            assert(walk_sources(e@, shapes@, line, names_of(old(names)@), *old(reach)) == Ok::<(Seq<Seq<char>>, usize), DisruptionV>((names_of(names@), *reach)));
            Ok(())
        },
        Expr::Var(n) => {
            let cs = chars_of(n.as_str());
            if !is_tau(cs.as_slice()) {
                add_name(names, n);
            }
            assert(walk_sources(e@, shapes@, line, names_of(old(names)@), *old(reach)) == Ok::<(Seq<Seq<char>>, usize), DisruptionV>((names_of(names@), *reach)));
            Ok(())
        },
        Expr::AuditTrace(inner) => {
            let r = walk(inner, shapes, line, names, reach);
            assert(r is Ok ==> walk_sources(e@, shapes@, line, names_of(old(names)@), *old(reach)) == Ok::<(Seq<Seq<char>>, usize), DisruptionV>((names_of(names@), *reach)));
            r
        },
        Expr::Builtin { operand, .. } => {
            let r = walk(operand, shapes, line, names, reach);
            assert(r is Ok ==> walk_sources(e@, shapes@, line, names_of(old(names)@), *old(reach)) == Ok::<(Seq<Seq<char>>, usize), DisruptionV>((names_of(names@), *reach)));
            r
        },
        Expr::BinaryOp { lhs, rhs, .. } => {
            match walk(lhs, shapes, line, names, reach) {
                Ok(()) => {
                    let r = walk(rhs, shapes, line, names, reach);
                    assert(r is Ok ==> walk_sources(e@, shapes@, line, names_of(old(names)@), *old(reach)) == Ok::<(Seq<Seq<char>>, usize), DisruptionV>((names_of(names@), *reach)));
                    r
                },
                Err(d) => Err(d),
            }
        },
        Expr::Shift { axis, operand, .. } => {
            match &**operand {
                Expr::Var(name) => {
                    match shapes.get(name) {
                        None => Err(lacking_named("the shape of `", name, "`", line)),
                        Some(shape) => {
                            if !crate::expansion::shape_fits(shape.as_slice()) {
                                Err(unsupported("a shape whose cells overflow a machine word", line))
                            } else {
                                match axis_geometry(shape.as_slice(), *axis) {
                                    None => Err(unsupported("an axis past the shape", line)),
                                    Some((stride, extent)) => {
                                        assert(shapes@.contains_key(name@));
                                        assert(fits(shapes@[name@]));
                                        assert(geometry_of(shapes@[name@], *axis) == Some((stride, extent)));
                                        assert(expr_view(**operand) == ExprV::Var(name@));
                                        add_name(names, name);
                                        if extent > 1 && stride > *reach {
                                            *reach = stride;
                                        }
                                        assert(walk_sources(e@, shapes@, line, names_of(old(names)@), *old(reach)) == Ok::<(Seq<Seq<char>>, usize), DisruptionV>((names_of(names@), *reach)));
                                        Ok(())
                                    },
                                }
                            }
                        },
                    }
                },
                _ => Err(unsupported("a shift of a computed value", line)),
            }
        },
        Expr::Index { operand, .. } => {
            match &**operand {
                Expr::Var(v) => {
                    assert(expr_view(**operand) == ExprV::Var(v@));
                    assert(walk_sources(e@, shapes@, line, names_of(old(names)@), *old(reach)) == Ok::<(Seq<Seq<char>>, usize), DisruptionV>((names_of(names@), *reach)));
                    Ok(())
                },
                _ => Err(unsupported("`⍳` of a computed value", line)),
            }
        },
        Expr::Reduce { .. } => Err(unsupported("a fold or scan", line)),
        Expr::Scan { .. } => Err(unsupported("a fold or scan", line)),
        Expr::Lift { .. } => Err(unsupported("a lift (`□`)", line)),
        Expr::Rotate { .. } => Err(unsupported("a rotation or reversal", line)),
        Expr::Reverse { .. } => Err(unsupported("a rotation or reversal", line)),
        Expr::Reshape { .. } => Err(unsupported("a reshape or transpose", line)),
        Expr::Transpose { .. } => Err(unsupported("a reshape or transpose", line)),
        Expr::Take { .. } => Err(unsupported("a take or drop", line)),
        Expr::Drop { .. } => Err(unsupported("a take or drop", line)),
        Expr::Call { name, .. } => Err(lacking_named("the call to `", name, "`, which was not expanded", line)),
    }
}

/// The spaces an expression reads, sorted and each once, and the furthest
/// a shift in it reaches along the buffer.
pub fn sources(e: &Expr, shapes: &ShapeTable, line: usize) -> (r: Result<(Vec<String>, usize), HarmonyDisruption>)
    ensures
        match r {
            Ok((names, reach)) => sources_of(e@, shapes@, line) == Ok::<(Seq<Seq<char>>, usize), DisruptionV>(
                (names_of(names@), reach),
            ),
            Err(d) => sources_of(e@, shapes@, line) == Err::<(Seq<Seq<char>>, usize), DisruptionV>(
                disruption_view(d),
            ),
        },
{
    let mut names: Vec<String> = Vec::new();
    let mut reach: usize = 0;
    assert(names_of(names@) =~= Seq::<Seq<char>>::empty());
    match walk(e, shapes, line, &mut names, &mut reach) {
        Ok(()) => Ok((names, reach)),
        Err(d) => Err(d),
    }
}

// ---------------------------------------------------------------- one stage's expression

/// A name as a SystemVerilog identifier.
pub open spec fn ident_of(n: Seq<char>) -> Seq<char> {
    n.map_values(|c: char| ident_char(c))
}

/// A source's delay line for one stage: the signal it is fed from, how many
/// cells it holds, and the tap the stage's own cell is on.
pub struct Chain {
    pub source: String,
    pub signal: String,
    pub length: usize,
    pub centre: usize,
}

pub open spec fn chain_view(c: Chain) -> (Seq<char>, Seq<char>, usize, usize) {
    (c.source@, c.signal@, c.length, c.centre)
}

pub open spec fn chains_view(v: Seq<Chain>) -> Seq<(Seq<char>, Seq<char>, usize, usize)> {
    v.map_values(|c: Chain| chain_view(c))
}

/// The centre tap of `name`'s delay line: the first line for it, 0 when it
/// has none.
pub open spec fn chain_centre(ch: Seq<(Seq<char>, Seq<char>, usize, usize)>, name: Seq<char>) -> usize
    decreases ch.len(),
{
    if ch.len() == 0 {
        0
    } else if ch[0].0 == name {
        ch[0].3
    } else {
        chain_centre(ch.drop_first(), name)
    }
}

fn find_centre(chains: &Vec<Chain>, name: &String) -> (r: usize)
    ensures
        r == chain_centre(chains_view(chains@), name@),
{
    let ghost all = chains_view(chains@);
    let mut i: usize = 0;
    assert(all.skip(0) =~= all);
    while i < chains.len()
        invariant
            i <= chains.len(),
            all == chains_view(chains@),
            chain_centre(all, name@) == chain_centre(all.skip(i as int), name@),
        decreases chains.len() - i,
    {
        assert(all.skip(i as int)[0] == chain_view(chains@[i as int]));
        assert(all.skip(i as int).drop_first() =~= all.skip(i + 1));
        if chains[i].source == *name {
            return chains[i].centre;
        }
        i = i + 1;
    }
    assert(all.skip(i as int).len() == 0);
    0
}

/// A literal with no bits given: the caller reads each literal's decimal.
pub open spec fn unvalued(text: Seq<char>, line: usize) -> DisruptionV {
    DisruptionV::LoweringErr { detail: "no bits were given for the literal `"@ + text + "`"@, line }
}

/// The bits of 1.0.
pub open spec fn one_bits() -> u64 {
    0x3FF0000000000000u64
}

/// `x ^ n` for a whole `n` by repeated products: `steps` factors of `l`,
/// starting from one.
pub open spec fn pow_chain(l: Seq<char>, steps: nat) -> Seq<char>
    decreases steps,
{
    if steps == 0 {
        real_text(one_bits())
    } else {
        "("@ + pow_chain(l, (steps - 1) as nat) + " * "@ + l + ")"@
    }
}

/// A named function applied to a lowered operand.
pub open spec fn builtin_sv(op: BuiltinOp, x: Seq<char>) -> Seq<char> {
    match op {
        BuiltinOp::Exp => "$exp("@ + x + ")"@,
        BuiltinOp::Log => "$ln("@ + x + ")"@,
        BuiltinOp::Sqrt => "$sqrt("@ + x + ")"@,
        BuiltinOp::Sin => "$sin("@ + x + ")"@,
        BuiltinOp::Cos => "$cos("@ + x + ")"@,
        BuiltinOp::Abs => "rho_abs("@ + x + ")"@,
        BuiltinOp::Indicator => "rho_ind("@ + x + ")"@,
        BuiltinOp::Roll => "rho_roll("@ + x + ")"@,
        BuiltinOp::Floor => "$floor("@ + x + ")"@,
        BuiltinOp::Ceil => "$ceil("@ + x + ")"@,
    }
}

/// A binary operation over lowered operands; a power with a whole exponent
/// written out is repeated products, as the kernel and the interpreter do it.
pub open spec fn binary_sv(op: BinaryOpKind, l: Seq<char>, r: Seq<char>, rhs: ExprV) -> Seq<char> {
    match op {
        BinaryOpKind::Add => "("@ + l + " + "@ + r + ")"@,
        BinaryOpKind::Sub => "("@ + l + " - "@ + r + ")"@,
        BinaryOpKind::Mul => "("@ + l + " * "@ + r + ")"@,
        BinaryOpKind::Div => "("@ + l + " / "@ + r + ")"@,
        BinaryOpKind::Pow => match whole_exponent_of(rhs) {
            Some(n) => if n < 0 {
                "("@ + real_text(one_bits()) + " / "@ + pow_chain(l, (-n) as nat) + ")"@
            } else {
                pow_chain(l, n as nat)
            },
            None => "$pow("@ + l + ", "@ + r + ")"@,
        },
        BinaryOpKind::Gt => "rho_mask("@ + l + " > "@ + r + ", "@ + l + ")"@,
        BinaryOpKind::Lt => "rho_mask("@ + l + " < "@ + r + ", "@ + l + ")"@,
        BinaryOpKind::Gte => "rho_mask("@ + l + " >= "@ + r + ", "@ + l + ")"@,
        BinaryOpKind::Lte => "rho_mask("@ + l + " <= "@ + r + ", "@ + l + ")"@,
        BinaryOpKind::Eq => "rho_mask("@ + l + " == "@ + r + ", "@ + l + ")"@,
        BinaryOpKind::Max => "rho_extreme("@ + l + ", "@ + r + ", 1'b1)"@,
        BinaryOpKind::Min => "rho_extreme("@ + l + ", "@ + r + ", 1'b0)"@,
        BinaryOpKind::Residue => "rho_residue("@ + l + ", "@ + r + ")"@,
    }
}

/// A shift: the tap `stride` cells along the line, or zero at the edge the
/// shift comes in from.
pub open spec fn shift_sv(
    dir: ShiftDir,
    axis: Option<usize>,
    name: Seq<char>,
    shape: Seq<usize>,
    chains: Seq<(Seq<char>, Seq<char>, usize, usize)>,
    stage: usize,
    line: usize,
) -> Result<Seq<char>, DisruptionV> {
    match geometry_of(shape, axis) {
        None => Err(lacking("an axis past the shape"@, line)),
        Some((stride, extent)) => if extent <= 1 {
            Ok(real_text(0))
        } else {
            let a = match axis {
                Some(a) => a as int,
                None => default_axis_of(shape),
            };
            let centre = chain_centre(chains, name);
            let tap: int = match dir {
                ShiftDir::Positive => centre + stride,
                ShiftDir::Negative => centre - stride,
            };
            let edge: int = match dir {
                ShiftDir::Positive => 0,
                ShiftDir::Negative => extent - 1,
            };
            if tap < 0 || tap > usize::MAX {
                Err(lacking("a tap outside its delay line"@, line))
            } else {
                Ok(
                    "((pos["@ + decimal(a as nat) + "] == "@ + decimal(edge as nat) + ") ? "@ + real_text(0) + " : c"@
                        + decimal(stage as nat) + "_"@ + ident_of(name) + "["@ + decimal(tap as nat) + "])"@,
                )
            }
        },
    }
}

/// One stage's expression as SystemVerilog `real`, over its delay lines:
/// a space is its centre tap, a literal and 𝜏 are written by their bits.
pub open spec fn lower_expr(
    e: ExprV,
    shapes: Map<Seq<char>, Seq<usize>>,
    chains: Seq<(Seq<char>, Seq<char>, usize, usize)>,
    stage: usize,
    tau: u64,
    numbers: Map<Seq<char>, u64>,
    line: usize,
) -> Result<Seq<char>, DisruptionV>
    decreases e,
{
    match e {
        ExprV::Number(t) => if numbers.contains_key(t) {
            Ok(real_text(numbers[t]))
        } else {
            Err(unvalued(t, line))
        },
        ExprV::Var(n) => if is_tau_name(n) {
            Ok(real_text(tau))
        } else {
            Ok("c"@ + decimal(stage as nat) + "_"@ + ident_of(n) + "["@ + decimal(chain_centre(chains, n) as nat) + "]"@)
        },
        ExprV::AuditTrace(inner) => lower_expr(*inner, shapes, chains, stage, tau, numbers, line),
        ExprV::Shift { dir, axis, operand } => match *operand {
            ExprV::Var(name) => if !shapes.contains_key(name) {
                Err(lacking("the shape of `"@ + name + "`"@, line))
            } else if !fits(shapes[name]) {
                Err(lacking("a shape whose cells overflow a machine word"@, line))
            } else {
                shift_sv(dir, axis, name, shapes[name], chains, stage, line)
            },
            _ => Err(lacking("a shift of a computed value"@, line)),
        },
        ExprV::Index { axis, operand } => match *operand {
            ExprV::Var(name) => if !shapes.contains_key(name) {
                Err(lacking("the shape of `"@ + name + "`"@, line))
            } else {
                let a = match axis {
                    Some(a) => a as int,
                    None => default_axis_of(shapes[name]),
                };
                Ok("real'(pos["@ + decimal(a as nat) + "])"@)
            },
            _ => Err(lacking("`⍳` of a computed value"@, line)),
        },
        ExprV::Builtin { op, operand } => match lower_expr(*operand, shapes, chains, stage, tau, numbers, line) {
            Ok(x) => Ok(builtin_sv(op, x)),
            Err(d) => Err(d),
        },
        ExprV::BinaryOp { op, lhs, rhs } => match lower_expr(*lhs, shapes, chains, stage, tau, numbers, line) {
            Ok(l) => match lower_expr(*rhs, shapes, chains, stage, tau, numbers, line) {
                Ok(r) => Ok(binary_sv(op, l, r, *rhs)),
                Err(d) => Err(d),
            },
            Err(d) => Err(d),
        },
        _ => match sources_of(e, shapes, line) {
            Ok(_) => Err(lacking("this expression"@, line)),
            Err(d) => Err(d),
        },
    }
}

fn push_ident(s: &mut String, name: &String)
    ensures
        final(s)@ == old(s)@ + ident_of(name@),
{
    let t = ident(name.as_str());
    assert(t@ =~= ident_of(name@));
    push_str(s, t.as_str());
}

fn builtin_text(op: BuiltinOp, x: &String) -> (r: String)
    ensures
        r@ == builtin_sv(op, x@),
{
    let mut t = String::new();
    match op {
        BuiltinOp::Exp => push_str(&mut t, "$exp("),
        BuiltinOp::Log => push_str(&mut t, "$ln("),
        BuiltinOp::Sqrt => push_str(&mut t, "$sqrt("),
        BuiltinOp::Sin => push_str(&mut t, "$sin("),
        BuiltinOp::Cos => push_str(&mut t, "$cos("),
        BuiltinOp::Abs => push_str(&mut t, "rho_abs("),
        BuiltinOp::Indicator => push_str(&mut t, "rho_ind("),
        BuiltinOp::Roll => push_str(&mut t, "rho_roll("),
        BuiltinOp::Floor => push_str(&mut t, "$floor("),
        BuiltinOp::Ceil => push_str(&mut t, "$ceil("),
    }
    push_str(&mut t, x.as_str());
    push_str(&mut t, ")");
    t
}

fn pow_text(l: &String, steps: u32) -> (r: String)
    ensures
        r@ == pow_chain(l@, steps as nat),
{
    let mut acc = String::new();
    push_real(&mut acc, 0x3FF0000000000000u64);
    let mut k: u32 = 0;
    assert(acc@ =~= pow_chain(l@, 0));
    while k < steps
        invariant
            k <= steps,
            acc@ == pow_chain(l@, k as nat),
        decreases steps - k,
    {
        let mut next = String::new();
        push_str(&mut next, "(");
        push_str(&mut next, acc.as_str());
        push_str(&mut next, " * ");
        push_str(&mut next, l.as_str());
        push_str(&mut next, ")");
        acc = next;
        k = k + 1;
    }
    acc
}

/// `(l OP r)`, `rho_mask(l OP r, l)` and the like: the operator between its
/// operands, inside a call or brackets.
fn wrap3(open: &str, l: &String, mid: &str, r: &String, close: &str) -> (t: String)
    ensures
        t@ == open@ + l@ + mid@ + r@ + close@,
{
    let mut t = String::new();
    push_str(&mut t, open);
    push_str(&mut t, l.as_str());
    push_str(&mut t, mid);
    push_str(&mut t, r.as_str());
    push_str(&mut t, close);
    t
}

fn mask_text(l: &String, cmp: &str, r: &String) -> (t: String)
    ensures
        t@ == "rho_mask("@ + l@ + cmp@ + r@ + ", "@ + l@ + ")"@,
{
    let mut t = String::new();
    push_str(&mut t, "rho_mask(");
    push_str(&mut t, l.as_str());
    push_str(&mut t, cmp);
    push_str(&mut t, r.as_str());
    push_str(&mut t, ", ");
    push_str(&mut t, l.as_str());
    push_str(&mut t, ")");
    t
}

fn binary_text(op: BinaryOpKind, l: &String, r: &String, rhs: &Expr) -> (t: String)
    ensures
        t@ == binary_sv(op, l@, r@, rhs@),
{
    match op {
        BinaryOpKind::Add => wrap3("(", l, " + ", r, ")"),
        BinaryOpKind::Sub => wrap3("(", l, " - ", r, ")"),
        BinaryOpKind::Mul => wrap3("(", l, " * ", r, ")"),
        BinaryOpKind::Div => wrap3("(", l, " / ", r, ")"),
        BinaryOpKind::Pow => match whole_exponent(rhs) {
            Some(n) => {
                if n < 0 {
                    let acc = pow_text(l, (-n) as u32);
                    let mut t = String::new();
                    push_str(&mut t, "(");
                    push_real(&mut t, 0x3FF0000000000000u64);
                    push_str(&mut t, " / ");
                    push_str(&mut t, acc.as_str());
                    push_str(&mut t, ")");
                    t
                } else {
                    pow_text(l, n as u32)
                }
            },
            None => wrap3("$pow(", l, ", ", r, ")"),
        },
        BinaryOpKind::Gt => mask_text(l, " > ", r),
        BinaryOpKind::Lt => mask_text(l, " < ", r),
        BinaryOpKind::Gte => mask_text(l, " >= ", r),
        BinaryOpKind::Lte => mask_text(l, " <= ", r),
        BinaryOpKind::Eq => mask_text(l, " == ", r),
        BinaryOpKind::Max => wrap3("rho_extreme(", l, ", ", r, ", 1'b1)"),
        BinaryOpKind::Min => wrap3("rho_extreme(", l, ", ", r, ", 1'b0)"),
        BinaryOpKind::Residue => wrap3("rho_residue(", l, ", ", r, ")"),
    }
}

fn shift_text(
    dir: ShiftDir,
    axis: Option<usize>,
    name: &String,
    shape: &Vec<usize>,
    chains: &Vec<Chain>,
    stage: usize,
    line: usize,
) -> (r: Result<String, HarmonyDisruption>)
    requires
        fits(shape@),
    ensures
        match r {
            Ok(t) => shift_sv(dir, axis, name@, shape@, chains_view(chains@), stage, line) == Ok::<Seq<char>, DisruptionV>(t@),
            Err(d) => shift_sv(dir, axis, name@, shape@, chains_view(chains@), stage, line) == Err::<Seq<char>, DisruptionV>(
                disruption_view(d),
            ),
        },
{
    match axis_geometry(shape.as_slice(), axis) {
        None => Err(unsupported("an axis past the shape", line)),
        Some((stride, extent)) => {
            if extent <= 1 {
                let mut t = String::new();
                push_real(&mut t, 0);
                return Ok(t);
            }
            let a = match axis {
                Some(a) => a,
                None => default_axis(shape.as_slice()),
            };
            let centre = find_centre(chains, name);
            let tap: usize;
            let edge: usize;
            match dir {
                ShiftDir::Positive => {
                    if centre > usize::MAX - stride {
                        return Err(unsupported("a tap outside its delay line", line));
                    }
                    tap = centre + stride;
                    edge = 0;
                },
                ShiftDir::Negative => {
                    if centre < stride {
                        return Err(unsupported("a tap outside its delay line", line));
                    }
                    tap = centre - stride;
                    edge = extent - 1;
                },
            }
            let mut t = String::new();
            push_str(&mut t, "((pos[");
            push_decimal(&mut t, a as u64);
            push_str(&mut t, "] == ");
            push_decimal(&mut t, edge as u64);
            push_str(&mut t, ") ? ");
            push_real(&mut t, 0);
            push_str(&mut t, " : c");
            push_decimal(&mut t, stage as u64);
            push_str(&mut t, "_");
            push_ident(&mut t, name);
            push_str(&mut t, "[");
            push_decimal(&mut t, tap as u64);
            push_str(&mut t, "])");
            Ok(t)
        },
    }
}

/// One stage's expression as SystemVerilog `real`.
pub fn lower(
    e: &Expr,
    shapes: &ShapeTable,
    chains: &Vec<Chain>,
    stage: usize,
    tau: u64,
    numbers: &NumberBits,
    line: usize,
) -> (r: Result<String, HarmonyDisruption>)
    ensures
        match r {
            Ok(t) => lower_expr(e@, shapes@, chains_view(chains@), stage, tau, numbers@, line) == Ok::<Seq<char>, DisruptionV>(
                t@,
            ),
            Err(d) => lower_expr(e@, shapes@, chains_view(chains@), stage, tau, numbers@, line) == Err::<
                Seq<char>,
                DisruptionV,
            >(disruption_view(d)),
        },
    decreases e,
{
    match e {
        Expr::Number(t) => match numbers.get(t) {
            Some(bits) => {
                let mut out = String::new();
                push_real(&mut out, bits);
                Ok(out)
            },
            None => {
                let mut m = String::new();
                push_str(&mut m, "no bits were given for the literal `");
                push_str(&mut m, t.as_str());
                push_str(&mut m, "`");
                Err(HarmonyDisruption::LoweringErr { detail: m, line })
            },
        },
        Expr::Var(n) => {
            let cs = chars_of(n.as_str());
            let mut out = String::new();
            if is_tau(cs.as_slice()) {
                push_real(&mut out, tau);
            } else {
                push_str(&mut out, "c");
                push_decimal(&mut out, stage as u64);
                push_str(&mut out, "_");
                push_ident(&mut out, n);
                push_str(&mut out, "[");
                push_decimal(&mut out, find_centre(chains, n) as u64);
                push_str(&mut out, "]");
            }
            Ok(out)
        },
        Expr::AuditTrace(inner) => lower(inner, shapes, chains, stage, tau, numbers, line),
        Expr::Shift { dir, axis, operand } => match &**operand {
            Expr::Var(name) => {
                assert(expr_view(**operand) == ExprV::Var(name@));
                match shapes.get(name) {
                    None => Err(lacking_named("the shape of `", name, "`", line)),
                    Some(shape) => {
                        if !crate::expansion::shape_fits(shape.as_slice()) {
                            Err(unsupported("a shape whose cells overflow a machine word", line))
                        } else {
                            shift_text(*dir, *axis, name, &shape, chains, stage, line)
                        }
                    },
                }
            },
            _ => Err(unsupported("a shift of a computed value", line)),
        },
        Expr::Index { axis, operand } => match &**operand {
            Expr::Var(name) => {
                assert(expr_view(**operand) == ExprV::Var(name@));
                match shapes.get(name) {
                    None => Err(lacking_named("the shape of `", name, "`", line)),
                    Some(shape) => {
                        let a = match axis {
                            Some(a) => *a,
                            None => default_axis(shape.as_slice()),
                        };
                        let mut out = String::new();
                        push_str(&mut out, "real'(pos[");
                        push_decimal(&mut out, a as u64);
                        push_str(&mut out, "])");
                        Ok(out)
                    },
                }
            },
            _ => Err(unsupported("`⍳` of a computed value", line)),
        },
        Expr::Builtin { op, operand } => match lower(operand, shapes, chains, stage, tau, numbers, line) {
            Ok(x) => Ok(builtin_text(*op, &x)),
            Err(d) => Err(d),
        },
        Expr::BinaryOp { op, lhs, rhs } => match lower(lhs, shapes, chains, stage, tau, numbers, line) {
            Ok(l) => match lower(rhs, shapes, chains, stage, tau, numbers, line) {
                Ok(r) => Ok(binary_text(*op, &l, &r, rhs)),
                Err(d) => Err(d),
            },
            Err(d) => Err(d),
        },
        _ => match sources(e, shapes, line) {
            Ok(_) => Err(unsupported("this expression", line)),
            Err(d) => Err(d),
        },
    }
}

// ---------------------------------------------------------------- streams and stages

/// The stream each space is on: its signal and its latency, the last entry
/// for a name winning.
pub open spec fn stream_map(s: Seq<(String, String, usize)>) -> Map<Seq<char>, (Seq<char>, usize)>
    decreases s.len(),
{
    if s.len() == 0 {
        Map::empty()
    } else {
        stream_map(s.drop_last()).insert(s.last().0@, (s.last().1@, s.last().2))
    }
}

/// The stream each space is on right now.
pub struct StreamTable {
    entries: Vec<(String, String, usize)>,
}

impl View for StreamTable {
    type V = Map<Seq<char>, (Seq<char>, usize)>;

    closed spec fn view(&self) -> Map<Seq<char>, (Seq<char>, usize)> {
        stream_map(self.entries@)
    }
}

proof fn lemma_stream_last(s: Seq<(String, String, usize)>, k: int, key: Seq<char>)
    requires
        0 <= k < s.len(),
        s[k].0@ == key,
        forall|j: int| k < j < s.len() ==> s[j].0@ != key,
    ensures
        stream_map(s).contains_key(key),
        stream_map(s)[key] == (s[k].1@, s[k].2),
    decreases s.len(),
{
    if k < s.len() - 1 {
        lemma_stream_last(s.drop_last(), k, key);
    }
}

proof fn lemma_stream_absent(s: Seq<(String, String, usize)>, key: Seq<char>)
    requires
        forall|j: int| 0 <= j < s.len() ==> s[j].0@ != key,
    ensures
        !stream_map(s).contains_key(key),
    decreases s.len(),
{
    if s.len() > 0 {
        lemma_stream_absent(s.drop_last(), key);
    }
}

impl StreamTable {
    fn new() -> (r: StreamTable)
        ensures
            r@ == Map::<Seq<char>, (Seq<char>, usize)>::empty(),
    {
        StreamTable { entries: Vec::new() }
    }

    fn insert(&mut self, name: &String, signal: String, latency: usize)
        ensures
            final(self)@ == old(self)@.insert(name@, (signal@, latency)),
    {
        self.entries.push((name.clone(), signal, latency));
        proof {
            assert(self.entries@.drop_last() =~= old(self).entries@);
        }
    }

    fn get(&self, name: &String) -> (r: Option<(String, usize)>)
        ensures
            match r {
                Some((sig, d)) => self@.contains_key(name@) && self@[name@] == (sig@, d),
                None => !self@.contains_key(name@),
            },
    {
        let mut k: usize = self.entries.len();
        while k > 0
            invariant
                k <= self.entries.len(),
                forall|j: int| k <= j < self.entries.len() ==> self.entries@[j].0@ != name@,
            decreases k,
        {
            let entry = &self.entries[k - 1];
            if entry.0 == *name {
                proof {
                    lemma_stream_last(self.entries@, k - 1, name@);
                }
                return Some((entry.1.clone(), entry.2));
            }
            k = k - 1;
        }
        proof {
            lemma_stream_absent(self.entries@, name@);
        }
        None
    }
}

/// A stage of the pipeline: the flow it computes, as a register fed by its
/// sources' delay lines.
pub struct Stage {
    /// Position in the pipeline: signal names carry it, since a space may be
    /// written by more than one flow.
    pub index: usize,
    pub target: String,
    pub shape: Vec<usize>,
    pub latency: usize,
    pub chains: Vec<Chain>,
    /// The expression, as SystemVerilog over the chains.
    pub expr: String,
}

pub struct StageV {
    pub index: usize,
    pub target: Seq<char>,
    pub shape: Seq<usize>,
    pub latency: usize,
    pub chains: Seq<(Seq<char>, Seq<char>, usize, usize)>,
    pub expr: Seq<char>,
}

pub open spec fn stage_view(s: Stage) -> StageV {
    StageV {
        index: s.index,
        target: s.target@,
        shape: s.shape@,
        latency: s.latency,
        chains: chains_view(s.chains@),
        expr: s.expr@,
    }
}

pub open spec fn stages_view(v: Seq<Stage>) -> Seq<StageV> {
    v.map_values(|s: Stage| stage_view(s))
}

/// What the flows so far have built: the shape and the stream of each
/// space, the stages, and the spaces the flows wrote, in order.
pub struct PlanV {
    pub shapes: Map<Seq<char>, Seq<usize>>,
    pub streams: Map<Seq<char>, (Seq<char>, usize)>,
    pub stages: Seq<StageV>,
    pub written: Seq<Seq<char>>,
}

/// A shape as `{:?}` writes an `Option` of it.
pub open spec fn shape_debug(o: Option<Seq<usize>>) -> Seq<char> {
    match o {
        Some(d) => "Some("@ + debug_dims(d) + ")"@,
        None => "None"@,
    }
}

/// The first source whose shape is not the flow's, or which no stream
/// carries yet.
pub open spec fn source_fault(
    srcs: Seq<Seq<char>>,
    shape: Seq<usize>,
    shapes: Map<Seq<char>, Seq<usize>>,
    streams: Map<Seq<char>, (Seq<char>, usize)>,
    line: usize,
) -> Option<DisruptionV>
    decreases srcs.len(),
{
    if srcs.len() == 0 {
        None
    } else {
        let s = srcs[0];
        if !(shapes.contains_key(s) && shapes[s] == shape) {
            Some(
                lacking(
                    "a broadcast (`"@ + s + "` is "@ + shape_debug(
                        if shapes.contains_key(s) {
                            Some(shapes[s])
                        } else {
                            None
                        },
                    ) + ", the flow "@ + debug_dims(shape) + ")"@,
                    line,
                ),
            )
        } else if !streams.contains_key(s) {
            Some(DisruptionV::SpaceErr { space_name: s, line })
        } else {
            source_fault(srcs.drop_first(), shape, shapes, streams, line)
        }
    }
}

/// The latest of the sources' streams, 1 when there are none.
pub open spec fn base_latency(srcs: Seq<Seq<char>>, streams: Map<Seq<char>, (Seq<char>, usize)>) -> int
    decreases srcs.len(),
{
    if srcs.len() == 0 {
        1
    } else if srcs.len() == 1 {
        streams[srcs[0]].1 as int
    } else {
        let rest = base_latency(srcs.drop_last(), streams);
        let d = streams[srcs.last()].1 as int;
        if d > rest {
            d
        } else {
            rest
        }
    }
}

/// Each source's delay line for a stage of latency `lat`: the centre tap is
/// where the source's cell arrives as the stage reads it.
pub open spec fn chains_for(
    srcs: Seq<Seq<char>>,
    streams: Map<Seq<char>, (Seq<char>, usize)>,
    lat: int,
    reach: usize,
) -> Seq<(Seq<char>, Seq<char>, usize, usize)>
    decreases srcs.len(),
{
    if srcs.len() == 0 {
        Seq::empty()
    } else {
        let s = srcs.last();
        let centre = lat - streams[s].1 - 2;
        chains_for(srcs.drop_last(), streams, lat, reach).push(
            (s, streams[s].0, (centre + reach + 1) as usize, centre as usize),
        )
    }
}

/// The space a flow writes: `→ =` writes OUTPUT.
pub open spec fn target_name(t: TargetV) -> Seq<char> {
    match t {
        TargetV::Var(n) => n,
        TargetV::Equilibrium => "OUTPUT"@,
    }
}

/// One flow as a stage: its sources, its shape, its latency and its
/// expression, and what the pipeline is after it.
pub open spec fn flow_step(
    src: ExprV,
    target: TargetV,
    line: usize,
    st: PlanV,
    tau: u64,
    numbers: Map<Seq<char>, u64>,
) -> Result<PlanV, DisruptionV> {
    let tname = target_name(target);
    match sources_of(src, st.shapes, line) {
        Err(d) => Err(d),
        Ok((srcs, reach)) => {
            let flow_shape = match shape_of_expr(src, st.shapes) {
                Some(sh) => Some(sh),
                None => if st.shapes.contains_key(tname) {
                    Some(st.shapes[tname])
                } else {
                    None
                },
            };
            match flow_shape {
                None => Err(lacking("a flow with no shape"@, line)),
                Some(shape) => if !fits(shape) {
                    Err(lacking("a shape whose cells overflow a machine word"@, line))
                } else {
                    match source_fault(srcs, shape, st.shapes, st.streams, line) {
                        Some(d) => Err(d),
                        None => {
                            let base = base_latency(srcs, st.streams);
                            if base + 2 * reach + 2 > usize::MAX {
                                Err(lacking("a pipeline longer than a machine word"@, line))
                            } else {
                                let lat = base + reach + 2;
                                let k = st.stages.len();
                                let chains = chains_for(srcs, st.streams, lat, reach);
                                match lower_expr(src, st.shapes, chains, k as usize, tau, numbers, line) {
                                    Err(d) => Err(d),
                                    Ok(expr) => Ok(
                                        PlanV {
                                            shapes: st.shapes.insert(tname, shape),
                                            streams: st.streams.insert(
                                                tname,
                                                ("st"@ + decimal(k) + "_"@ + ident_of(tname), lat as usize),
                                            ),
                                            stages: st.stages.push(
                                                StageV {
                                                    index: k as usize,
                                                    target: tname,
                                                    shape,
                                                    latency: lat as usize,
                                                    chains,
                                                    expr,
                                                },
                                            ),
                                            written: st.written.push(tname),
                                        },
                                    ),
                                }
                            }
                        },
                    }
                },
            }
        },
    }
}

proof fn lemma_no_fault(
    srcs: Seq<Seq<char>>,
    shape: Seq<usize>,
    shapes: Map<Seq<char>, Seq<usize>>,
    streams: Map<Seq<char>, (Seq<char>, usize)>,
    line: usize,
)
    requires
        source_fault(srcs, shape, shapes, streams, line) is None,
    ensures
        forall|i: int| 0 <= i < srcs.len() ==> #[trigger] streams.contains_key(srcs[i]),
    decreases srcs.len(),
{
    if srcs.len() > 0 {
        lemma_no_fault(srcs.drop_first(), shape, shapes, streams, line);
        assert forall|i: int| 0 <= i < srcs.len() implies #[trigger] streams.contains_key(srcs[i]) by {
            if i > 0 {
                assert(srcs[i] == srcs.drop_first()[i - 1]);
            }
        }
    }
}

proof fn lemma_base_bounds(srcs: Seq<Seq<char>>, streams: Map<Seq<char>, (Seq<char>, usize)>)
    ensures
        forall|i: int| 0 <= i < srcs.len() ==> (#[trigger] streams[srcs[i]]).1 <= base_latency(srcs, streams),
        srcs.len() == 0 ==> base_latency(srcs, streams) == 1,
        srcs.len() > 0 ==> exists|i: int| 0 <= i < srcs.len() && base_latency(srcs, streams) == (#[trigger] streams[srcs[i]]).1,
    decreases srcs.len(),
{
    if srcs.len() > 1 {
        lemma_base_bounds(srcs.drop_last(), streams);
        assert forall|i: int| 0 <= i < srcs.len() implies (#[trigger] streams[srcs[i]]).1 <= base_latency(srcs, streams) by {
            if i < srcs.len() - 1 {
                assert(srcs[i] == srcs.drop_last()[i]);
            }
        }
        let j = choose|j: int| 0 <= j < srcs.drop_last().len() && base_latency(srcs.drop_last(), streams) == (#[trigger] streams[srcs.drop_last()[j]]).1;
        if streams[srcs.last()].1 > base_latency(srcs.drop_last(), streams) {
            assert(base_latency(srcs, streams) == streams[srcs[srcs.len() - 1]].1);
        } else {
            assert(srcs.drop_last()[j] == srcs[j]);
            assert(base_latency(srcs, streams) == streams[srcs[j]].1);
        }
    } else if srcs.len() == 1 {
        assert(base_latency(srcs, streams) == streams[srcs[0]].1);
    }
}

fn broadcast_fault(s: &String, got: Option<Vec<usize>>, shape: &Vec<usize>, line: usize) -> (r: HarmonyDisruption)
    ensures
        disruption_view(r) == lacking(
            "a broadcast (`"@ + s@ + "` is "@ + shape_debug(
                match got {
                    Some(v) => Some(v@),
                    None => None,
                },
            ) + ", the flow "@ + debug_dims(shape@) + ")"@,
            line,
        ),
{
    let mut m = String::new();
    push_str(&mut m, "a broadcast (`");
    push_str(&mut m, s.as_str());
    push_str(&mut m, "` is ");
    let mut g = String::new();
    match &got {
        Some(v) => {
            push_str(&mut g, "Some(");
            push_debug_dims(&mut g, v.as_slice());
            push_str(&mut g, ")");
        },
        None => push_str(&mut g, "None"),
    }
    push_str(&mut m, g.as_str());
    push_str(&mut m, ", the flow ");
    push_debug_dims(&mut m, shape.as_slice());
    push_str(&mut m, ")");
    unsupported(m.as_str(), line)
}

fn check_sources(srcs: &Vec<String>, shape: &Vec<usize>, shapes: &ShapeTable, streams: &StreamTable, line: usize) -> (r:
    Option<HarmonyDisruption>)
    ensures
        match r {
            None => source_fault(names_of(srcs@), shape@, shapes@, streams@, line) is None,
            Some(d) => source_fault(names_of(srcs@), shape@, shapes@, streams@, line) == Some(disruption_view(d)),
        },
{
    let ghost all = names_of(srcs@);
    let mut i: usize = 0;
    assert(all.skip(0) =~= all);
    while i < srcs.len()
        invariant
            i <= srcs.len(),
            all == names_of(srcs@),
            source_fault(all, shape@, shapes@, streams@, line) == source_fault(all.skip(i as int), shape@, shapes@, streams@, line),
        decreases srcs.len() - i,
    {
        let s = &srcs[i];
        assert(all.skip(i as int)[0] == s@);
        assert(all.skip(i as int).drop_first() =~= all.skip(i + 1));
        let got = shapes.get(s);
        let same = match &got {
            Some(v) => crate::parser::dims_eq(v.as_slice(), shape.as_slice()),
            None => false,
        };
        if !same {
            return Some(broadcast_fault(s, got, shape, line));
        }
        if streams.get(s).is_none() {
            return Some(HarmonyDisruption::SpaceErr { space_name: s.clone(), line });
        }
        i = i + 1;
    }
    assert(all.skip(i as int).len() == 0);
    None
}

fn stage_base(srcs: &Vec<String>, streams: &StreamTable) -> (r: usize)
    requires
        forall|i: int| 0 <= i < srcs.len() ==> #[trigger] streams@.contains_key(names_of(srcs@)[i]),
    ensures
        r == base_latency(names_of(srcs@), streams@),
{
    let ghost all = names_of(srcs@);
    let mut best: usize = 1;
    let mut i: usize = 0;
    assert(all.take(0) =~= Seq::<Seq<char>>::empty());
    while i < srcs.len()
        invariant
            i <= srcs.len(),
            all == names_of(srcs@),
            forall|j: int| 0 <= j < srcs.len() ==> #[trigger] streams@.contains_key(all[j]),
            best == base_latency(all.take(i as int), streams@),
        decreases srcs.len() - i,
    {
        assert(streams@.contains_key(all[i as int]));
        let d = match streams.get(&srcs[i]) {
            Some((_, d)) => d,
            None => 1,
        };
        assert(all.take(i + 1).drop_last() =~= all.take(i as int));
        if i == 0 || d > best {
            best = d;
        }
        i = i + 1;
    }
    assert(all.take(i as int) =~= all);
    best
}

fn make_chains(srcs: &Vec<String>, streams: &StreamTable, lat: usize, reach: usize) -> (r: Vec<Chain>)
    requires
        forall|i: int| 0 <= i < srcs.len() ==> #[trigger] streams@.contains_key(names_of(srcs@)[i]),
        lat == base_latency(names_of(srcs@), streams@) + reach + 2,
        base_latency(names_of(srcs@), streams@) + 2 * reach + 2 <= usize::MAX,
    ensures
        chains_view(r@) == chains_for(names_of(srcs@), streams@, lat as int, reach),
{
    let ghost all = names_of(srcs@);
    proof {
        lemma_base_bounds(all, streams@);
    }
    let mut out: Vec<Chain> = Vec::new();
    let mut i: usize = 0;
    assert(all.take(0) =~= Seq::<Seq<char>>::empty());
    assert(chains_view(out@) =~= Seq::<(Seq<char>, Seq<char>, usize, usize)>::empty());
    while i < srcs.len()
        invariant
            i <= srcs.len(),
            all == names_of(srcs@),
            forall|j: int| 0 <= j < srcs.len() ==> #[trigger] streams@.contains_key(all[j]),
            forall|j: int| 0 <= j < all.len() ==> (#[trigger] streams@[all[j]]).1 <= base_latency(all, streams@),
            lat == base_latency(all, streams@) + reach + 2,
            base_latency(all, streams@) + 2 * reach + 2 <= usize::MAX,
            chains_view(out@) == chains_for(all.take(i as int), streams@, lat as int, reach),
        decreases srcs.len() - i,
    {
        assert(streams@.contains_key(all[i as int]));
        assert(streams@[all[i as int]].1 <= base_latency(all, streams@));
        let (signal, d) = match streams.get(&srcs[i]) {
            Some(p) => p,
            None => (String::new(), 1),
        };
        assert(d >= 0);
        let centre = lat - d - 2;
        let chain = Chain { source: srcs[i].clone(), signal, length: centre + reach + 1, centre };
        out.push(chain);
        proof {
            assert(all.take(i + 1).drop_last() =~= all.take(i as int));
            assert(all.take(i + 1).last() == all[i as int]);
            assert(chains_view(out@) =~= chains_view(out@.drop_last()).push(chain_view(chain)));
        }
        i = i + 1;
    }
    assert(all.take(i as int) =~= all);
    out
}

pub open spec fn plan_view(shapes: ShapeTable, streams: StreamTable, stages: Seq<Stage>, written: Seq<String>) -> PlanV {
    PlanV { shapes: shapes@, streams: streams@, stages: stages_view(stages), written: names_of(written) }
}

fn flow_stage(
    src: &Expr,
    target: &FlowTarget,
    line: usize,
    shapes: &mut ShapeTable,
    streams: &mut StreamTable,
    stages: &mut Vec<Stage>,
    written: &mut Vec<String>,
    tau: u64,
    numbers: &NumberBits,
) -> (r: Result<(), HarmonyDisruption>)
    ensures
        match r {
            Ok(()) => flow_step(
                src@,
                crate::ast::target_view(*target),
                line,
                plan_view(*old(shapes), *old(streams), old(stages)@, old(written)@),
                tau,
                numbers@,
            ) == Ok::<PlanV, DisruptionV>(plan_view(*final(shapes), *final(streams), final(stages)@, final(written)@)),
            Err(d) => flow_step(
                src@,
                crate::ast::target_view(*target),
                line,
                plan_view(*old(shapes), *old(streams), old(stages)@, old(written)@),
                tau,
                numbers@,
            ) == Err::<PlanV, DisruptionV>(disruption_view(d)),
        },
{
    let tname: String = match target {
        FlowTarget::Var(n) => n.clone(),
        FlowTarget::Equilibrium => {
            let mut o = String::new();
            push_str(&mut o, "OUTPUT");
            o
        },
    };
    assert(tname@ == target_name(crate::ast::target_view(*target)));
    let (srcs, reach) = match sources(src, shapes, line) {
        Ok(p) => p,
        Err(d) => return Err(d),
    };
    let shape: Vec<usize> = match expr_shape(src, shapes) {
        Some(sh) => sh,
        None => match shapes.get(&tname) {
            Some(sh) => sh,
            None => return Err(unsupported("a flow with no shape", line)),
        },
    };
    if !crate::expansion::shape_fits(shape.as_slice()) {
        return Err(unsupported("a shape whose cells overflow a machine word", line));
    }
    match check_sources(&srcs, &shape, shapes, streams, line) {
        Some(d) => return Err(d),
        None => {},
    }
    proof {
        lemma_no_fault(names_of(srcs@), shape@, shapes@, streams@, line);
    }
    let base = stage_base(&srcs, streams);
    if base > usize::MAX - 2 || reach > (usize::MAX - 2 - base) / 2 {
        return Err(unsupported("a pipeline longer than a machine word", line));
    }
    let lat = base + reach + 2;
    let k = stages.len();
    let chains = make_chains(&srcs, streams, lat, reach);
    let expr = match lower(src, shapes, &chains, k, tau, numbers, line) {
        Ok(t) => t,
        Err(d) => return Err(d),
    };
    shapes.insert(&tname, shape.as_slice());
    let mut signal = String::new();
    push_str(&mut signal, "st");
    push_decimal(&mut signal, k as u64);
    push_str(&mut signal, "_");
    push_ident(&mut signal, &tname);
    streams.insert(&tname, signal, lat);
    written.push(tname.clone());
    let stage = Stage { index: k, target: tname, shape, latency: lat, chains, expr };
    stages.push(stage);
    proof {
        assert(stages_view(stages@) =~= stages_view(old(stages)@).push(stage_view(stage)));
        assert(names_of(written@) =~= names_of(old(written)@).push(tname@));
    }
    Ok(())
}

// ---------------------------------------------------------------- the pipeline

/// The pipeline the statements from `i` on build from `st`: declarations,
/// constraints and traces add no stage; the first `→ =` ends it.
pub open spec fn plan_from(
    stmts: Seq<StatementV>,
    lines: Seq<usize>,
    i: int,
    st: PlanV,
    tau: u64,
    numbers: Map<Seq<char>, u64>,
) -> Result<PlanV, DisruptionV>
    decreases stmts.len() - i,
{
    if i < 0 || i >= stmts.len() {
        Ok(st)
    } else {
        let line = line_at(lines, i);
        match stmts[i] {
            StatementV::ExtBind { .. } => Err(lacking("a bound address"@, line)),
            StatementV::Iterate { .. } => Err(lacking("a fixed point (`⇒`)"@, line)),
            StatementV::Flow { src, target } => match flow_step(src, target, line, st, tau, numbers) {
                Err(d) => Err(d),
                Ok(next) => if target is Equilibrium {
                    Ok(next)
                } else {
                    plan_from(stmts, lines, i + 1, next, tau, numbers)
                },
            },
            _ => plan_from(stmts, lines, i + 1, st, tau, numbers),
        }
    }
}

/// The declared spaces, in order: the circuit's inputs.
pub open spec fn declared(stmts: Seq<StatementV>) -> Seq<(Seq<char>, Seq<usize>)>
    decreases stmts.len(),
{
    if stmts.len() == 0 {
        Seq::empty()
    } else {
        let prev = declared(stmts.drop_last());
        match stmts.last() {
            StatementV::SpaceDef { name, dims } => prev.push((name, dims)),
            _ => prev,
        }
    }
}

/// The declared shapes by name.
pub open spec fn declared_shapes(defs: Seq<(Seq<char>, Seq<usize>)>) -> Map<Seq<char>, Seq<usize>>
    decreases defs.len(),
{
    if defs.len() == 0 {
        Map::empty()
    } else {
        declared_shapes(defs.drop_last()).insert(defs.last().0, defs.last().1)
    }
}

/// Each input's stream: its input register, latency 1.
pub open spec fn input_streams(defs: Seq<(Seq<char>, Seq<usize>)>) -> Map<Seq<char>, (Seq<char>, usize)>
    decreases defs.len(),
{
    if defs.len() == 0 {
        Map::empty()
    } else {
        input_streams(defs.drop_last()).insert(defs.last().0, ("s_in_"@ + ident_of(defs.last().0), 1usize))
    }
}

/// Before the first flow: the declarations, each on its input stream.
pub open spec fn first_plan(stmts: Seq<StatementV>) -> PlanV {
    PlanV {
        shapes: declared_shapes(declared(stmts)),
        streams: input_streams(declared(stmts)),
        stages: Seq::empty(),
        written: Seq::empty(),
    }
}

/// The pipeline a block builds.
pub open spec fn plan_of(
    stmts: Seq<StatementV>,
    lines: Seq<usize>,
    tau: u64,
    numbers: Map<Seq<char>, u64>,
) -> Result<PlanV, DisruptionV> {
    plan_from(stmts, lines, 0, first_plan(stmts), tau, numbers)
}

fn declarations(block: &ToposBlock) -> (r: (Vec<String>, Vec<Vec<usize>>, ShapeTable, StreamTable))
    ensures
        r.0.len() == r.1.len(),
        r.0.len() == declared(crate::ast::statements_view(block.statements@)).len(),
        forall|j: int| 0 <= j < r.0.len() ==> (#[trigger] r.0@[j])@ == declared(crate::ast::statements_view(block.statements@))[j].0
            && r.1@[j]@ == declared(crate::ast::statements_view(block.statements@))[j].1,
        r.2@ == declared_shapes(declared(crate::ast::statements_view(block.statements@))),
        r.3@ == input_streams(declared(crate::ast::statements_view(block.statements@))),
{
    let ghost all = crate::ast::statements_view(block.statements@);
    let mut names: Vec<String> = Vec::new();
    let mut dims: Vec<Vec<usize>> = Vec::new();
    let mut shapes = ShapeTable::new();
    let mut streams = StreamTable::new();
    let mut i: usize = 0;
    assert(all.take(0) =~= Seq::<StatementV>::empty());
    while i < block.statements.len()
        invariant
            i <= block.statements.len(),
            all == crate::ast::statements_view(block.statements@),
            names.len() == dims.len(),
            names.len() == declared(all.take(i as int)).len(),
            forall|j: int| 0 <= j < names.len() ==> (#[trigger] names@[j])@ == declared(all.take(i as int))[j].0
                && dims@[j]@ == declared(all.take(i as int))[j].1,
            shapes@ == declared_shapes(declared(all.take(i as int))),
            streams@ == input_streams(declared(all.take(i as int))),
        decreases block.statements.len() - i,
    {
        assert(all.take(i + 1).drop_last() =~= all.take(i as int));
        assert(all.take(i + 1).last() == block.statements@[i as int]@);
        match &block.statements[i] {
            Statement::SpaceDef(d) => {
                let ghost before = declared(all.take(i as int));
                let ghost after = declared(all.take(i + 1));
                assert(after == before.push((d.name@, d.dimensions@)));
                assert(after.drop_last() =~= before);
                names.push(d.name.clone());
                dims.push(crate::ast::copy_dims(d.dimensions.as_slice()));
                shapes.insert(&d.name, d.dimensions.as_slice());
                let mut sig = String::new();
                push_str(&mut sig, "s_in_");
                push_ident(&mut sig, &d.name);
                streams.insert(&d.name, sig, 1);
            },
            _ => {},
        }
        i = i + 1;
    }
    assert(all.take(i as int) =~= all);
    (names, dims, shapes, streams)
}

fn build_stages(block: &ToposBlock, tau: u64, numbers: &NumberBits, shapes: &mut ShapeTable, streams: &mut StreamTable) -> (r:
    Result<(Vec<Stage>, Vec<String>), HarmonyDisruption>)
    requires
        old(shapes)@ == first_plan(crate::ast::statements_view(block.statements@)).shapes,
        old(streams)@ == first_plan(crate::ast::statements_view(block.statements@)).streams,
    ensures
        match r {
            Ok((stages, written)) => plan_of(crate::ast::statements_view(block.statements@), block.lines@, tau, numbers@)
                == Ok::<PlanV, DisruptionV>(plan_view(*final(shapes), *final(streams), stages@, written@)),
            Err(d) => plan_of(crate::ast::statements_view(block.statements@), block.lines@, tau, numbers@) == Err::<
                PlanV,
                DisruptionV,
            >(disruption_view(d)),
        },
{
    let ghost all = crate::ast::statements_view(block.statements@);
    let mut stages: Vec<Stage> = Vec::new();
    let mut written: Vec<String> = Vec::new();
    let mut i: usize = 0;
    proof {
        assert(plan_view(*shapes, *streams, stages@, written@) =~= first_plan(all)) by {
            assert(stages_view(stages@) =~= Seq::<StageV>::empty());
            assert(names_of(written@) =~= Seq::<Seq<char>>::empty());
        }
    }
    while i < block.statements.len()
        invariant
            i <= block.statements.len(),
            all == crate::ast::statements_view(block.statements@),
            plan_of(all, block.lines@, tau, numbers@) == plan_from(
                all,
                block.lines@,
                i as int,
                plan_view(*shapes, *streams, stages@, written@),
                tau,
                numbers@,
            ),
        decreases block.statements.len() - i,
    {
        let line = block.line_of(i);
        assert(all[i as int] == block.statements@[i as int]@);
        match &block.statements[i] {
            Statement::ExtBind(_) => return Err(unsupported("a bound address", line)),
            Statement::Iterate { .. } => return Err(unsupported("a fixed point (`⇒`)", line)),
            Statement::Flow { src, target } => {
                match flow_stage(src, target, line, shapes, streams, &mut stages, &mut written, tau, numbers) {
                    Err(d) => return Err(d),
                    Ok(()) => {},
                }
                match target {
                    FlowTarget::Equilibrium => return Ok((stages, written)),
                    FlowTarget::Var(_) => {},
                }
            },
            _ => {},
        }
        i = i + 1;
    }
    Ok((stages, written))
}

// ---------------------------------------------------------------- the module's text

/// The helpers every module carries: the language's operations that are not
/// one SystemVerilog operator.
pub const MODULE_HELPERS: &'static str = "
  // A comparison masks: the left value where it holds, zero elsewhere.
  function automatic real rho_mask(input logic holds, input real l);
    return holds ? l : $bitstoreal(64'h0);
  endfunction
  // |x| by clearing the sign, so -0 becomes +0 as fabs has it.
  function automatic real rho_abs(input real x);
    return $bitstoreal($realtobits(x) & 64'h7FFFFFFFFFFFFFFF);
  endfunction
  // 1 where the value is not zero (a NaN is not zero), 0 at zero.
  function automatic real rho_ind(input real x);
    return (x != $bitstoreal(64'h0)) ? $bitstoreal(64'h3FF0000000000000) : $bitstoreal(64'h0);
  endfunction
  // IEEE 754-2019 maximum / minimum: a NaN propagates, -0 orders below +0.
  function automatic real rho_extreme(input real l, input real r, input logic greater);
    real by_value, by_sign, ordered;
    if (l != l) return l;
    if (r != r) return r;
    by_value = greater ? ((l > r) ? l : r) : ((l < r) ? l : r);
    by_sign = greater ? ((1.0 / l > 1.0 / r) ? l : r) : ((1.0 / l < 1.0 / r) ? l : r);
    ordered = (l == r) ? by_sign : by_value;
    return ordered;
  endfunction
  // APL's residue: B - A * floor(B / A); 0 | B is B.
  function automatic real rho_residue(input real a, input real b);
    real q, rem;
    q = $floor(b / a);
    rem = b - a * q;
    return (a == $bitstoreal(64'h0)) ? b : rem;
  endfunction
  // The roll: splitmix64's finaliser over the bits, the top 53 scaled into [0, 1).
  function automatic real rho_roll(input real x);
    longint unsigned z;
    z = (x != x) ? 64'd0 : $realtobits(x);
    z = z + 64'h9E3779B97F4A7C15;
    z = (z ^ (z >> 30)) * 64'hBF58476D1CE4E5B9;
    z = (z ^ (z >> 27)) * 64'h94D049BB133111EB;
    z = z ^ (z >> 31);
    return real'(z >> 11) * $bitstoreal(64'h3CA0000000000000);
  endfunction
";

/// One less, and zero for zero.
pub open spec fn less_one(n: usize) -> nat {
    if n == 0 {
        0
    } else {
        (n - 1) as nat
    }
}

fn less_one_of(n: usize) -> (r: u64)
    ensures
        r as nat == less_one(n),
{
    if n == 0 {
        0
    } else {
        (n - 1) as u64
    }
}

/// An input port per input.
pub open spec fn ports_text(ins: Seq<(Seq<char>, usize)>) -> Seq<char>
    decreases ins.len(),
{
    if ins.len() == 0 {
        Seq::empty()
    } else {
        ports_text(ins.drop_last()) + "  input  real  in_"@ + ident_of(ins.last().0) + ",\n"@
    }
}

/// An input register per input, its stream of latency 1.
pub open spec fn input_regs_text(ins: Seq<(Seq<char>, usize)>) -> Seq<char>
    decreases ins.len(),
{
    if ins.len() == 0 {
        Seq::empty()
    } else {
        let name = ins.last().0;
        let id = ident_of(name);
        input_regs_text(ins.drop_last()) + "  real s_in_"@ + id + ";  // the stream of "@ + name
            + ", latency 1\n  always_ff @(posedge clk) s_in_"@ + id + " <= in_valid ? in_"@ + id + " : "@ + real_text(0)
            + ";\n"@
    }
}

/// A delay line of stage `k`.
pub open spec fn chain_text(k: usize, c: (Seq<char>, Seq<char>, usize, usize)) -> Seq<char> {
    let line = "c"@ + decimal(k as nat) + "_"@ + ident_of(c.0);
    "  real "@ + line + " [0:"@ + decimal(less_one(c.2)) + "];  // "@ + c.0 + " delayed for this stage; centre tap "@
        + decimal(c.3 as nat) + "\n  always_ff @(posedge clk) begin\n    "@ + line + "[0] <= "@ + c.1
        + ";\n    for (int i = 1; i < "@ + decimal(c.2 as nat) + "; i++) "@ + line + "[i] <= "@ + line
        + "[i - 1];\n  end\n"@
}

pub open spec fn chains_text(k: usize, ch: Seq<(Seq<char>, Seq<char>, usize, usize)>) -> Seq<char>
    decreases ch.len(),
{
    if ch.len() == 0 {
        Seq::empty()
    } else {
        chains_text(k, ch.drop_last()) + chain_text(k, ch.last())
    }
}

/// The coordinates of the cell a stage computes, axis by axis.
pub open spec fn pos_text(shape: Seq<usize>, n: nat) -> Seq<char>
    decreases n,
{
    if n == 0 {
        Seq::empty()
    } else {
        let a = (n - 1) as nat;
        let g = match geometry_of(shape, Some(a as usize)) {
            Some(g) => g,
            None => (1usize, 1usize),
        };
        pos_text(shape, a) + "    pos["@ + decimal(a) + "] = (here < 0) ? 0 : ((here / "@ + decimal(g.0 as nat) + ") % "@
            + decimal(g.1 as nat) + ");\n"@
    }
}

/// A stage: its delay lines, and the register its expression feeds.
pub open spec fn stage_text(st: StageV) -> Seq<char> {
    let k = decimal(st.index as nat);
    let tid = ident_of(st.target);
    let rank = st.shape.len();
    "\n  // ---- stage "@ + k + ": -> "@ + st.target + " (shape "@ + debug_dims(st.shape) + "), latency "@ + decimal(
        st.latency as nat,
    ) + "\n"@ + chains_text(st.index, st.chains) + "  real st"@ + k + "_"@ + tid
        + ";\n  always_ff @(posedge clk) begin : stage"@ + k + "_"@ + tid
        + "\n    longint here;  // the cell this clock computes\n    longint pos [0:"@ + decimal(
        if rank == 0 {
            0nat
        } else {
            (rank - 1) as nat
        },
    ) + "];\n    here = cyc - "@ + decimal(less_one(st.latency)) + ";\n"@ + pos_text(st.shape, rank) + "    st"@ + k + "_"@
        + tid + " <= "@ + st.expr + ";\n  end\n"@
}

pub open spec fn stages_text(stages: Seq<StageV>) -> Seq<char>
    decreases stages.len(),
{
    if stages.len() == 0 {
        Seq::empty()
    } else {
        stages_text(stages.drop_last()) + stage_text(stages.last())
    }
}

/// The module: ports, helpers, the cycle counter, the input registers, the
/// stages, and OUTPUT's stream as the output.
pub open spec fn module_text(
    ins: Seq<(Seq<char>, usize)>,
    stages: Seq<StageV>,
    out_signal: Seq<char>,
    out_latency: usize,
    out_cells: usize,
) -> Seq<char> {
    "// ρ kernel as a streaming pipeline: one cell per clock, row-major order.\n// Latency "@ + decimal(out_latency as nat)
        + " clocks from a cell entering to its output cell leaving.\n// Cells are `real` (double): the structure and timing of the circuit; the\n// arithmetic units are a later step. Generated by rhoc --emit-sv.\n`timescale 1ns/1ps\nmodule rho_kernel (\n  input  logic clk,\n  input  logic rst,\n  input  logic in_valid,\n"@
        + ports_text(ins) + "  output logic out_valid,\n  output real  out_OUTPUT\n);\n"@ + MODULE_HELPERS@
        + "  // Clocks since the first cell; cell k of a stream with latency d is on it at clock k + d.\n  longint cyc;\n  always_ff @(posedge clk) begin\n    if (rst) cyc <= 0; else cyc <= cyc + 1;\n  end\n"@
        + input_regs_text(ins) + stages_text(stages) + "\n  assign out_OUTPUT = "@ + out_signal
        + ";\n  assign out_valid = (cyc >= "@ + decimal(out_latency as nat) + ") && (cyc < "@ + decimal(
        (out_latency + out_cells) as nat,
    ) + ");\nendmodule\n"@
}

fn ports(ins: &Vec<(String, usize)>) -> (r: String)
    ensures
        r@ == ports_text(ins@.map_values(|p: (String, usize)| (p.0@, p.1))),
{
    let ghost all = ins@.map_values(|p: (String, usize)| (p.0@, p.1));
    let mut t = String::new();
    let mut i: usize = 0;
    assert(all.take(0) =~= Seq::<(Seq<char>, usize)>::empty());
    while i < ins.len()
        invariant
            i <= ins.len(),
            all == ins@.map_values(|p: (String, usize)| (p.0@, p.1)),
            t@ == ports_text(all.take(i as int)),
        decreases ins.len() - i,
    {
        assert(all.take(i + 1).drop_last() =~= all.take(i as int));
        assert(all.take(i + 1).last() == (ins@[i as int].0@, ins@[i as int].1));
        push_str(&mut t, "  input  real  in_");
        push_ident(&mut t, &ins[i].0);
        push_str(&mut t, ",\n");
        i = i + 1;
    }
    assert(all.take(i as int) =~= all);
    t
}

fn input_regs(ins: &Vec<(String, usize)>) -> (r: String)
    ensures
        r@ == input_regs_text(ins@.map_values(|p: (String, usize)| (p.0@, p.1))),
{
    let ghost all = ins@.map_values(|p: (String, usize)| (p.0@, p.1));
    let mut t = String::new();
    let mut i: usize = 0;
    assert(all.take(0) =~= Seq::<(Seq<char>, usize)>::empty());
    while i < ins.len()
        invariant
            i <= ins.len(),
            all == ins@.map_values(|p: (String, usize)| (p.0@, p.1)),
            t@ == input_regs_text(all.take(i as int)),
        decreases ins.len() - i,
    {
        assert(all.take(i + 1).drop_last() =~= all.take(i as int));
        assert(all.take(i + 1).last() == (ins@[i as int].0@, ins@[i as int].1));
        let name = &ins[i].0;
        let mut id = String::new();
        push_ident(&mut id, name);
        push_str(&mut t, "  real s_in_");
        push_str(&mut t, id.as_str());
        push_str(&mut t, ";  // the stream of ");
        push_str(&mut t, name.as_str());
        push_str(&mut t, ", latency 1\n  always_ff @(posedge clk) s_in_");
        push_str(&mut t, id.as_str());
        push_str(&mut t, " <= in_valid ? in_");
        push_str(&mut t, id.as_str());
        push_str(&mut t, " : ");
        push_real(&mut t, 0);
        push_str(&mut t, ";\n");
        i = i + 1;
    }
    assert(all.take(i as int) =~= all);
    t
}

fn chain_lines(k: usize, chains: &Vec<Chain>) -> (r: String)
    ensures
        r@ == chains_text(k, chains_view(chains@)),
{
    let ghost all = chains_view(chains@);
    let mut t = String::new();
    let mut i: usize = 0;
    assert(all.take(0) =~= Seq::<(Seq<char>, Seq<char>, usize, usize)>::empty());
    while i < chains.len()
        invariant
            i <= chains.len(),
            all == chains_view(chains@),
            t@ == chains_text(k, all.take(i as int)),
        decreases chains.len() - i,
    {
        assert(all.take(i + 1).drop_last() =~= all.take(i as int));
        assert(all.take(i + 1).last() == chain_view(chains@[i as int]));
        let c = &chains[i];
        let mut line = String::new();
        push_str(&mut line, "c");
        push_decimal(&mut line, k as u64);
        push_str(&mut line, "_");
        push_ident(&mut line, &c.source);
        let mut u = String::new();
        push_str(&mut u, "  real ");
        push_str(&mut u, line.as_str());
        push_str(&mut u, " [0:");
        push_decimal(&mut u, less_one_of(c.length));
        push_str(&mut u, "];  // ");
        push_str(&mut u, c.source.as_str());
        push_str(&mut u, " delayed for this stage; centre tap ");
        push_decimal(&mut u, c.centre as u64);
        push_str(&mut u, "\n  always_ff @(posedge clk) begin\n    ");
        push_str(&mut u, line.as_str());
        push_str(&mut u, "[0] <= ");
        push_str(&mut u, c.signal.as_str());
        push_str(&mut u, ";\n    for (int i = 1; i < ");
        push_decimal(&mut u, c.length as u64);
        push_str(&mut u, "; i++) ");
        push_str(&mut u, line.as_str());
        push_str(&mut u, "[i] <= ");
        push_str(&mut u, line.as_str());
        push_str(&mut u, "[i - 1];\n  end\n");
        assert(u@ == chain_text(k, chain_view(*c)));
        push_str(&mut t, u.as_str());
        i = i + 1;
    }
    assert(all.take(i as int) =~= all);
    t
}

fn pos_lines(shape: &Vec<usize>) -> (r: String)
    requires
        fits(shape@),
    ensures
        r@ == pos_text(shape@, shape@.len()),
{
    let mut t = String::new();
    let mut a: usize = 0;
    while a < shape.len()
        invariant
            a <= shape.len(),
            fits(shape@),
            t@ == pos_text(shape@, a as nat),
        decreases shape.len() - a,
    {
        let g = match axis_geometry(shape.as_slice(), Some(a)) {
            Some(g) => g,
            None => (1usize, 1usize),
        };
        push_str(&mut t, "    pos[");
        push_decimal(&mut t, a as u64);
        push_str(&mut t, "] = (here < 0) ? 0 : ((here / ");
        push_decimal(&mut t, g.0 as u64);
        push_str(&mut t, ") % ");
        push_decimal(&mut t, g.1 as u64);
        push_str(&mut t, ");\n");
        a = a + 1;
    }
    t
}

fn stage_lines(st: &Stage) -> (r: String)
    requires
        fits(st.shape@),
    ensures
        r@ == stage_text(stage_view(*st)),
{
    let mut k = String::new();
    push_decimal(&mut k, st.index as u64);
    let mut tid = String::new();
    push_ident(&mut tid, &st.target);
    let rank = st.shape.len();
    let mut t = String::new();
    push_str(&mut t, "\n  // ---- stage ");
    push_str(&mut t, k.as_str());
    push_str(&mut t, ": -> ");
    push_str(&mut t, st.target.as_str());
    push_str(&mut t, " (shape ");
    push_debug_dims(&mut t, st.shape.as_slice());
    push_str(&mut t, "), latency ");
    push_decimal(&mut t, st.latency as u64);
    push_str(&mut t, "\n");
    let ch = chain_lines(st.index, &st.chains);
    push_str(&mut t, ch.as_str());
    push_str(&mut t, "  real st");
    push_str(&mut t, k.as_str());
    push_str(&mut t, "_");
    push_str(&mut t, tid.as_str());
    push_str(&mut t, ";\n  always_ff @(posedge clk) begin : stage");
    push_str(&mut t, k.as_str());
    push_str(&mut t, "_");
    push_str(&mut t, tid.as_str());
    push_str(&mut t, "\n    longint here;  // the cell this clock computes\n    longint pos [0:");
    push_decimal(&mut t, if rank == 0 { 0 } else { (rank - 1) as u64 });
    push_str(&mut t, "];\n    here = cyc - ");
    push_decimal(&mut t, less_one_of(st.latency));
    push_str(&mut t, ";\n");
    let pl = pos_lines(&st.shape);
    push_str(&mut t, pl.as_str());
    push_str(&mut t, "    st");
    push_str(&mut t, k.as_str());
    push_str(&mut t, "_");
    push_str(&mut t, tid.as_str());
    push_str(&mut t, " <= ");
    push_str(&mut t, st.expr.as_str());
    push_str(&mut t, ";\n  end\n");
    t
}

fn stages_lines(stages: &Vec<Stage>) -> (r: String)
    requires
        forall|j: int| 0 <= j < stages.len() ==> fits((#[trigger] stages@[j]).shape@),
    ensures
        r@ == stages_text(stages_view(stages@)),
{
    let ghost all = stages_view(stages@);
    let mut t = String::new();
    let mut i: usize = 0;
    assert(all.take(0) =~= Seq::<StageV>::empty());
    while i < stages.len()
        invariant
            i <= stages.len(),
            all == stages_view(stages@),
            forall|j: int| 0 <= j < stages.len() ==> fits((#[trigger] stages@[j]).shape@),
            t@ == stages_text(all.take(i as int)),
        decreases stages.len() - i,
    {
        assert(all.take(i + 1).drop_last() =~= all.take(i as int));
        assert(all.take(i + 1).last() == stage_view(stages@[i as int]));
        let u = stage_lines(&stages[i]);
        push_str(&mut t, u.as_str());
        i = i + 1;
    }
    assert(all.take(i as int) =~= all);
    t
}

fn module_lines(
    ins: &Vec<(String, usize)>,
    stages: &Vec<Stage>,
    out_signal: &String,
    out_latency: usize,
    out_cells: usize,
) -> (r: String)
    requires
        forall|j: int| 0 <= j < stages.len() ==> fits((#[trigger] stages@[j]).shape@),
        out_latency + out_cells <= usize::MAX,
    ensures
        r@ == module_text(
            ins@.map_values(|p: (String, usize)| (p.0@, p.1)),
            stages_view(stages@),
            out_signal@,
            out_latency,
            out_cells,
        ),
{
    let mut sv = String::new();
    push_str(&mut sv, "// ρ kernel as a streaming pipeline: one cell per clock, row-major order.\n// Latency ");
    push_decimal(&mut sv, out_latency as u64);
    push_str(&mut sv, " clocks from a cell entering to its output cell leaving.\n// Cells are `real` (double): the structure and timing of the circuit; the\n// arithmetic units are a later step. Generated by rhoc --emit-sv.\n`timescale 1ns/1ps\nmodule rho_kernel (\n  input  logic clk,\n  input  logic rst,\n  input  logic in_valid,\n");
    let p = ports(ins);
    push_str(&mut sv, p.as_str());
    push_str(&mut sv, "  output logic out_valid,\n  output real  out_OUTPUT\n);\n");
    push_str(&mut sv, MODULE_HELPERS);
    push_str(&mut sv, "  // Clocks since the first cell; cell k of a stream with latency d is on it at clock k + d.\n  longint cyc;\n  always_ff @(posedge clk) begin\n    if (rst) cyc <= 0; else cyc <= cyc + 1;\n  end\n");
    let regs = input_regs(ins);
    push_str(&mut sv, regs.as_str());
    let st = stages_lines(stages);
    push_str(&mut sv, st.as_str());
    push_str(&mut sv, "\n  assign out_OUTPUT = ");
    push_str(&mut sv, out_signal.as_str());
    push_str(&mut sv, ";\n  assign out_valid = (cyc >= ");
    push_decimal(&mut sv, out_latency as u64);
    push_str(&mut sv, ") && (cyc < ");
    push_decimal(&mut sv, (out_latency + out_cells) as u64);
    push_str(&mut sv, ");\nendmodule\n");
    sv
}

// ---------------------------------------------------------------- the harness's text

/// The cells of the inputs before `ins`' end, summed.
pub open spec fn sum_cells(ins: Seq<(Seq<char>, usize)>) -> int
    decreases ins.len(),
{
    if ins.len() == 0 {
        0
    } else {
        sum_cells(ins.drop_last()) + ins.last().1
    }
}

/// Each input port fed from its stretch of the input file.
pub open spec fn feeds_text(ins: Seq<(Seq<char>, usize)>) -> Seq<char>
    decreases ins.len(),
{
    if ins.len() == 0 {
        Seq::empty()
    } else {
        feeds_text(ins.drop_last()) + "    m.in_"@ + ident_of(ins.last().0) + " = (t < "@ + decimal(ins.last().1 as nat)
            + ") ? in["@ + decimal(sum_cells(ins.drop_last()) as nat) + " + t] : 0.0;\n"@
    }
}

/// The cells the first input feeds, 0 when there is none.
pub open spec fn feed_cells(ins: Seq<(Seq<char>, usize)>) -> int {
    if ins.len() == 0 {
        0
    } else {
        ins[0].1 as int
    }
}

/// A Verilator harness: reads the inputs from a file of doubles in port
/// order, streams them in, and writes OUTPUT's cells to a file.
pub open spec fn harness_text(ins: Seq<(Seq<char>, usize)>, out_latency: usize, out_cells: usize) -> Seq<char> {
    let total = decimal(sum_cells(ins) as nat);
    let cells = decimal(out_cells as nat);
    "// Drives rho_kernel through Verilator: reads the input spaces from a file of\n// doubles (in port order), streams them in, writes OUTPUT's cells to a file.\n#include \"Vrho_kernel.h\"\n#include \"verilated.h\"\n#include <cstdio>\n#include <cstdlib>\n#include <vector>\nint main(int argc, char** argv) {\n  Verilated::commandArgs(argc, argv);\n  if (argc < 3) { std::fprintf(stderr, \"usage: %s inputs.bin output.bin\\n\", argv[0]); return 2; }\n  std::vector<double> in("@
        + total + ");\n  if ("@ + total + " > 0) { FILE* f = std::fopen(argv[1], \"rb\"); if (!f || std::fread(in.data(), sizeof(double), "@
        + total + ", f) != "@ + total
        + ") { std::fprintf(stderr, \"short input\\n\"); return 3; } std::fclose(f); }\n  Vrho_kernel m;\n  auto tick = [&]() { m.clk = 0; m.eval(); m.clk = 1; m.eval(); };\n  m.rst = 1; m.in_valid = 0; tick(); m.rst = 0;\n  std::vector<double> out; out.reserve("@
        + cells + ");\n  long cycles = 0;\n  for (long t = 0; out.size() < "@ + cells + " && t < "@ + decimal(
        (feed_cells(ins) + out_latency + out_cells + 4) as nat,
    ) + "; t++) {\n    m.in_valid = t < "@ + decimal(feed_cells(ins) as nat) + ";\n"@ + feeds_text(ins)
        + "    tick(); cycles++;\n    if (m.out_valid) out.push_back(m.out_OUTPUT);\n  }\n  m.final();\n  FILE* o = std::fopen(argv[2], \"wb\"); if (!o) return 4;\n  std::fwrite(out.data(), sizeof(double), out.size(), o); std::fclose(o);\n  std::printf(\"cells %zu cycles %ld latency "@
        + decimal(out_latency as nat) + "\\n\", out.size(), cycles);\n  return out.size() == "@ + cells + " ? 0 : 5;\n}\n"@
}

proof fn lemma_sum_prefix(ins: Seq<(Seq<char>, usize)>, i: int)
    requires
        0 <= i <= ins.len(),
    ensures
        0 <= sum_cells(ins.take(i)) <= sum_cells(ins),
    decreases ins.len(),
{
    if ins.len() > 0 {
        if i == ins.len() {
            assert(ins.take(i) =~= ins);
            lemma_sum_prefix(ins.drop_last(), i - 1);
            assert(ins.drop_last().take(i - 1) =~= ins.drop_last());
        } else {
            lemma_sum_prefix(ins.drop_last(), i);
            assert(ins.drop_last().take(i) =~= ins.take(i));
        }
    }
}

fn feeds(ins: &Vec<(String, usize)>) -> (r: String)
    requires
        sum_cells(ins@.map_values(|p: (String, usize)| (p.0@, p.1))) <= usize::MAX,
    ensures
        r@ == feeds_text(ins@.map_values(|p: (String, usize)| (p.0@, p.1))),
{
    let ghost all = ins@.map_values(|p: (String, usize)| (p.0@, p.1));
    let mut t = String::new();
    let mut offset: usize = 0;
    let mut i: usize = 0;
    assert(all.take(0) =~= Seq::<(Seq<char>, usize)>::empty());
    while i < ins.len()
        invariant
            i <= ins.len(),
            all == ins@.map_values(|p: (String, usize)| (p.0@, p.1)),
            sum_cells(all) <= usize::MAX,
            offset == sum_cells(all.take(i as int)),
            t@ == feeds_text(all.take(i as int)),
        decreases ins.len() - i,
    {
        assert(all.take(i + 1).drop_last() =~= all.take(i as int));
        assert(all.take(i + 1).last() == (ins@[i as int].0@, ins@[i as int].1));
        proof {
            lemma_sum_prefix(all, i + 1);
        }
        let cells = ins[i].1;
        push_str(&mut t, "    m.in_");
        push_ident(&mut t, &ins[i].0);
        push_str(&mut t, " = (t < ");
        push_decimal(&mut t, cells as u64);
        push_str(&mut t, ") ? in[");
        push_decimal(&mut t, offset as u64);
        push_str(&mut t, " + t] : 0.0;\n");
        offset = offset + cells;
        i = i + 1;
    }
    assert(all.take(i as int) =~= all);
    t
}

fn harness_lines(ins: &Vec<(String, usize)>, total_in: usize, out_latency: usize, out_cells: usize) -> (r: String)
    requires
        total_in == sum_cells(ins@.map_values(|p: (String, usize)| (p.0@, p.1))),
        feed_cells(ins@.map_values(|p: (String, usize)| (p.0@, p.1))) + out_latency + out_cells + 4 <= usize::MAX,
    ensures
        r@ == harness_text(ins@.map_values(|p: (String, usize)| (p.0@, p.1)), out_latency, out_cells),
{
    let ghost all = ins@.map_values(|p: (String, usize)| (p.0@, p.1));
    let feed: usize = if ins.len() == 0 {
        0
    } else {
        ins[0].1
    };
    assert(feed == feed_cells(all));
    let mut total = String::new();
    push_decimal(&mut total, total_in as u64);
    let mut cells = String::new();
    push_decimal(&mut cells, out_cells as u64);
    let mut h = String::new();
    push_str(&mut h, "// Drives rho_kernel through Verilator: reads the input spaces from a file of\n// doubles (in port order), streams them in, writes OUTPUT's cells to a file.\n#include \"Vrho_kernel.h\"\n#include \"verilated.h\"\n#include <cstdio>\n#include <cstdlib>\n#include <vector>\nint main(int argc, char** argv) {\n  Verilated::commandArgs(argc, argv);\n  if (argc < 3) { std::fprintf(stderr, \"usage: %s inputs.bin output.bin\\n\", argv[0]); return 2; }\n  std::vector<double> in(");
    push_str(&mut h, total.as_str());
    push_str(&mut h, ");\n  if (");
    push_str(&mut h, total.as_str());
    push_str(&mut h, " > 0) { FILE* f = std::fopen(argv[1], \"rb\"); if (!f || std::fread(in.data(), sizeof(double), ");
    push_str(&mut h, total.as_str());
    push_str(&mut h, ", f) != ");
    push_str(&mut h, total.as_str());
    push_str(&mut h, ") { std::fprintf(stderr, \"short input\\n\"); return 3; } std::fclose(f); }\n  Vrho_kernel m;\n  auto tick = [&]() { m.clk = 0; m.eval(); m.clk = 1; m.eval(); };\n  m.rst = 1; m.in_valid = 0; tick(); m.rst = 0;\n  std::vector<double> out; out.reserve(");
    push_str(&mut h, cells.as_str());
    push_str(&mut h, ");\n  long cycles = 0;\n  for (long t = 0; out.size() < ");
    push_str(&mut h, cells.as_str());
    push_str(&mut h, " && t < ");
    push_decimal(&mut h, (feed + out_latency + out_cells + 4) as u64);
    push_str(&mut h, "; t++) {\n    m.in_valid = t < ");
    push_decimal(&mut h, feed as u64);
    push_str(&mut h, ";\n");
    let f = feeds(ins);
    push_str(&mut h, f.as_str());
    push_str(&mut h, "    tick(); cycles++;\n    if (m.out_valid) out.push_back(m.out_OUTPUT);\n  }\n  m.final();\n  FILE* o = std::fopen(argv[2], \"wb\"); if (!o) return 4;\n  std::fwrite(out.data(), sizeof(double), out.size(), o); std::fclose(o);\n  std::printf(\"cells %zu cycles %ld latency ");
    push_decimal(&mut h, out_latency as u64);
    push_str(&mut h, "\\n\", out.size(), cycles);\n  return out.size() == ");
    push_str(&mut h, cells.as_str());
    push_str(&mut h, " ? 0 : 5;\n}\n");
    h
}

// ---------------------------------------------------------------- counting cells

/// The cells of a shape, its plain product taken as at least one, when the
/// product fits a machine word.
pub open spec fn counted(s: Seq<usize>) -> Option<usize> {
    let p = crate::ast::raw_cells(s);
    if p > usize::MAX {
        None
    } else if p < 1 {
        Some(1usize)
    } else {
        Some(p as usize)
    }
}

pub(crate) proof fn lemma_raw_nonneg(s: Seq<usize>)
    ensures
        crate::ast::raw_cells(s) >= 0,
    decreases s.len(),
{
    if s.len() > 0 {
        lemma_raw_nonneg(s.drop_first());
        let r = crate::ast::raw_cells(s.drop_first());
        assert(s[0] * r >= 0) by (nonlinear_arith)
            requires
                r >= 0,
        ;
    }
}

proof fn lemma_capped(x: int, r: int, c: int)
    requires
        x >= 0,
        r >= 0,
        c > 0,
    ensures
        (if x * (if r < c { r } else { c }) < c { x * (if r < c { r } else { c }) } else { c }) == (if x * r < c { x * r } else { c }),
{
    if r >= c {
        if x == 0 {
            assert(x * r == 0 && x * c == 0) by (nonlinear_arith)
                requires
                    x == 0,
            ;
        } else {
            assert(x * c >= c && x * r >= c) by (nonlinear_arith)
                requires
                    x >= 1,
                    r >= c,
                    c > 0,
            ;
        }
    }
}

/// A count is at least one.
pub proof fn lemma_counted_positive(s: Seq<usize>)
    ensures
        counted(s) matches Some(n) ==> n >= 1,
{
}

/// The cells of a shape, at least one, when they can be counted in a word.
/// The plain product of a shape's extents, when it fits a machine word.
pub fn raw_count(shape: &Vec<usize>) -> (r: Option<usize>)
    ensures
        r == (if crate::ast::raw_cells(shape@) <= usize::MAX {
            Some(crate::ast::raw_cells(shape@) as usize)
        } else {
            None
        }),
{
    let cap: u128 = (usize::MAX as u128) + 1;
    let mut acc: u128 = 1;
    let mut i: usize = shape.len();
    assert(shape@.skip(shape.len() as int) =~= Seq::<usize>::empty());
    while i > 0
        invariant
            i <= shape.len(),
            cap == usize::MAX + 1,
            acc == (if crate::ast::raw_cells(shape@.skip(i as int)) < cap {
                crate::ast::raw_cells(shape@.skip(i as int))
            } else {
                cap as int
            }),
        decreases i,
    {
        let x = shape[i - 1];
        let ghost r = crate::ast::raw_cells(shape@.skip(i as int));
        proof {
            lemma_raw_nonneg(shape@.skip(i as int));
            assert(shape@.skip(i - 1).drop_first() =~= shape@.skip(i as int));
            assert(shape@.skip(i - 1)[0] == x);
            assert(crate::ast::raw_cells(shape@.skip(i - 1)) == x * r);
            lemma_capped(x as int, r, cap as int);
            assert((x as u128) * acc <= (usize::MAX as u128) * cap) by (nonlinear_arith)
                requires
                    x <= usize::MAX,
                    acc <= cap,
            ;
            assert((usize::MAX as u128) * cap <= u128::MAX) by (nonlinear_arith)
                requires
                    cap == usize::MAX + 1,
                    usize::MAX <= u64::MAX,
            ;
        }
        let prod = (x as u128) * acc;
        acc = if prod < cap {
            prod
        } else {
            cap
        };
        i = i - 1;
    }
    assert(shape@.skip(0) =~= shape@);
    proof {
        lemma_raw_nonneg(shape@);
    }
    if acc >= cap {
        None
    } else {
        Some(acc as usize)
    }
}

pub fn count_cells(shape: &Vec<usize>) -> (r: Option<usize>)
    ensures
        r == counted(shape@),
{
    proof {
        lemma_raw_nonneg(shape@);
    }
    match raw_count(shape) {
        None => None,
        Some(p) => if p < 1 {
            Some(1)
        } else {
            Some(p)
        },
    }
}

// ---------------------------------------------------------------- the circuit

/// What the plan keeps true: every space on a stream has a shape, and each
/// stage's shape can be counted in a machine word.
pub open spec fn plan_ok(st: PlanV) -> bool {
    &&& forall|k: Seq<char>| #[trigger] st.streams.contains_key(k) ==> st.shapes.contains_key(k)
    &&& forall|j: int| 0 <= j < st.stages.len() ==> fits((#[trigger] st.stages[j]).shape)
}

proof fn lemma_inputs_have_shapes(defs: Seq<(Seq<char>, Seq<usize>)>)
    ensures
        forall|k: Seq<char>| #[trigger] input_streams(defs).contains_key(k) ==> declared_shapes(defs).contains_key(k),
    decreases defs.len(),
{
    if defs.len() > 0 {
        lemma_inputs_have_shapes(defs.drop_last());
        assert forall|k: Seq<char>| #[trigger] input_streams(defs).contains_key(k) implies declared_shapes(
            defs,
        ).contains_key(k) by {
            if k != defs.last().0 {
                assert(input_streams(defs.drop_last()).contains_key(k));
            }
        }
    }
}

proof fn lemma_declared_keys(defs: Seq<(Seq<char>, Seq<usize>)>)
    ensures
        forall|j: int| 0 <= j < defs.len() ==> #[trigger] declared_shapes(defs).contains_key(defs[j].0),
    decreases defs.len(),
{
    if defs.len() > 0 {
        lemma_declared_keys(defs.drop_last());
        assert forall|j: int| 0 <= j < defs.len() implies #[trigger] declared_shapes(defs).contains_key(defs[j].0) by {
            if j < defs.len() - 1 {
                assert(defs.drop_last()[j] == defs[j]);
                assert(declared_shapes(defs.drop_last()).contains_key(defs.drop_last()[j].0));
            } else {
                assert(defs[j] == defs.last());
            }
        }
    }
}

proof fn lemma_plan_ok(
    stmts: Seq<StatementV>,
    lines: Seq<usize>,
    i: int,
    st: PlanV,
    tau: u64,
    numbers: Map<Seq<char>, u64>,
)
    requires
        plan_ok(st),
    ensures
        plan_from(stmts, lines, i, st, tau, numbers) matches Ok(r) ==> plan_ok(r) && forall|k: Seq<char>|
            #[trigger] st.shapes.contains_key(k) ==> r.shapes.contains_key(k),
    decreases stmts.len() - i,
{
    if 0 <= i < stmts.len() {
        let line = line_at(lines, i);
        match stmts[i] {
            StatementV::Flow { src, target } => {
                match flow_step(src, target, line, st, tau, numbers) {
                    Ok(next) => {
                        assert(plan_ok(next)) by {
                            assert forall|j: int| 0 <= j < next.stages.len() implies fits(
                                (#[trigger] next.stages[j]).shape,
                            ) by {
                                if j < st.stages.len() {
                                    assert(next.stages[j] == st.stages[j]);
                                }
                            }
                        }
                        assert forall|k: Seq<char>| #[trigger] st.shapes.contains_key(k) implies next.shapes.contains_key(
                            k,
                        ) by {}
                        lemma_plan_ok(stmts, lines, i + 1, next, tau, numbers);
                        if !(target is Equilibrium) {
                            match plan_from(stmts, lines, i + 1, next, tau, numbers) {
                                Ok(r) => {
                                    assert forall|k: Seq<char>| #[trigger] st.shapes.contains_key(k) implies r.shapes.contains_key(
                                        k,
                                    ) by {
                                        assert(next.shapes.contains_key(k));
                                    }
                                },
                                Err(_) => {},
                            }
                        }
                    },
                    Err(_) => {},
                }
            },
            _ => {
                lemma_plan_ok(stmts, lines, i + 1, st, tau, numbers);
            },
        }
    }
}

proof fn lemma_kept_none(names: Seq<Seq<char>>, st: PlanV, i: int)
    requires
        0 <= i <= names.len(),
        kept_inputs(names.take(i), st) is None,
    ensures
        kept_inputs(names, st) is None,
    decreases names.len(),
{
    if i == names.len() {
        assert(names.take(i) =~= names);
    } else {
        assert(names.drop_last().take(i) =~= names.take(i));
        lemma_kept_none(names.drop_last(), st, i);
    }
}

/// The declared names, in order.
pub open spec fn declared_names(stmts: Seq<StatementV>) -> Seq<Seq<char>> {
    declared(stmts).map_values(|d: (Seq<char>, Seq<usize>)| d.0)
}

/// The inputs the circuit keeps: the declared spaces no flow writes, each
/// with its cells, when every count fits a machine word.
pub open spec fn kept_inputs(names: Seq<Seq<char>>, st: PlanV) -> Option<Seq<(Seq<char>, usize)>>
    decreases names.len(),
{
    if names.len() == 0 {
        Some(Seq::empty())
    } else {
        match kept_inputs(names.drop_last(), st) {
            None => None,
            Some(prev) => {
                let n = names.last();
                if st.written.contains(n) {
                    Some(prev)
                } else {
                    match counted(st.shapes[n]) {
                        None => None,
                        Some(c) => Some(prev.push((n, c))),
                    }
                }
            },
        }
    }
}

/// What the emitter produced, as text.
pub struct CircuitV {
    pub module: Seq<char>,
    pub harness: Seq<char>,
    pub inputs: Seq<(Seq<char>, usize)>,
    pub output_cells: usize,
    pub latency: usize,
}

pub open spec fn circuit_view(c: Circuit) -> CircuitV {
    CircuitV {
        module: c.module@,
        harness: c.harness@,
        inputs: c.inputs@.map_values(|p: (String, usize)| (p.0@, p.1)),
        output_cells: c.output_cells,
        latency: c.latency,
    }
}

/// The circuit a program is, or the first thing in it that is not yet a
/// circuit: the pipeline of its flows up to the first `→ =`, whose OUTPUT is
/// the circuit's output and whose undeclared-by-flow spaces are its inputs.
pub open spec fn circuit_of(
    stmts: Seq<StatementV>,
    lines: Seq<usize>,
    tau: u64,
    numbers: Map<Seq<char>, u64>,
) -> Result<CircuitV, DisruptionV> {
    match plan_of(stmts, lines, tau, numbers) {
        Err(d) => Err(d),
        Ok(st) => if !st.streams.contains_key("OUTPUT"@) {
            Err(lacking("a program with no `→ =`"@, 0))
        } else {
            let out_signal = st.streams["OUTPUT"@].0;
            let out_latency = st.streams["OUTPUT"@].1;
            match counted(st.shapes["OUTPUT"@]) {
                None => Err(lacking("a shape whose cells overflow a machine word"@, 0)),
                Some(out_cells) => match kept_inputs(declared_names(stmts), st) {
                    None => Err(lacking("a shape whose cells overflow a machine word"@, 0)),
                    Some(ins) => if sum_cells(ins) > usize::MAX || feed_cells(ins) + out_latency + out_cells + 4
                        > usize::MAX {
                        Err(lacking("a pipeline longer than a machine word"@, 0))
                    } else {
                        Ok(
                            CircuitV {
                                module: module_text(ins, st.stages, out_signal, out_latency, out_cells),
                                harness: harness_text(ins, out_latency, out_cells),
                                inputs: ins,
                                output_cells: out_cells,
                                latency: out_latency,
                            },
                        )
                    },
                },
            }
        },
    }
}

pub(crate) fn contains_name(v: &Vec<String>, x: &String) -> (r: bool)
    ensures
        r == names_of(v@).contains(x@),
{
    let mut i: usize = 0;
    while i < v.len()
        invariant
            i <= v.len(),
            forall|j: int| 0 <= j < i ==> v@[j]@ != x@,
        decreases v.len() - i,
    {
        if v[i] == *x {
            assert(names_of(v@)[i as int] == x@);
            return true;
        }
        i = i + 1;
    }
    assert forall|j: int| 0 <= j < names_of(v@).len() implies names_of(v@)[j] != x@ by {
        assert(names_of(v@)[j] == v@[j]@);
    }
    false
}

fn keep_inputs(names: &Vec<String>, shapes: &ShapeTable, written: &Vec<String>, Ghost(st): Ghost<PlanV>) -> (r: Option<
    Vec<(String, usize)>,
>)
    requires
        st.shapes == shapes@,
        st.written == names_of(written@),
        forall|j: int| 0 <= j < names.len() ==> #[trigger] shapes@.contains_key(names_of(names@)[j]),
    ensures
        match r {
            Some(v) => kept_inputs(names_of(names@), st) == Some(v@.map_values(|p: (String, usize)| (p.0@, p.1))),
            None => kept_inputs(names_of(names@), st) is None,
        },
{
    let ghost all = names_of(names@);
    let mut out: Vec<(String, usize)> = Vec::new();
    let mut i: usize = 0;
    assert(all.take(0) =~= Seq::<Seq<char>>::empty());
    assert(out@.map_values(|p: (String, usize)| (p.0@, p.1)) =~= Seq::<(Seq<char>, usize)>::empty());
    while i < names.len()
        invariant
            i <= names.len(),
            all == names_of(names@),
            st.shapes == shapes@,
            st.written == names_of(written@),
            forall|j: int| 0 <= j < names.len() ==> #[trigger] shapes@.contains_key(all[j]),
            kept_inputs(all.take(i as int), st) == Some(out@.map_values(|p: (String, usize)| (p.0@, p.1))),
        decreases names.len() - i,
    {
        assert(all.take(i + 1).drop_last() =~= all.take(i as int));
        assert(all.take(i + 1).last() == names@[i as int]@);
        let n = &names[i];
        if !contains_name(written, n) {
            let shape: Vec<usize> = match shapes.get(n) {
                Some(sh) => sh,
                None => Vec::new(),
            };
            assert(shapes@.contains_key(all[i as int]));
            match count_cells(&shape) {
                None => {
                    proof {
                        lemma_kept_none(all, st, i + 1);
                    }
                    return None;
                },
                Some(c) => {
                    out.push((n.clone(), c));
                    proof {
                        assert(out@.map_values(|p: (String, usize)| (p.0@, p.1)) =~= out@.drop_last().map_values(
                            |p: (String, usize)| (p.0@, p.1),
                        ).push((n@, c)));
                    }
                },
            }
        }
        i = i + 1;
    }
    assert(all.take(i as int) =~= all);
    Some(out)
}

fn total_cells(ins: &Vec<(String, usize)>) -> (r: Option<usize>)
    ensures
        match r {
            Some(t) => t == sum_cells(ins@.map_values(|p: (String, usize)| (p.0@, p.1))),
            None => sum_cells(ins@.map_values(|p: (String, usize)| (p.0@, p.1))) > usize::MAX,
        },
{
    let ghost all = ins@.map_values(|p: (String, usize)| (p.0@, p.1));
    let mut total: usize = 0;
    let mut i: usize = 0;
    assert(all.take(0) =~= Seq::<(Seq<char>, usize)>::empty());
    while i < ins.len()
        invariant
            i <= ins.len(),
            all == ins@.map_values(|p: (String, usize)| (p.0@, p.1)),
            total == sum_cells(all.take(i as int)),
        decreases ins.len() - i,
    {
        assert(all.take(i + 1).drop_last() =~= all.take(i as int));
        assert(all.take(i + 1).last() == (ins@[i as int].0@, ins@[i as int].1));
        let c = ins[i].1;
        if total > usize::MAX - c {
            proof {
                lemma_sum_prefix(all, i + 1);
            }
            return None;
        }
        total = total + c;
        i = i + 1;
    }
    assert(all.take(i as int) =~= all);
    Some(total)
}

/// Emit the circuit for `block`, or say what in it is not yet a circuit.
/// `tau` holds the bits of the threshold 𝜏, `numbers` those of each
/// literal the program writes.
pub fn emit(block: &ToposBlock, tau: u64, numbers: &NumberBits) -> (r: Result<Circuit, HarmonyDisruption>)
    ensures
        match r {
            Ok(c) => circuit_of(crate::ast::statements_view(block.statements@), block.lines@, tau, numbers@) == Ok::<
                CircuitV,
                DisruptionV,
            >(circuit_view(c)),
            Err(d) => circuit_of(crate::ast::statements_view(block.statements@), block.lines@, tau, numbers@) == Err::<
                CircuitV,
                DisruptionV,
            >(disruption_view(d)),
        },
{
    let ghost stmts = crate::ast::statements_view(block.statements@);
    let (names, _dims, mut shapes, mut streams) = declarations(block);
    let (stages, written) = match build_stages(block, tau, numbers, &mut shapes, &mut streams) {
        Ok(p) => p,
        Err(d) => return Err(d),
    };
    let ghost st = plan_view(shapes, streams, stages@, written@);
    proof {
        lemma_inputs_have_shapes(declared(stmts));
        assert(plan_ok(first_plan(stmts)));
        lemma_plan_ok(stmts, block.lines@, 0, first_plan(stmts), tau, numbers@);
        lemma_declared_keys(declared(stmts));
        assert(names_of(names@) =~= declared_names(stmts));
        assert forall|j: int| 0 <= j < names.len() implies #[trigger] shapes@.contains_key(names_of(names@)[j]) by {
            assert(declared(stmts)[j].0 == names_of(names@)[j]);
            assert(first_plan(stmts).shapes.contains_key(declared(stmts)[j].0));
        }
        assert forall|j: int| 0 <= j < stages.len() implies fits((#[trigger] stages@[j]).shape@) by {
            assert(st.stages[j] == stage_view(stages@[j]));
        }
    }
    let mut output = String::new();
    push_str(&mut output, "OUTPUT");
    assert(output@ =~= "OUTPUT"@);
    let (out_signal, out_latency) = match streams.get(&output) {
        Some(p) => p,
        None => return Err(unsupported("a program with no `→ =`", 0)),
    };
    let out_shape: Vec<usize> = match shapes.get(&output) {
        Some(sh) => sh,
        None => return Err(unsupported("a program with no `→ =`", 0)),
    };
    let out_cells = match count_cells(&out_shape) {
        Some(c) => c,
        None => return Err(unsupported("a shape whose cells overflow a machine word", 0)),
    };
    let ins = match keep_inputs(&names, &shapes, &written, Ghost(st)) {
        Some(v) => v,
        None => return Err(unsupported("a shape whose cells overflow a machine word", 0)),
    };
    let total = match total_cells(&ins) {
        Some(t) => t,
        None => return Err(unsupported("a pipeline longer than a machine word", 0)),
    };
    let feed: usize = if ins.len() == 0 {
        0
    } else {
        ins[0].1
    };
    if out_latency > usize::MAX - 4 || out_cells > usize::MAX - 4 - out_latency || feed > usize::MAX - 4 - out_latency
        - out_cells {
        return Err(unsupported("a pipeline longer than a machine word", 0));
    }
    let module = module_lines(&ins, &stages, &out_signal, out_latency, out_cells);
    let harness = harness_lines(&ins, total, out_latency, out_cells);
    Ok(Circuit { module, harness, inputs: ins, output_cells: out_cells, latency: out_latency })
}

} // verus!
