//! The syntax tree of a ρ program, and the shape algebra every target shares.

use vstd::prelude::*;
use crate::text::str_eq;

verus! {

/// Binary operator kinds.
#[derive(Debug, Clone, Copy, PartialEq, Eq, Structural)]
pub enum BinaryOpKind {
    Add,
    Sub,
    Mul,
    Div,
    Pow,
    Gt,
    Lt,
    Gte,
    Lte,
    Eq,
    /// `⌈` — the greater of the two, element-wise.
    Max,
    /// `⌊` — the lesser of the two, element-wise.
    Min,
    /// `|` — APL's residue: `A | B` is B modulo A, with the sign of A.
    Residue,
}

/// Direction of a neighbourhood shift along one axis.
#[derive(Debug, Clone, Copy, PartialEq, Eq, Structural)]
pub enum ShiftDir {
    /// `▷` reads the preceding cell along the axis.
    Positive,
    /// `▽` reads the following cell along the axis.
    Negative,
}

/// How a reduction folds the cells along an axis. Only associative
/// operators are folds.
#[derive(Debug, Clone, Copy, PartialEq, Eq, Structural)]
pub enum FoldOp {
    Sum,
    Product,
    Max,
    Min,
}

/// The fold an operator names, if it names one.
pub open spec fn fold_of(op: BinaryOpKind) -> Option<FoldOp> {
    match op {
        BinaryOpKind::Add => Some(FoldOp::Sum),
        BinaryOpKind::Mul => Some(FoldOp::Product),
        BinaryOpKind::Gt => Some(FoldOp::Max),
        BinaryOpKind::Lt => Some(FoldOp::Min),
        _ => None,
    }
}

impl FoldOp {
    /// The fold an operator names: `+ × > <`; none for any other.
    pub fn from_op(op: &BinaryOpKind) -> (r: Option<FoldOp>)
        ensures
            r == fold_of(*op),
    {
        match op {
            BinaryOpKind::Add => Some(FoldOp::Sum),
            BinaryOpKind::Mul => Some(FoldOp::Product),
            BinaryOpKind::Gt => Some(FoldOp::Max),
            BinaryOpKind::Lt => Some(FoldOp::Min),
            _ => None,
        }
    }
}

/// A named function applied to every cell.
#[derive(Debug, Clone, Copy, PartialEq, Eq, Structural)]
pub enum BuiltinOp {
    Exp,
    Log,
    Sqrt,
    Sin,
    Cos,
    Abs,
    /// 1 where the operand holds, 0 elsewhere.
    Indicator,
    /// A number in [0, 1) hashed from the value's bits.
    Roll,
    Floor,
    Ceil,
}

/// The name a builtin is written with.
pub open spec fn builtin_name(op: BuiltinOp) -> Seq<char> {
    match op {
        BuiltinOp::Exp => seq!['e', 'x', 'p'],
        BuiltinOp::Log => seq!['l', 'o', 'g'],
        BuiltinOp::Sqrt => seq!['s', 'q', 'r', 't'],
        BuiltinOp::Sin => seq!['s', 'i', 'n'],
        BuiltinOp::Cos => seq!['c', 'o', 's'],
        BuiltinOp::Abs => seq!['a', 'b', 's'],
        BuiltinOp::Indicator => seq!['i', 'n', 'd'],
        BuiltinOp::Roll => seq!['r', 'o', 'l', 'l'],
        BuiltinOp::Floor => seq!['f', 'l', 'o', 'o', 'r'],
        BuiltinOp::Ceil => seq!['c', 'e', 'i', 'l'],
    }
}

/// The builtins a program may call by name.
pub open spec fn callable_builtin(op: BuiltinOp) -> bool {
    !(op is Roll || op is Floor || op is Ceil)
}

/// The builtin a name calls, if any.
pub open spec fn builtin_named(name: Seq<char>) -> Option<BuiltinOp> {
    if exists|op: BuiltinOp| callable_builtin(op) && builtin_name(op) == name {
        Some(choose|op: BuiltinOp| callable_builtin(op) && builtin_name(op) == name)
    } else {
        None
    }
}

/// Each builtin a program may call is found again by its own name, and a
/// name calls a builtin exactly when it is one of exp, log, sqrt, sin, cos,
/// abs and ind.
pub proof fn law_builtin_names_round_trip(op: BuiltinOp, name: Seq<char>)
    ensures
        callable_builtin(op) ==> builtin_named(builtin_name(op)) == Some(op),
        builtin_named(name) is Some <==> (name == seq!['e', 'x', 'p'] || name == seq!['l', 'o', 'g'] || name == seq![
            's',
            'q',
            'r',
            't',
        ] || name == seq!['s', 'i', 'n'] || name == seq!['c', 'o', 's'] || name == seq!['a', 'b', 's'] || name == seq![
            'i',
            'n',
            'd',
        ]),
{
    if callable_builtin(op) {
        assert(callable_builtin(op) && builtin_name(op) == builtin_name(op));
        let c = choose|o: BuiltinOp| callable_builtin(o) && builtin_name(o) == builtin_name(op);
        assert(builtin_name(c) == builtin_name(op));
        if c != op {
            assert(builtin_name(c).len() != builtin_name(op).len() || exists|i: int|
                0 <= i < builtin_name(op).len() && builtin_name(c)[i] != builtin_name(op)[i]) by {
                match c {
                    BuiltinOp::Exp => assert(builtin_name(c)[0] != builtin_name(op)[0] || builtin_name(c)[1] != builtin_name(op)[1] || builtin_name(c).len() != builtin_name(op).len()),
                    BuiltinOp::Log => assert(builtin_name(c)[0] != builtin_name(op)[0] || builtin_name(c).len() != builtin_name(op).len()),
                    BuiltinOp::Sqrt => assert(builtin_name(c)[1] != builtin_name(op)[1] || builtin_name(c).len() != builtin_name(op).len()),
                    BuiltinOp::Sin => assert(builtin_name(c)[1] != builtin_name(op)[1] || builtin_name(c).len() != builtin_name(op).len()),
                    BuiltinOp::Cos => assert(builtin_name(c)[0] != builtin_name(op)[0] || builtin_name(c).len() != builtin_name(op).len()),
                    BuiltinOp::Abs => assert(builtin_name(c)[0] != builtin_name(op)[0] || builtin_name(c).len() != builtin_name(op).len()),
                    BuiltinOp::Indicator => assert(builtin_name(c)[1] != builtin_name(op)[1] || builtin_name(c).len() != builtin_name(op).len()),
                    _ => {},
                }
            }
        }
    }
    let ops = seq![
        BuiltinOp::Exp,
        BuiltinOp::Log,
        BuiltinOp::Sqrt,
        BuiltinOp::Sin,
        BuiltinOp::Cos,
        BuiltinOp::Abs,
        BuiltinOp::Indicator,
    ];
    if builtin_named(name) is Some {
        let c = choose|o: BuiltinOp| callable_builtin(o) && builtin_name(o) == name;
        match c {
            BuiltinOp::Exp => {},
            BuiltinOp::Log => {},
            BuiltinOp::Sqrt => {},
            BuiltinOp::Sin => {},
            BuiltinOp::Cos => {},
            BuiltinOp::Abs => {},
            BuiltinOp::Indicator => {},
            _ => {},
        }
    } else {
        assert forall|k: int| 0 <= k < 7 implies builtin_name(#[trigger] ops[k]) != name by {
            assert(callable_builtin(ops[k]));
        }
        assert(builtin_name(ops[0]) != name);
        assert(builtin_name(ops[1]) != name);
        assert(builtin_name(ops[2]) != name);
        assert(builtin_name(ops[3]) != name);
        assert(builtin_name(ops[4]) != name);
        assert(builtin_name(ops[5]) != name);
        assert(builtin_name(ops[6]) != name);
    }
}

impl BuiltinOp {
    /// Every name that cannot also be a space.
    pub const ALL: [&'static str; 7] = ["exp", "log", "sqrt", "sin", "cos", "abs", "ind"];

    /// The builtin called `name`: exp, log, sqrt, sin, cos, abs or ind.
    pub fn from_name(name: &str) -> (r: Option<BuiltinOp>)
        ensures
            r == builtin_named(name@),
            r matches Some(op) ==> callable_builtin(op) && builtin_name(op) == name@,
    {
        let candidates = [
            BuiltinOp::Exp,
            BuiltinOp::Log,
            BuiltinOp::Sqrt,
            BuiltinOp::Sin,
            BuiltinOp::Cos,
            BuiltinOp::Abs,
            BuiltinOp::Indicator,
        ];
        let mut i: usize = 0;
        while i < 7
            invariant
                0 <= i <= 7,
                candidates@ == seq![
                    BuiltinOp::Exp,
                    BuiltinOp::Log,
                    BuiltinOp::Sqrt,
                    BuiltinOp::Sin,
                    BuiltinOp::Cos,
                    BuiltinOp::Abs,
                    BuiltinOp::Indicator,
                ],
                forall|j: int| 0 <= j < i ==> builtin_name(#[trigger] candidates@[j]) != name@,
            decreases 7 - i,
        {
            let op = candidates[i];
            if str_eq(name, op.name()) {
                proof {
                    lemma_builtin_names_distinct(op);
                }
                return Some(op);
            }
            i = i + 1;
        }
        proof {
            assert forall|op: BuiltinOp| callable_builtin(op) implies builtin_name(op) != name@ by {
                match op {
                    BuiltinOp::Exp => assert(candidates@[0] == op),
                    BuiltinOp::Log => assert(candidates@[1] == op),
                    BuiltinOp::Sqrt => assert(candidates@[2] == op),
                    BuiltinOp::Sin => assert(candidates@[3] == op),
                    BuiltinOp::Cos => assert(candidates@[4] == op),
                    BuiltinOp::Abs => assert(candidates@[5] == op),
                    BuiltinOp::Indicator => assert(candidates@[6] == op),
                    _ => {},
                }
            }
        }
        None
    }

    /// The name the builtin is written with.
    pub fn name(self) -> (r: &'static str)
        ensures
            r@ == builtin_name(self),
    {
        match self {
            BuiltinOp::Exp => {
                proof { reveal_strlit("exp"); }
                "exp"
            },
            BuiltinOp::Log => {
                proof { reveal_strlit("log"); }
                "log"
            },
            BuiltinOp::Sqrt => {
                proof { reveal_strlit("sqrt"); }
                "sqrt"
            },
            BuiltinOp::Sin => {
                proof { reveal_strlit("sin"); }
                "sin"
            },
            BuiltinOp::Cos => {
                proof { reveal_strlit("cos"); }
                "cos"
            },
            BuiltinOp::Abs => {
                proof { reveal_strlit("abs"); }
                "abs"
            },
            BuiltinOp::Indicator => {
                proof { reveal_strlit("ind"); }
                "ind"
            },
            BuiltinOp::Roll => {
                proof { reveal_strlit("roll"); }
                "roll"
            },
            BuiltinOp::Floor => {
                proof { reveal_strlit("floor"); }
                "floor"
            },
            BuiltinOp::Ceil => {
                proof { reveal_strlit("ceil"); }
                "ceil"
            },
        }
    }
}

/// No two builtins share a name.
pub proof fn lemma_builtin_names_distinct(op: BuiltinOp)
    ensures
        forall|other: BuiltinOp| #[trigger] builtin_name(other) == builtin_name(op) ==> other == op,
{
    assert forall|other: BuiltinOp| #[trigger] builtin_name(other) == builtin_name(op) implies other == op by {
        if other != op {
            let a = builtin_name(other);
            let b = builtin_name(op);
            assert(a.len() != b.len() || a[0] != b[0] || a[1] != b[1] || a[2] != b[2]);
        }
    }
}

} // verus!

verus! {

// ---------------------------------------------------------------- shape algebra

/// An extent counted as at least one cell: what `d.max(1)` gives.
pub open spec fn max1(d: usize) -> int {
    if d == 0 {
        1
    } else {
        d as int
    }
}

/// The cells of a shape, each extent counted as at least one.
pub open spec fn cells(s: Seq<usize>) -> int
    decreases s.len(),
{
    if s.len() == 0 {
        1
    } else {
        max1(s[0]) * cells(s.drop_first())
    }
}

/// The plain product of a shape's extents.
pub open spec fn raw_cells(s: Seq<usize>) -> int
    decreases s.len(),
{
    if s.len() == 0 {
        1
    } else {
        s[0] * raw_cells(s.drop_first())
    }
}

/// The row-major stride of axis `k`: the cells of the axes inside it.
pub open spec fn stride(s: Seq<usize>, k: int) -> int {
    cells(s.skip(k + 1))
}

/// A shape whose cells can be counted in a machine word.
pub open spec fn fits(s: Seq<usize>) -> bool {
    &&& cells(s) <= usize::MAX
    &&& cells(s) <= i64::MAX
}

/// `(max1(s[k]) - 1) * stride(s, k)` summed over the first `n` axes: the
/// flat index of the last cell, counted axis by axis.
pub open spec fn radix_max(s: Seq<usize>, n: int) -> int
    decreases n,
{
    if n <= 0 {
        0
    } else {
        radix_max(s, n - 1) + (max1(s[n - 1]) - 1) * stride(s, n - 1)
    }
}

pub proof fn lemma_cells_pos(s: Seq<usize>)
    ensures
        cells(s) >= 1,
    decreases s.len(),
{
    if s.len() > 0 {
        lemma_cells_pos(s.drop_first());
        vstd::arithmetic::mul::lemma_mul_strictly_positive(max1(s[0]), cells(s.drop_first()));
    }
}

/// Peeling axis `k` off the front of `s.skip(k)`.
pub proof fn lemma_cells_skip(s: Seq<usize>, k: int)
    requires
        0 <= k < s.len(),
    ensures
        cells(s.skip(k)) == max1(s[k]) * cells(s.skip(k + 1)),
{
    assert(s.skip(k).drop_first() =~= s.skip(k + 1));
    assert(s.skip(k)[0] == s[k]);
}

/// Dropping outer axes never adds cells.
pub proof fn lemma_cells_skip_mono(s: Seq<usize>, i: int, j: int)
    requires
        0 <= i <= j <= s.len(),
    ensures
        1 <= cells(s.skip(j)) <= cells(s.skip(i)),
    decreases j - i,
{
    lemma_cells_pos(s.skip(j));
    if i < j {
        lemma_cells_skip_mono(s, i + 1, j);
        lemma_cells_skip(s, i);
        lemma_cells_pos(s.skip(i + 1));
        vstd::arithmetic::mul::lemma_mul_inequality(1, max1(s[i]), cells(s.skip(i + 1)));
    }
}

/// Every stride is at least one and at most the shape's cells.
pub proof fn lemma_stride_bounds(s: Seq<usize>, k: int)
    requires
        0 <= k < s.len(),
    ensures
        1 <= stride(s, k) <= cells(s),
{
    assert(s.skip(0) =~= s);
    lemma_cells_skip_mono(s, 0, k + 1);
}

/// The mixed-radix digits at their largest sum to one less than the cells.
pub proof fn lemma_radix_max(s: Seq<usize>, n: int)
    requires
        0 <= n <= s.len(),
    ensures
        radix_max(s, n) == cells(s) - cells(s.skip(n)),
        radix_max(s, n) >= 0,
    decreases n,
{
    if n == 0 {
        assert(s.skip(0) =~= s);
    } else {
        lemma_radix_max(s, n - 1);
        lemma_cells_skip(s, n - 1);
        lemma_cells_skip_mono(s, n, s.len() as int);
        vstd::arithmetic::mul::lemma_mul_is_distributive_sub_other_way(
            cells(s.skip(n)),
            max1(s[n - 1]),
            1,
        );
        assert(s.skip(0) =~= s);
        lemma_cells_skip_mono(s, 0, n);
    }
}

/// The plain product never exceeds the product with every extent counted
/// at least once.
pub proof fn lemma_raw_cells_bound(s: Seq<usize>)
    ensures
        0 <= raw_cells(s) <= cells(s),
    decreases s.len(),
{
    if s.len() > 0 {
        lemma_raw_cells_bound(s.drop_first());
        vstd::arithmetic::mul::lemma_mul_upper_bound(
            s[0] as int,
            max1(s[0]),
            raw_cells(s.drop_first()),
            cells(s.drop_first()),
        );
        vstd::arithmetic::mul::lemma_mul_nonnegative(s[0] as int, raw_cells(s.drop_first()));
    }
}

pub proof fn lemma_raw_cells_skip(s: Seq<usize>, k: int)
    requires
        0 <= k < s.len(),
    ensures
        raw_cells(s.skip(k)) == s[k] * raw_cells(s.skip(k + 1)),
{
    assert(s.skip(k).drop_first() =~= s.skip(k + 1));
    assert(s.skip(k)[0] == s[k]);
}

/// Row-major strides for a shape.
pub fn strides_of(shape: &[usize]) -> (r: Vec<usize>)
    requires
        cells(shape@) <= usize::MAX,
    ensures
        r.len() == shape.len(),
        forall|k: int| 0 <= k < shape.len() ==> r@[k] == stride(shape@, k),
{
    let n = shape.len();
    let mut strides: Vec<usize> = Vec::new();
    let mut i: usize = 0;
    while i < n
        invariant
            i <= n,
            strides.len() == i,
        decreases n - i,
    {
        strides.push(1);
        i = i + 1;
    }
    let mut k: usize = n;
    while k > 0
        invariant
            k <= n,
            n == shape.len(),
            strides.len() == n,
            cells(shape@) <= usize::MAX,
            forall|j: int| k <= j < n ==> strides@[j] == stride(shape@, j),
        decreases k,
    {
        let j = k - 1;
        if j + 1 == n {
            proof {
                assert(shape@.skip(j + 1) =~= Seq::<usize>::empty());
            }
            strides.set(j, 1);
        } else {
            let extent = if shape[j + 1] == 0 { 1 } else { shape[j + 1] };
            proof {
                lemma_cells_skip(shape@, j + 1);
                lemma_stride_bounds(shape@, j as int);
            }
            let next = strides[j + 1];
            strides.set(j, extent * next);
        }
        k = j;
    }
    strides
}

/// The last axis with more than one cell among the first `n`.
pub open spec fn widest_before(s: Seq<usize>, n: int) -> Option<int>
    decreases n,
{
    if n <= 0 {
        None
    } else if s[n - 1] > 1 {
        Some(n - 1)
    } else {
        widest_before(s, n - 1)
    }
}

/// The axis a bare `▷` or `◇` works on: the innermost with more than one
/// cell, or the last axis when there is none (0 for an empty shape).
pub open spec fn default_axis_of(s: Seq<usize>) -> int {
    match widest_before(s, s.len() as int) {
        Some(a) => a,
        None => if s.len() == 0 {
            0
        } else {
            s.len() - 1
        },
    }
}

/// The axis a bare `▷` / `◇` operates on: the innermost with more than one cell.
pub fn default_axis(shape: &[usize]) -> (r: usize)
    ensures
        r == default_axis_of(shape@),
{
    let mut k: usize = shape.len();
    while k > 0
        invariant
            k <= shape.len(),
            widest_before(shape@, shape.len() as int) == widest_before(shape@, k as int),
        decreases k,
    {
        if shape[k - 1] > 1 {
            return k - 1;
        }
        k = k - 1;
    }
    if shape.len() == 0 {
        0
    } else {
        shape.len() - 1
    }
}

/// The geometry of one axis: `(stride, extent)`, where the stride is the
/// plain product of the inner extents, at least one.
pub open spec fn geometry_of(s: Seq<usize>, axis: Option<usize>) -> Option<(usize, usize)> {
    if s.len() == 0 {
        None
    } else {
        let a = match axis {
            Some(a) => a as int,
            None => default_axis_of(s),
        };
        if a >= s.len() {
            None
        } else {
            let p = raw_cells(s.skip(a + 1));
            Some((if p < 1 { 1usize } else { p as usize }, s[a]))
        }
    }
}

/// Geometry of one axis of a row-major shape: `(stride, extent)`. A bare
/// axis selects the innermost axis that has more than one cell; `None` when
/// the shape is empty or the axis is out of range.
pub fn axis_geometry(shape: &[usize], axis: Option<usize>) -> (r: Option<(usize, usize)>)
    requires
        cells(shape@) <= usize::MAX,
    ensures
        r == geometry_of(shape@, axis),
{
    if shape.len() == 0 {
        return None;
    }
    let a = match axis {
        Some(a) => a,
        None => default_axis(shape),
    };
    if a >= shape.len() {
        return None;
    }
    let n = shape.len();
    let mut p: usize = 1;
    let mut j: usize = n;
    proof {
        assert(shape@.skip(n as int) =~= Seq::<usize>::empty());
    }
    while j > a + 1
        invariant
            a + 1 <= j <= n,
            n == shape.len(),
            a < n,
            cells(shape@) <= usize::MAX,
            p == raw_cells(shape@.skip(j as int)),
        decreases j,
    {
        proof {
            lemma_raw_cells_skip(shape@, j - 1);
            lemma_raw_cells_bound(shape@.skip(j - 1));
            assert(shape@.skip(0) =~= shape@);
            lemma_cells_skip_mono(shape@, 0, j - 1);
        }
        p = shape[j - 1] * p;
        j = j - 1;
    }
    let stride = if p < 1 { 1 } else { p };
    Some((stride, shape[a]))
}

/// The shape with a length-1 axis inserted at `axis`.
pub fn shape_with_unit_axis(shape: &[usize], axis: usize) -> (r: Option<Vec<usize>>)
    ensures
        axis > shape.len() ==> r is None,
        axis <= shape.len() ==> (r matches Some(v) && v@ == shape@.insert(axis as int, 1usize)),
{
    if axis > shape.len() {
        return None;
    }
    let mut out: Vec<usize> = Vec::new();
    let mut i: usize = 0;
    while i < shape.len()
        invariant
            i <= shape.len(),
            axis <= shape.len(),
            out@ == (if i <= axis {
                shape@.subrange(0, i as int)
            } else {
                shape@.subrange(0, i as int).insert(axis as int, 1usize)
            }),
        decreases shape.len() - i,
    {
        if i == axis {
            out.push(1);
        }
        out.push(shape[i]);
        i = i + 1;
        proof {
            if i <= axis {
                assert(out@ =~= shape@.subrange(0, i as int));
            } else {
                assert(out@ =~= shape@.subrange(0, i as int).insert(axis as int, 1usize));
            }
        }
    }
    if axis == shape.len() {
        out.push(1);
    }
    proof {
        assert(shape@.subrange(0, shape.len() as int) =~= shape@);
        assert(out@ =~= shape@.insert(axis as int, 1usize));
    }
    Some(out)
}

/// The extent two operands stretch to along one axis, if they can.
pub open spec fn stretch(x: usize, y: usize) -> Option<usize> {
    if x == y {
        Some(x)
    } else if x == 1 {
        Some(y)
    } else if y == 1 {
        Some(x)
    } else {
        None
    }
}

/// Whether two shapes broadcast: equal ranks, and every pair of extents
/// equal or one of them 1.
pub open spec fn broadcasts(a: Seq<usize>, b: Seq<usize>) -> bool {
    a.len() == b.len() && forall|i: int| 0 <= i < a.len() ==> (#[trigger] stretch(a[i], b[i])) is Some
}

/// The shape two broadcasting operands stretch to.
pub open spec fn broadcast_dims(a: Seq<usize>, b: Seq<usize>) -> Seq<usize> {
    Seq::new(a.len(), |i: int| stretch(a[i], b[i])->0)
}

/// The shape an element-wise operation produces from two operands: equal
/// ranks, with a length-1 axis stretching against a longer one.
pub fn broadcast_shapes(a: &[usize], b: &[usize]) -> (r: Option<Vec<usize>>)
    ensures
        r is Some <==> broadcasts(a@, b@),
        r matches Some(v) ==> v.len() == a.len() && forall|i: int|
            0 <= i < a.len() ==> stretch(a@[i], b@[i]) == Some(#[trigger] v@[i]),
        r matches Some(v) ==> v@ == broadcast_dims(a@, b@),
{
    if a.len() != b.len() {
        return None;
    }
    let mut out: Vec<usize> = Vec::new();
    let mut i: usize = 0;
    while i < a.len()
        invariant
            a.len() == b.len(),
            i <= a.len(),
            out.len() == i,
            forall|j: int| 0 <= j < i ==> stretch(a@[j], b@[j]) == Some(#[trigger] out@[j]),
        decreases a.len() - i,
    {
        let x = a[i];
        let y = b[i];
        if x == y {
            out.push(x);
        } else if x == 1 {
            out.push(y);
        } else if y == 1 {
            out.push(x);
        } else {
            assert(stretch(a@[i as int], b@[i as int]) is None);
            return None;
        }
        i = i + 1;
    }
    assert forall|j: int| 0 <= j < a.len() implies (#[trigger] stretch(a@[j], b@[j])) is Some by {
        assert(stretch(a@[j], b@[j]) == Some(out@[j]));
    }
    assert(out@ =~= broadcast_dims(a@, b@));
    Some(out)
}

/// The shape left after folding away `axis`: a rank-1 space collapses to a
/// single cell rather than to rank 0.
pub open spec fn without_axis(s: Seq<usize>, axis: int) -> Seq<usize> {
    if s.len() <= 1 {
        seq![1usize]
    } else {
        s.remove(axis)
    }
}

/// The shape left after folding away `axis`.
pub fn shape_without_axis(shape: &[usize], axis: usize) -> (r: Vec<usize>)
    requires
        shape.len() > 1 ==> axis < shape.len(),
    ensures
        r@ == without_axis(shape@, axis as int),
{
    if shape.len() <= 1 {
        let mut one: Vec<usize> = Vec::new();
        one.push(1);
        assert(one@ =~= seq![1usize]);
        return one;
    }
    let mut out: Vec<usize> = Vec::new();
    let mut i: usize = 0;
    while i < shape.len()
        invariant
            axis < shape.len(),
            i <= shape.len(),
            out@ == (if i <= axis {
                shape@.subrange(0, i as int)
            } else {
                shape@.subrange(0, i as int).remove(axis as int)
            }),
        decreases shape.len() - i,
    {
        if i != axis {
            out.push(shape[i]);
        }
        i = i + 1;
        proof {
            if i <= axis {
                assert(out@ =~= shape@.subrange(0, i as int));
            } else {
                assert(out@ =~= shape@.subrange(0, i as int).remove(axis as int));
            }
        }
    }
    assert(shape@.subrange(0, shape.len() as int) =~= shape@);
    out
}

} // verus!

verus! {

// ---------------------------------------------------------------- transpose

/// Whether `p` sends the axes `0..n` one-to-one onto `0..n`.
pub open spec fn is_permutation(p: Seq<usize>, n: int) -> bool {
    &&& p.len() == n
    &&& forall|i: int| 0 <= i < n ==> (#[trigger] p[i]) < n
    &&& forall|i: int, j: int| 0 <= i < j < n ==> p[i] != p[j]
}

/// The axes in reverse order: what `⍉` alone applies.
pub open spec fn reversed_axes(rank: int) -> Seq<usize> {
    Seq::new(rank as nat, |i: int| (rank - 1 - i) as usize)
}

/// The permutation a transpose asks for: the one written, or the reversal.
pub open spec fn asked_axes(rank: int, axes: Option<Seq<usize>>) -> Seq<usize> {
    match axes {
        Some(w) => w,
        None => reversed_axes(rank),
    }
}

/// The source axis that lands on result axis `j`.
pub open spec fn place_of(perm: Seq<usize>, j: int) -> int {
    choose|k: int| 0 <= k < perm.len() && perm[k] == j
}

/// The shape a transpose produces: source axis `k` becomes result axis
/// `perm[k]`.
pub open spec fn transposed_dims(s: Seq<usize>, perm: Seq<usize>) -> Seq<usize> {
    Seq::new(s.len(), |j: int| s[place_of(perm, j)])
}

/// A permutation reaches every axis, and `place_of` inverts it.
pub proof fn lemma_permutation_inverse(perm: Seq<usize>, n: int)
    requires
        is_permutation(perm, n),
    ensures
        forall|j: int|
            0 <= j < n ==> 0 <= #[trigger] place_of(perm, j) < n && perm[place_of(perm, j)] == j,
        forall|k: int| 0 <= k < n ==> place_of(perm, #[trigger] perm[k] as int) == k,
{
    let dom = vstd::set_lib::set_int_range(0, n);
    let f = |k: int| perm[k] as int;
    vstd::set_lib::lemma_int_range(0, n);
    assert(vstd::relations::injective_on(f, dom)) by {
        assert forall|x: int, y: int| dom.contains(x) && dom.contains(y) && #[trigger] f(x) == #[trigger] f(y) implies x == y by {
            if x < y {
                assert(perm[x] != perm[y]);
            } else if y < x {
                assert(perm[y] != perm[x]);
            }
        }
    }
    let img = dom.map(f);
    vstd::set_lib::lemma_map_size(dom, img, f);
    assert(img.subset_of(dom)) by {
        assert forall|j: int| img.contains(j) implies dom.contains(j) by {
            let k = choose|k: int| dom.contains(k) && f(k) == j;
            assert(perm[k] < n);
        }
    }
    vstd::set_lib::lemma_subset_equality(img, dom);
    assert forall|j: int| 0 <= j < n implies 0 <= #[trigger] place_of(perm, j) < n && perm[place_of(perm, j)] == j by {
        assert(dom.contains(j));
        assert(img.contains(j));
        let k = choose|k: int| dom.contains(k) && f(k) == j;
        assert(0 <= k < perm.len() && perm[k] == j);
    }
    assert forall|k: int| 0 <= k < n implies place_of(perm, #[trigger] perm[k] as int) == k by {
        let j = perm[k] as int;
        assert(0 <= k < perm.len() && perm[k] == j);
        let c = place_of(perm, j);
        if c != k {
            if c < k {
                assert(perm[c] != perm[k]);
            } else {
                assert(perm[k] != perm[c]);
            }
        }
    }
}

/// The permutation a transpose applies: the one written, or the reversal of
/// the axes when none was. None when what was written is not a permutation
/// of the operand's axes.
pub fn transpose_axes(rank: usize, axes: Option<&[usize]>) -> (r: Option<Vec<usize>>)
    ensures
        ({
            let asked = asked_axes(rank as int, match axes {
                Some(w) => Some(w@),
                None => None,
            });
            &&& r is Some <==> is_permutation(asked, rank as int)
            &&& r matches Some(p) ==> p@ == asked
        }),
{
    let ghost asked = asked_axes(rank as int, match axes {
        Some(w) => Some(w@),
        None => None,
    });
    let mut perm: Vec<usize> = Vec::new();
    match axes {
        Some(written) => {
            let mut i: usize = 0;
            while i < written.len()
                invariant
                    i <= written.len(),
                    perm@ == written@.subrange(0, i as int),
                decreases written.len() - i,
            {
                perm.push(written[i]);
                i = i + 1;
                assert(perm@ =~= written@.subrange(0, i as int));
            }
            assert(perm@ =~= written@);
        },
        None => {
            let mut i: usize = 0;
            while i < rank
                invariant
                    i <= rank,
                    perm.len() == i,
                    forall|j: int| 0 <= j < i ==> perm@[j] == (rank - 1 - j) as usize,
                decreases rank - i,
            {
                perm.push(rank - 1 - i);
                i = i + 1;
            }
            assert(perm@ =~= reversed_axes(rank as int));
        },
    }
    assert(perm@ == asked);
    if perm.len() != rank {
        return None;
    }
    let mut seen: Vec<bool> = Vec::new();
    let mut i: usize = 0;
    while i < rank
        invariant
            i <= rank,
            seen.len() == i,
            forall|j: int| 0 <= j < i ==> !seen@[j],
        decreases rank - i,
    {
        seen.push(false);
        i = i + 1;
    }
    let mut k: usize = 0;
    while k < rank
        invariant
            k <= rank,
            perm.len() == rank,
            perm@ == asked,
            asked == asked_axes(rank as int, match axes {
                Some(w) => Some(w@),
                None => None,
            }),
            seen.len() == rank,
            forall|j: int| 0 <= j < k ==> (#[trigger] perm@[j]) < rank && seen@[perm@[j] as int],
            forall|x: int| 0 <= x < rank && seen@[x] ==> exists|j: int| 0 <= j < k && perm@[j] == x,
            forall|a: int, b: int| 0 <= a < b < k ==> perm@[a] != perm@[b],
        decreases rank - k,
    {
        let axis = perm[k];
        if axis >= rank {
            assert(asked[k as int] >= rank);
            return None;
        }
        if seen[axis] {
            proof {
                let j = choose|j: int| 0 <= j < k && perm@[j] == axis;
                assert(asked[j] == asked[k as int]);
                assert(!is_permutation(asked, rank as int));
            }
            return None;
        }
        seen.set(axis, true);
        proof {
            assert forall|x: int| 0 <= x < rank && seen@[x] implies exists|j: int| 0 <= j < k + 1 && perm@[j] == x by {
                if x == axis {
                    assert(perm@[k as int] == x);
                } else {
                    let j = choose|j: int| 0 <= j < k && perm@[j] == x;
                    assert(0 <= j < k + 1 && perm@[j] == x);
                }
            }
            assert forall|a: int, b: int| 0 <= a < b < k + 1 implies perm@[a] != perm@[b] by {
                if b == k {
                    assert(seen@[perm@[a] as int] || a == k);
                }
            }
        }
        k = k + 1;
    }
    Some(perm)
}

/// The shape a permutation arranges: `out[perm[k]] = shape[k]`.
fn permute_shape(shape: &[usize], perm: &[usize]) -> (out: Vec<usize>)
    requires
        is_permutation(perm@, shape.len() as int),
    ensures
        out@ == transposed_dims(shape@, perm@),
        forall|k: int| 0 <= k < shape.len() ==> out@[#[trigger] perm@[k] as int] == shape@[k],
{
    let n = shape.len();
    let mut out: Vec<usize> = Vec::new();
    let mut i: usize = 0;
    while i < n
        invariant
            i <= n,
            out.len() == i,
        decreases n - i,
    {
        out.push(0);
        i = i + 1;
    }
    let mut k: usize = 0;
    while k < n
        invariant
            k <= n,
            n == shape.len(),
            out.len() == n,
            is_permutation(perm@, n as int),
            forall|j: int| 0 <= j < k ==> out@[#[trigger] perm@[j] as int] == shape@[j],
        decreases n - k,
    {
        let target = perm[k];
        out.set(target, shape[k]);
        proof {
            assert forall|j: int| 0 <= j < k + 1 implies out@[#[trigger] perm@[j] as int] == shape@[j] by {
                if j < k {
                    assert(perm@[j] != perm@[k as int]);
                }
            }
        }
        k = k + 1;
    }
    proof {
        lemma_permutation_inverse(perm@, n as int);
        assert forall|j: int| 0 <= j < n implies out@[j] == transposed_dims(shape@, perm@)[j] by {
            let k = place_of(perm@, j);
            assert(perm@[k] == j);
        }
        assert(out@ =~= transposed_dims(shape@, perm@));
    }
    out
}

/// The shape a transpose produces: source axis `k` becomes result axis
/// `perm[k]`. None when the axes written are not a permutation.
pub fn transposed_shape(shape: &[usize], axes: Option<&[usize]>) -> (r: Option<Vec<usize>>)
    ensures
        ({
            let asked = asked_axes(shape.len() as int, match axes {
                Some(w) => Some(w@),
                None => None,
            });
            &&& r is Some <==> is_permutation(asked, shape.len() as int)
            &&& r matches Some(v) ==> v@ == transposed_dims(shape@, asked)
        }),
{
    let perm = transpose_axes(shape.len(), axes);
    match perm {
        None => None,
        Some(p) => Some(permute_shape(shape, p.as_slice())),
    }
}

/// The term axis `k` adds to the flat source index of transposed cell `flat`.
pub open spec fn transposed_term(s: Seq<usize>, perm: Seq<usize>, flat: int, k: int) -> int {
    let t = transposed_dims(s, perm);
    let a = perm[k] as int;
    ((flat / stride(t, a)) % max1(t[a])) * stride(s, k)
}

/// The first `n` terms of a transposed cell's source index.
pub open spec fn transposed_sum(s: Seq<usize>, perm: Seq<usize>, flat: int, n: int) -> int
    decreases n,
{
    if n <= 0 {
        0
    } else {
        transposed_sum(s, perm, flat, n - 1) + transposed_term(s, perm, flat, n - 1)
    }
}

/// A coordinate below its extent, times the axis's stride, is at most the
/// axis's largest digit.
pub proof fn lemma_digit_bound(c: int, extent: int, st: int)
    requires
        0 <= c < extent,
        st >= 1,
    ensures
        0 <= c * st <= (extent - 1) * st,
{
    vstd::arithmetic::mul::lemma_mul_inequality(c, extent - 1, st);
    vstd::arithmetic::mul::lemma_mul_nonnegative(c, st);
}

/// The flat source index a transposed cell reads: `result[j] = X[i]` with
/// `i[k] = j[perm[k]]`.
pub fn transposed_source(shape: &[usize], perm: &[usize], flat_result: usize) -> (r: usize)
    requires
        is_permutation(perm@, shape.len() as int),
        fits(shape@),
        fits(transposed_dims(shape@, perm@)),
    ensures
        r == transposed_sum(shape@, perm@, flat_result as int, shape.len() as int),
        r < cells(shape@),
{
    let result_shape = permute_shape(shape, perm);
    let result_strides = strides_of(result_shape.as_slice());
    let source_strides = strides_of(shape);
    let n = shape.len();
    let ghost t = transposed_dims(shape@, perm@);
    let mut total: usize = 0;
    let mut k: usize = 0;
    proof {
        lemma_radix_max(shape@, n as int);
        assert(shape@.skip(n as int) =~= Seq::<usize>::empty());
    }
    while k < n
        invariant
            k <= n,
            n == shape.len(),
            result_shape@ == t,
            t == transposed_dims(shape@, perm@),
            t.len() == n,
            result_strides.len() == n,
            source_strides.len() == n,
            is_permutation(perm@, n as int),
            fits(shape@),
            forall|j: int| 0 <= j < n ==> result_strides@[j] == stride(t, j),
            forall|j: int| 0 <= j < n ==> source_strides@[j] == stride(shape@, j),
            forall|j: int| 0 <= j < n ==> result_shape@[#[trigger] perm@[j] as int] == shape@[j],
            total == transposed_sum(shape@, perm@, flat_result as int, k as int),
            total <= radix_max(shape@, k as int),
            radix_max(shape@, n as int) == cells(shape@) - 1,
        decreases n - k,
    {
        let a = perm[k];
        let extent = if result_shape[a] == 0 { 1 } else { result_shape[a] };
        proof {
            lemma_stride_bounds(t, a as int);
            lemma_stride_bounds(shape@, k as int);
            lemma_radix_max(shape@, k + 1);
        }
        let coord = (flat_result / result_strides[a]) % extent;
        proof {
            lemma_digit_bound(coord as int, max1(shape@[k as int]), stride(shape@, k as int));
            lemma_radix_max(shape@, n as int);
            lemma_radix_monotone(shape@, k + 1, n as int);
        }
        total = total + coord * source_strides[k];
        k = k + 1;
    }
    total
}

/// The largest digits summed over more axes are no smaller.
pub proof fn lemma_radix_monotone(s: Seq<usize>, i: int, j: int)
    requires
        0 <= i <= j <= s.len(),
    ensures
        radix_max(s, i) <= radix_max(s, j),
    decreases j - i,
{
    if i < j {
        lemma_radix_monotone(s, i, j - 1);
        lemma_cells_skip_mono(s, j, s.len() as int);
        vstd::arithmetic::mul::lemma_mul_nonnegative(max1(s[j - 1]) - 1, stride(s, j - 1));
    }
}

} // verus!

verus! {

// ---------------------------------------------------------------- take and drop

/// `|count|` as a mathematical integer.
pub open spec fn magnitude(count: i64) -> int {
    if count < 0 {
        -(count as int)
    } else {
        count as int
    }
}

/// `|count|`, for a count that has one.
pub fn magnitude_of(count: i64) -> (r: i64)
    requires
        count > i64::MIN,
    ensures
        r == magnitude(count),
        r >= 0,
{
    if count < 0 {
        -count
    } else {
        count
    }
}

/// The shape a take (or, `dropping`, a drop) of `count` along `axis` leaves;
/// None when the axis is out of range or nothing would be left. The extent is
/// read as a signed 64-bit count, as the cells of a grid always are.
pub open spec fn taken_dims(s: Seq<usize>, axis: Option<usize>, count: i64, dropping: bool) -> Option<Seq<usize>> {
    let a = match axis {
        Some(a) => a as int,
        None => default_axis_of(s),
    };
    if a >= s.len() {
        None
    } else {
        let kept = if dropping {
            (s[a] as i64) as int - magnitude(count)
        } else {
            magnitude(count)
        };
        if kept <= 0 {
            None
        } else {
            Some(s.update(a, kept as usize))
        }
    }
}

/// An extent is at most the cells of its shape.
pub proof fn lemma_extent_bound(s: Seq<usize>, k: int)
    requires
        0 <= k < s.len(),
    ensures
        s[k] <= max1(s[k]) <= cells(s),
{
    lemma_cells_skip(s, k);
    lemma_cells_pos(s.skip(k + 1));
    vstd::arithmetic::mul::lemma_mul_inequality(1, cells(s.skip(k + 1)), max1(s[k]));
    assert(s.skip(0) =~= s);
    lemma_cells_skip_mono(s, 0, k);
}

/// The shape a take (or, `dropping`, a drop) of `count` along `axis` leaves.
/// None when the axis is out of range or nothing would be left.
pub fn taken_shape(shape: &[usize], axis: Option<usize>, count: i64, dropping: bool) -> (r: Option<Vec<usize>>)
    ensures
        match r {
            Some(v) => taken_dims(shape@, axis, count, dropping) == Some(v@),
            None => taken_dims(shape@, axis, count, dropping) is None,
        },
{
    let a = match axis {
        Some(a) => a,
        None => default_axis(shape),
    };
    if a >= shape.len() {
        return None;
    }
    let extent = (shape[a] as i64) as i128;
    let size = if count < 0 {
        -(count as i128)
    } else {
        count as i128
    };
    let kept: i128 = if dropping {
        extent - size
    } else {
        size
    };
    if kept <= 0 {
        return None;
    }
    let mut out: Vec<usize> = Vec::new();
    let mut i: usize = 0;
    while i < shape.len()
        invariant
            i <= shape.len(),
            a < shape.len(),
            kept > 0,
            out@ == shape@.update(a as int, kept as usize).subrange(0, i as int),
        decreases shape.len() - i,
    {
        if i == a {
            out.push(kept as usize);
        } else {
            out.push(shape[i]);
        }
        i = i + 1;
        assert(out@ =~= shape@.update(a as int, kept as usize).subrange(0, i as int));
    }
    assert(out@ =~= shape@.update(a as int, kept as usize));
    Some(out)
}

/// Where a take or drop reads along its axis: the offset added to a result
/// position to reach the source position.
pub open spec fn take_offset(extent: int, count: i64, dropping: bool) -> int {
    if dropping {
        if count >= 0 {
            count as int
        } else {
            0
        }
    } else {
        if count >= 0 {
            0
        } else {
            extent - magnitude(count)
        }
    }
}

/// Where a take or drop reads along its axis: a drop of the first k starts k
/// in; a take of the last |k| starts |k| before the end, which is negative —
/// and so padded — when the take is longer than the axis.
pub fn taken_offset(extent: usize, count: i64, dropping: bool) -> (r: i64)
    requires
        extent <= i64::MAX,
        count > i64::MIN,
    ensures
        r == take_offset(extent as int, count, dropping),
{
    if dropping {
        if count >= 0 {
            count
        } else {
            0
        }
    } else {
        if count >= 0 {
            0
        } else {
            extent as i64 - magnitude_of(count)
        }
    }
}

/// The coordinate a taken cell `flat` has along result axis `b`.
pub open spec fn taken_coord(t: Seq<usize>, flat: int, b: int) -> int {
    (flat / stride(t, b)) % max1(t[b])
}

/// The term axis `b` adds to the source index of taken cell `flat`.
pub open spec fn taken_term(s: Seq<usize>, t: Seq<usize>, axis: int, offset: int, flat: int, b: int) -> int {
    if b == axis {
        (taken_coord(t, flat, b) + offset) * stride(s, b)
    } else {
        taken_coord(t, flat, b) * stride(s, b)
    }
}

pub open spec fn taken_sum(s: Seq<usize>, t: Seq<usize>, axis: int, offset: int, flat: int, n: int) -> int
    decreases n,
{
    if n <= 0 {
        0
    } else {
        taken_sum(s, t, axis, offset, flat, n - 1) + taken_term(s, t, axis, offset, flat, n - 1)
    }
}

/// The flat source cell a taken or dropped result cell reads, or None where
/// the take runs past the source and reads zero.
pub open spec fn taken_cell(s: Seq<usize>, axis: usize, count: i64, dropping: bool, flat: int) -> Option<int> {
    match taken_dims(s, Some(axis), count, dropping) {
        None => None,
        Some(t) => {
            let offset = take_offset(s[axis as int] as int, count, dropping);
            let source = taken_coord(t, flat, axis as int) + offset;
            if source < 0 || source >= s[axis as int] {
                None
            } else {
                Some(taken_sum(s, t, axis as int, offset, flat, s.len() as int))
            }
        }
    }
}

/// The flat source cell a taken or dropped result cell reads, or None where
/// the take runs past the source and reads zero.
pub fn taken_source(
    shape: &[usize],
    axis: usize,
    count: i64,
    dropping: bool,
    flat_result: usize,
) -> (r: Option<usize>)
    requires
        fits(shape@),
        count > i64::MIN,
        !dropping ==> magnitude(count) <= usize::MAX,
        taken_dims(shape@, Some(axis), count, dropping) matches Some(t) ==> fits(t),
    ensures
        match r {
            Some(v) => taken_cell(shape@, axis, count, dropping, flat_result as int) == Some(v as int),
            None => taken_cell(shape@, axis, count, dropping, flat_result as int) is None,
        },
        r matches Some(v) ==> v < cells(shape@),
{
    let result_shape = match taken_shape(shape, Some(axis), count, dropping) {
        Some(v) => v,
        None => return None,
    };
    let ghost t = result_shape@;
    let result_strides = strides_of(result_shape.as_slice());
    let source_strides = strides_of(shape);
    proof {
        lemma_extent_bound(shape@, axis as int);
    }
    let offset = taken_offset(shape[axis], count, dropping);
    let n = shape.len();
    let mut flat: usize = 0;
    let mut b: usize = 0;
    proof {
        lemma_radix_max(shape@, n as int);
        assert(shape@.skip(n as int) =~= Seq::<usize>::empty());
    }
    while b < n
        invariant
            b <= n,
            n == shape.len(),
            axis < n,
            fits(shape@),
            t == result_shape@,
            taken_dims(shape@, Some(axis), count, dropping) == Some(t),
            fits(t),
            t.len() == n,
            result_strides.len() == n,
            source_strides.len() == n,
            forall|j: int| 0 <= j < n ==> result_strides@[j] == stride(t, j),
            forall|j: int| 0 <= j < n ==> source_strides@[j] == stride(shape@, j),
            offset == take_offset(shape@[axis as int] as int, count, dropping),
            count > i64::MIN,
            !dropping ==> magnitude(count) <= usize::MAX,
            b > axis ==> 0 <= taken_coord(t, flat_result as int, axis as int) + offset < shape@[axis as int],
            flat == taken_sum(shape@, t, axis as int, offset as int, flat_result as int, b as int),
            flat <= radix_max(shape@, b as int),
            radix_max(shape@, n as int) == cells(shape@) - 1,
        decreases n - b,
    {
        let extent = if result_shape[b] == 0 { 1 } else { result_shape[b] };
        proof {
            lemma_stride_bounds(t, b as int);
            lemma_stride_bounds(shape@, b as int);
            lemma_radix_max(shape@, b + 1);
            lemma_radix_monotone(shape@, b + 1, n as int);
            lemma_extent_bound(t, b as int);
        }
        let coord = (flat_result / result_strides[b]) % extent;
        if b == axis {
            proof {
                lemma_extent_bound(shape@, axis as int);
                assert(coord == taken_coord(t, flat_result as int, b as int));
                assert(t[axis as int] as int == (if dropping {
                    shape@[axis as int] as int - magnitude(count)
                } else {
                    magnitude(count)
                }));
                lemma_extent_bound(t, axis as int);
                lemma_extent_bound(shape@, axis as int);
                assert(coord < extent);
                assert(extent as int == t[axis as int] as int);
                assert(coord <= i64::MAX);
                assert(offset as int == take_offset(shape@[axis as int] as int, count, dropping));
                if dropping {
                    if count >= 0 {
                        assert(t[axis as int] as int == shape@[axis as int] as int - count as int);
                    }
                } else {
                    if count < 0 {
                        assert(t[axis as int] as int == magnitude(count));
                    }
                }
                assert(offset + coord <= i64::MAX);
            }
            let source = coord as i64 + offset;
            if source < 0 || source >= shape[axis] as i64 {
                assert(taken_coord(t, flat_result as int, axis as int) + offset == source);
                assert(taken_cell(shape@, axis, count, dropping, flat_result as int) is None);
                return None;
            }
            proof {
                lemma_digit_bound(source as int, max1(shape@[b as int]), stride(shape@, b as int));
            }
            flat = flat + source as usize * source_strides[b];
        } else {
            proof {
                assert(t[b as int] == shape@[b as int]);
                lemma_digit_bound(coord as int, max1(shape@[b as int]), stride(shape@, b as int));
            }
            flat = flat + coord * source_strides[b];
        }
        b = b + 1;
    }
    Some(flat)
}

} // verus!

verus! {

// ---------------------------------------------------------------- the tree

/// A ρ expression. A number is kept as the literal that was written: its
/// value is a floating-point matter for the targets.
#[derive(Debug, PartialEq)]
pub enum Expr {
    Var(String),
    Number(String),
    /// `▷X` / `▽X`, optionally pinned to an axis: `▷0X` shifts along axis 0.
    Shift { dir: ShiftDir, axis: Option<usize>, operand: Box<Expr> },
    BinaryOp { op: BinaryOpKind, lhs: Box<Expr>, rhs: Box<Expr> },
    /// `exp X`, `log X`, `ind (A > B)`: a named function over every cell.
    Builtin { op: BuiltinOp, operand: Box<Expr> },
    /// `k ⌽ X`: the cell `k` further along the axis, wrapping at the end.
    Rotate { by: i64, axis: Option<usize>, operand: Box<Expr> },
    /// `⌽X`: the cell at the other end of the axis.
    Reverse { axis: Option<usize>, operand: Box<Expr> },
    /// `2 3 ⍴ X`: X's cells in row-major order, read into a new shape.
    Reshape { shape: Vec<usize>, operand: Box<Expr> },
    /// `⍉X` and `1 0 ⍉ X`: source axis `k` becomes result axis `axes[k]`.
    Transpose { axes: Option<Vec<usize>>, operand: Box<Expr> },
    /// `k ↑ X`: the first `k` cells along the axis, or the last `|k|`.
    Take { count: i64, axis: Option<usize>, operand: Box<Expr> },
    /// `k ↓ X`: all but the first `k` cells, or the last `|k|`.
    Drop { count: i64, axis: Option<usize>, operand: Box<Expr> },
    /// `⍳X`: each cell's coordinate along one axis of X's shape.
    Index { axis: Option<usize>, operand: Box<Expr> },
    /// `□2X`: X with a length-1 axis inserted at that position.
    Lift { axis: usize, operand: Box<Expr> },
    /// `◈+0X`: a running fold along one axis, keeping the shape.
    Scan { op: FoldOp, axis: Option<usize>, operand: Box<Expr> },
    /// `◇+0X`: fold the cells along one axis, collapsing it.
    Reduce { op: FoldOp, axis: Option<usize>, operand: Box<Expr> },
    /// `$ X`
    AuditTrace(Box<Expr>),
    /// A call to a function the program defined above; replaced by the
    /// function's body before anything else looks at the program.
    Call { name: String, args: Vec<Expr> },
}

/// What an expression denotes: names and literals as character sequences,
/// shapes and axes as sequences.
pub enum ExprV {
    Var(Seq<char>),
    Number(Seq<char>),
    Shift { dir: ShiftDir, axis: Option<usize>, operand: Box<ExprV> },
    BinaryOp { op: BinaryOpKind, lhs: Box<ExprV>, rhs: Box<ExprV> },
    Builtin { op: BuiltinOp, operand: Box<ExprV> },
    Rotate { by: i64, axis: Option<usize>, operand: Box<ExprV> },
    Reverse { axis: Option<usize>, operand: Box<ExprV> },
    Reshape { shape: Seq<usize>, operand: Box<ExprV> },
    Transpose { axes: Option<Seq<usize>>, operand: Box<ExprV> },
    Take { count: i64, axis: Option<usize>, operand: Box<ExprV> },
    Drop { count: i64, axis: Option<usize>, operand: Box<ExprV> },
    Index { axis: Option<usize>, operand: Box<ExprV> },
    Lift { axis: usize, operand: Box<ExprV> },
    Scan { op: FoldOp, axis: Option<usize>, operand: Box<ExprV> },
    Reduce { op: FoldOp, axis: Option<usize>, operand: Box<ExprV> },
    AuditTrace(Box<ExprV>),
    Call { name: Seq<char>, args: Seq<ExprV> },
}

/// The view of an expression.
pub open spec fn expr_view(e: Expr) -> ExprV
    decreases e,
{
    match e {
        Expr::Var(n) => ExprV::Var(n@),
        Expr::Number(n) => ExprV::Number(n@),
        Expr::Shift { dir, axis, operand } => ExprV::Shift { dir, axis, operand: Box::new(expr_view(*operand)) },
        Expr::BinaryOp { op, lhs, rhs } => ExprV::BinaryOp {
            op,
            lhs: Box::new(expr_view(*lhs)),
            rhs: Box::new(expr_view(*rhs)),
        },
        Expr::Builtin { op, operand } => ExprV::Builtin { op, operand: Box::new(expr_view(*operand)) },
        Expr::Rotate { by, axis, operand } => ExprV::Rotate { by, axis, operand: Box::new(expr_view(*operand)) },
        Expr::Reverse { axis, operand } => ExprV::Reverse { axis, operand: Box::new(expr_view(*operand)) },
        Expr::Reshape { shape, operand } => ExprV::Reshape { shape: shape@, operand: Box::new(expr_view(*operand)) },
        Expr::Transpose { axes, operand } => ExprV::Transpose {
            axes: written_axes(axes),
            operand: Box::new(expr_view(*operand)),
        },
        Expr::Take { count, axis, operand } => ExprV::Take { count, axis, operand: Box::new(expr_view(*operand)) },
        Expr::Drop { count, axis, operand } => ExprV::Drop { count, axis, operand: Box::new(expr_view(*operand)) },
        Expr::Index { axis, operand } => ExprV::Index { axis, operand: Box::new(expr_view(*operand)) },
        Expr::Lift { axis, operand } => ExprV::Lift { axis, operand: Box::new(expr_view(*operand)) },
        Expr::Scan { op, axis, operand } => ExprV::Scan { op, axis, operand: Box::new(expr_view(*operand)) },
        Expr::Reduce { op, axis, operand } => ExprV::Reduce { op, axis, operand: Box::new(expr_view(*operand)) },
        Expr::AuditTrace(inner) => ExprV::AuditTrace(Box::new(expr_view(*inner))),
        Expr::Call { name, args } => ExprV::Call { name: name@, args: args_view(args@) },
    }
}

/// The views of a list of arguments.
pub open spec fn args_view(args: Seq<Expr>) -> Seq<ExprV>
    decreases args,
{
    if args.len() == 0 {
        Seq::empty()
    } else {
        seq![expr_view(args[0])] + args_view(args.subrange(1, args.len() as int))
    }
}

/// The axes a transpose node asks for, as a sequence.
pub open spec fn written_axes(axes: Option<Vec<usize>>) -> Option<Seq<usize>> {
    match axes {
        Some(v) => Some(v@),
        None => None,
    }
}

impl View for Expr {
    type V = ExprV;

    open spec fn view(&self) -> ExprV {
        expr_view(*self)
    }
}

pub proof fn lemma_args_view_public(args: Seq<Expr>)
    ensures
        args_view(args).len() == args.len(),
        forall|i: int| 0 <= i < args.len() ==> #[trigger] args_view(args)[i] == expr_view(args[i]),
{
    lemma_args_view(args);
}

proof fn lemma_args_view(args: Seq<Expr>)
    ensures
        args_view(args).len() == args.len(),
        forall|i: int| 0 <= i < args.len() ==> #[trigger] args_view(args)[i] == expr_view(args[i]),
    decreases args.len(),
{
    if args.len() > 0 {
        let rest = args.subrange(1, args.len() as int);
        lemma_args_view(rest);
        assert forall|i: int| 0 <= i < args.len() implies #[trigger] args_view(args)[i] == expr_view(args[i]) by {
            if i > 0 {
                assert(args_view(args)[i] == args_view(rest)[i - 1]);
                assert(rest[i - 1] == args[i]);
            }
        }
    }
}

/// A copy of an expression.
pub fn copy_expr(e: &Expr) -> (r: Expr)
    ensures
        r@ == e@,
    decreases e,
{
    match e {
        Expr::Var(n) => Expr::Var(n.clone()),
        Expr::Number(n) => Expr::Number(n.clone()),
        Expr::Shift { dir, axis, operand } => Expr::Shift { dir: *dir, axis: *axis, operand: Box::new(copy_expr(operand)) },
        Expr::BinaryOp { op, lhs, rhs } => Expr::BinaryOp {
            op: *op,
            lhs: Box::new(copy_expr(lhs)),
            rhs: Box::new(copy_expr(rhs)),
        },
        Expr::Builtin { op, operand } => Expr::Builtin { op: *op, operand: Box::new(copy_expr(operand)) },
        Expr::Rotate { by, axis, operand } => Expr::Rotate { by: *by, axis: *axis, operand: Box::new(copy_expr(operand)) },
        Expr::Reverse { axis, operand } => Expr::Reverse { axis: *axis, operand: Box::new(copy_expr(operand)) },
        Expr::Reshape { shape, operand } => Expr::Reshape {
            shape: copy_dims(shape.as_slice()),
            operand: Box::new(copy_expr(operand)),
        },
        Expr::Transpose { axes, operand } => Expr::Transpose {
            axes: match axes {
                Some(a) => Some(copy_dims(a.as_slice())),
                None => None,
            },
            operand: Box::new(copy_expr(operand)),
        },
        Expr::Take { count, axis, operand } => Expr::Take { count: *count, axis: *axis, operand: Box::new(copy_expr(operand)) },
        Expr::Drop { count, axis, operand } => Expr::Drop { count: *count, axis: *axis, operand: Box::new(copy_expr(operand)) },
        Expr::Index { axis, operand } => Expr::Index { axis: *axis, operand: Box::new(copy_expr(operand)) },
        Expr::Lift { axis, operand } => Expr::Lift { axis: *axis, operand: Box::new(copy_expr(operand)) },
        Expr::Scan { op, axis, operand } => Expr::Scan { op: *op, axis: *axis, operand: Box::new(copy_expr(operand)) },
        Expr::Reduce { op, axis, operand } => Expr::Reduce { op: *op, axis: *axis, operand: Box::new(copy_expr(operand)) },
        Expr::AuditTrace(inner) => Expr::AuditTrace(Box::new(copy_expr(inner))),
        Expr::Call { name, args } => {
            let copied = copy_args(args.as_slice());
            proof {
                lemma_args_view(copied@);
                lemma_args_view(args@);
                assert(args_view(copied@) =~= args_view(args@));
            }
            Expr::Call { name: name.clone(), args: copied }
        },
    }
}

/// Copies of a list of expressions.
pub fn copy_args(args: &[Expr]) -> (r: Vec<Expr>)
    ensures
        r.len() == args.len(),
        forall|i: int| 0 <= i < args.len() ==> (#[trigger] r@[i])@ == args@[i]@,
    decreases args@,
{
    let mut copied: Vec<Expr> = Vec::new();
    let mut i: usize = 0;
    while i < args.len()
        invariant
            i <= args.len(),
            copied.len() == i,
            forall|j: int| 0 <= j < i ==> (#[trigger] copied@[j])@ == args@[j]@,
        decreases args.len() - i,
    {
        proof {
            assert(decreases_to!(args@ => args@[i as int]));
        }
        copied.push(copy_expr(&args[i]));
        i = i + 1;
    }
    copied
}

impl Clone for Expr {
    fn clone(&self) -> (r: Self)
        ensures
            r@ == self@,
    {
        copy_expr(self)
    }
}

/// Where an expanded statement came from.
#[derive(Debug, Clone, PartialEq, Eq)]
pub struct Origin {
    pub function: String,
    pub body_line: usize,
}

/// `NAME:◯ □ D1 D2 ...`
#[derive(Debug, Clone, PartialEq)]
pub struct SpaceDecl {
    pub name: String,
    pub dimensions: Vec<usize>,
}

/// `&[ADDRESS]:NAME:◯ □ D1 D2 ...`
#[derive(Debug, Clone, PartialEq)]
pub struct ExternalBinding {
    pub address: u64,
    pub space: SpaceDecl,
}

/// Where a flow goes.
#[derive(Debug, Clone, PartialEq)]
pub enum FlowTarget {
    Var(String),
    /// `=`
    Equilibrium,
}

/// A statement of a program.
#[derive(Debug, Clone, PartialEq)]
pub enum Statement {
    SpaceDef(SpaceDecl),
    ExtBind(ExternalBinding),
    Flow { src: Expr, target: FlowTarget },
    /// `expr ⇒ NAME`: sweep `expr` into NAME until it settles.
    Iterate { src: Expr, target: String },
    /// `! (expr)`
    Constraint(Expr),
    /// `$ expr`
    AuditTrace(Expr),
}

/// A function of the program's own: a named block with parameters,
/// expanded at each call.
#[derive(Debug, Clone, PartialEq)]
pub struct Function {
    pub name: String,
    pub params: Vec<String>,
    pub body: FunctionBody,
    /// Source line of the definition's header.
    pub line: usize,
}

#[derive(Debug, Clone, PartialEq)]
pub enum FunctionBody {
    /// A single expression, with its source line.
    Expression(Expr, usize),
    /// Flows ending in `→ =`, each with its source line.
    Flows(Vec<(Statement, usize)>),
}

/// A computational universe: the statements of a program, each with its
/// source line and, when a call expanded into it, its origin.
#[derive(Debug, Clone, PartialEq)]
pub struct ToposBlock {
    pub statements: Vec<Statement>,
    pub lines: Vec<usize>,
    pub origins: Vec<Option<Origin>>,
}

/// The source line of statement `index`, 0 when it is not known.
pub open spec fn line_at(lines: Seq<usize>, index: int) -> usize {
    if 0 <= index < lines.len() {
        lines[index]
    } else {
        0
    }
}

impl ToposBlock {
    /// Source line of statement `index`, or 0 when it is not known.
    pub fn line_of(&self, index: usize) -> (r: usize)
        ensures
            r == line_at(self.lines@, index as int),
    {
        if index < self.lines.len() {
            self.lines[index]
        } else {
            0
        }
    }

    /// Source line of the first statement `pred` accepts, or 0 when it
    /// accepts none.
    pub fn line_where<F: Fn(&Statement) -> bool>(&self, pred: F) -> (r: usize)
        requires
            forall|i: int| 0 <= i < self.statements.len() ==> call_requires(pred, (&self.statements@[i],)),
        ensures
            (exists|k: int|
                0 <= k < self.statements.len() && call_ensures(pred, (&self.statements@[k],), true) && r == line_at(
                    self.lines@,
                    k,
                ) && forall|j: int| 0 <= j < k ==> call_ensures(pred, (&self.statements@[j],), false)) || (r == 0
                && forall|j: int| 0 <= j < self.statements.len() ==> call_ensures(pred, (&self.statements@[j],), false)),
    {
        let mut i: usize = 0;
        while i < self.statements.len()
            invariant
                i <= self.statements.len(),
                forall|j: int| 0 <= j < self.statements.len() ==> call_requires(pred, (&self.statements@[j],)),
                forall|j: int| 0 <= j < i ==> call_ensures(pred, (&self.statements@[j],), false),
            decreases self.statements.len() - i,
        {
            if pred(&self.statements[i]) {
                return self.line_of(i);
            }
            i = i + 1;
        }
        0
    }
}

/// The exponent of `x ^ n` when `n` is written as a whole number of at most
/// 64 either way: a power the datapath computes by repeated products.
/// Decided by spelling, not by value.
pub open spec fn whole_exponent_of(e: ExprV) -> Option<int> {
    match e {
        ExprV::Number(t) => match crate::literal::small_whole(t) {
            Some(w) => if -64 <= w <= 64 {
                Some(w)
            } else {
                None
            },
            None => None,
        },
        _ => None,
    }
}

pub fn whole_exponent(exponent: &Expr) -> (r: Option<i32>)
    ensures
        match r {
            Some(n) => whole_exponent_of(exponent@) == Some(n as int),
            None => whole_exponent_of(exponent@) is None,
        },
{
    match exponent {
        Expr::Number(t) => {
            let cs = crate::text::chars_of(t.as_str());
            match crate::literal::whole_literal(cs.as_slice()) {
                Some(v) => if -64 <= v && v <= 64 {
                    Some(v as i32)
                } else {
                    None
                },
                None => None,
            }
        },
        _ => None,
    }
}

// ---------------------------------------------------------------- shapes by name

/// What a list of `(name, shape)` entries maps each name to: the last entry
/// for a name wins, as an insertion into a map would.
pub open spec fn table_map(s: Seq<(String, Vec<usize>)>) -> Map<Seq<char>, Seq<usize>>
    decreases s.len(),
{
    if s.len() == 0 {
        Map::empty()
    } else {
        table_map(s.drop_last()).insert(s.last().0@, s.last().1@)
    }
}

/// Shapes by space name.
pub struct ShapeTable {
    entries: Vec<(String, Vec<usize>)>,
}

impl View for ShapeTable {
    type V = Map<Seq<char>, Seq<usize>>;

    closed spec fn view(&self) -> Map<Seq<char>, Seq<usize>> {
        table_map(self.entries@)
    }
}

/// A copy of a shape.
pub fn copy_dims(v: &[usize]) -> (r: Vec<usize>)
    ensures
        r@ == v@,
{
    let mut out: Vec<usize> = Vec::new();
    let mut i: usize = 0;
    while i < v.len()
        invariant
            i <= v.len(),
            out@ == v@.subrange(0, i as int),
        decreases v.len() - i,
    {
        out.push(v[i]);
        i = i + 1;
        assert(out@ =~= v@.subrange(0, i as int));
    }
    assert(out@ =~= v@);
    out
}

proof fn lemma_table_last(s: Seq<(String, Vec<usize>)>, k: int, key: Seq<char>)
    requires
        0 <= k < s.len(),
        s[k].0@ == key,
        forall|j: int| k < j < s.len() ==> s[j].0@ != key,
    ensures
        table_map(s).contains_key(key),
        table_map(s)[key] == s[k].1@,
    decreases s.len(),
{
    if k < s.len() - 1 {
        lemma_table_last(s.drop_last(), k, key);
    }
}

proof fn lemma_table_absent(s: Seq<(String, Vec<usize>)>, key: Seq<char>)
    requires
        forall|j: int| 0 <= j < s.len() ==> s[j].0@ != key,
    ensures
        !table_map(s).contains_key(key),
    decreases s.len(),
{
    if s.len() > 0 {
        lemma_table_absent(s.drop_last(), key);
    }
}

proof fn lemma_table_has(s: Seq<(String, Vec<usize>)>, k: int)
    requires
        0 <= k < s.len(),
    ensures
        table_map(s).contains_key(s[k].0@),
    decreases s.len(),
{
    if k < s.len() - 1 {
        lemma_table_has(s.drop_last(), k);
    }
}

proof fn lemma_table_dom(s: Seq<(String, Vec<usize>)>, key: Seq<char>)
    requires
        table_map(s).contains_key(key),
    ensures
        exists|w: int| 0 <= w < s.len() && (#[trigger] s[w]).0@ == key,
    decreases s.len(),
{
    if s.len() > 0 && s.last().0@ != key {
        lemma_table_dom(s.drop_last(), key);
        let w = choose|w: int| 0 <= w < s.drop_last().len() && (#[trigger] s.drop_last()[w]).0@ == key;
        assert(s[w] == s.drop_last()[w]);
    } else if s.len() > 0 {
        assert(s[s.len() - 1].0@ == key);
    }
}

impl ShapeTable {
    pub fn new() -> (r: ShapeTable)
        ensures
            r@ == Map::<Seq<char>, Seq<usize>>::empty(),
    {
        ShapeTable { entries: Vec::new() }
    }

    /// Give `name` the shape `dims`.
    pub fn insert(&mut self, name: &String, dims: &[usize])
        ensures
            final(self)@ == old(self)@.insert(name@, dims@),
    {
        let key = name.clone();
        let value = copy_dims(dims);
        self.entries.push((key, value));
        proof {
            assert(self.entries@.drop_last() =~= old(self).entries@);
        }
    }

    /// The shape of `name`, if it has one.
    pub fn get(&self, name: &String) -> (r: Option<Vec<usize>>)
        ensures
            match r {
                Some(v) => self@.contains_key(name@) && self@[name@] == v@,
                None => !self@.contains_key(name@),
            },
    {
        let mut k: usize = self.entries.len();
        while k > 0
            invariant
                k <= self.entries.len(),
                forall|j: int| k <= j < self.entries.len() ==> self.entries@[j].0@ != name@,
            decreases k,
        {
            let entry = &self.entries[k - 1];
            if entry.0 == *name {
                proof {
                    lemma_table_last(self.entries@, k - 1, name@);
                }
                return Some(copy_dims(entry.1.as_slice()));
            }
            k = k - 1;
        }
        proof {
            lemma_table_absent(self.entries@, name@);
        }
        None
    }

    /// Whether `name` has a shape.
    pub fn contains(&self, name: &String) -> (r: bool)
        ensures
            r == self@.contains_key(name@),
    {
        self.get(name).is_some()
    }

    /// Every name with a shape, each once, in order.
    pub fn names(&self) -> (r: Vec<String>)
        ensures
            crate::sv::names_of(r@) == crate::order::in_order(self@.dom()),
            crate::order::strictly_sorted(crate::sv::names_of(r@)),
            forall|k: Seq<char>| #[trigger] crate::sv::names_of(r@).contains(k) <==> self@.dom().contains(k),
    {
        let mut all: Vec<String> = Vec::new();
        let mut i: usize = 0;
        while i < self.entries.len()
            invariant
                i <= self.entries.len(),
                all.len() == i,
                forall|j: int| 0 <= j < i ==> (#[trigger] all@[j])@ == self.entries@[j].0@,
            decreases self.entries.len() - i,
        {
            all.push(self.entries[i].0.clone());
            i = i + 1;
        }
        let r = crate::order::sorted_distinct(&all);
        proof {
            let ns = crate::sv::names_of(all@);
            assert forall|k: Seq<char>| #[trigger] ns.contains(k) <==> self@.dom().contains(k) by {
                if ns.contains(k) {
                    let j = choose|j: int| 0 <= j < ns.len() && ns[j] == k;
                    assert(all@[j]@ == k);
                    lemma_table_has(self.entries@, j);
                }
                if self@.dom().contains(k) {
                    lemma_table_dom(self.entries@, k);
                    let w = choose|w: int| 0 <= w < self.entries@.len() && (#[trigger] self.entries@[w]).0@ == k;
                    assert(ns[w] == k);
                }
            }
            crate::order::lemma_in_order(crate::sv::names_of(r@), self@.dom());
        }
        r
    }

    /// The entry of the least name: the one a walk of a sorted map meets
    /// first.
    pub fn first(&self) -> (r: Option<(String, Vec<usize>)>)
        ensures
            match r {
                None => forall|k: Seq<char>| !self@.contains_key(k),
                Some((k, v)) => self@.contains_key(k@) && self@[k@] == v@ && forall|j: Seq<char>|
                    #[trigger] self@.contains_key(j) && j != k@ ==> crate::text::name_before(k@, j),
            },
    {
        if self.entries.len() == 0 {
            proof {
                assert forall|k: Seq<char>| !self@.contains_key(k) by {
                    lemma_table_absent(self.entries@, k);
                }
            }
            return None;
        }
        proof {
            crate::text::lemma_name_order();
        }
        let mut best: usize = 0;
        let mut i: usize = 1;
        while i < self.entries.len()
            invariant
                1 <= i <= self.entries.len(),
                best < i,
                forall|a: Seq<char>, b: Seq<char>, c: Seq<char>|
                    #[trigger] crate::text::name_before(a, b) && #[trigger] crate::text::name_before(b, c)
                        ==> crate::text::name_before(a, c),
                forall|a: Seq<char>, b: Seq<char>| a != b ==> #[trigger] crate::text::name_before(a, b)
                    || #[trigger] crate::text::name_before(b, a),
                forall|j: int| 0 <= j < i ==> (#[trigger] self.entries@[j]).0@ == self.entries@[best as int].0@
                    || crate::text::name_before(self.entries@[best as int].0@, self.entries@[j].0@),
            decreases self.entries.len() - i,
        {
            let k = self.entries[i].0.as_str();
            let b = self.entries[best].0.as_str();
            let kc = crate::text::chars_of(k);
            let bc = crate::text::chars_of(b);
            if crate::text::before(kc.as_slice(), bc.as_slice()) {
                best = i;
            }
            i = i + 1;
        }
        let key = self.entries[best].0.clone();
        proof {
            lemma_table_has(self.entries@, best as int);
        }
        match self.get(&key) {
            Some(v) => {
                proof {
                    assert forall|j: Seq<char>| #[trigger] self@.contains_key(j) && j != key@ implies crate::text::name_before(
                        key@,
                        j,
                    ) by {
                        lemma_table_dom(self.entries@, j);
                        let w = choose|w: int| 0 <= w < self.entries@.len() && (#[trigger] self.entries@[w]).0@ == j;
                        assert(self.entries@[w].0@ == self.entries@[best as int].0@ || crate::text::name_before(
                            self.entries@[best as int].0@,
                            self.entries@[w].0@,
                        ));
                    }
                }
                Some((key, v))
            },
            None => None,
        }
    }
}

} // verus!

verus! {

/// The shape an expression produces, given the shapes of the spaces it
/// reads; None for an expression of literals alone, or one whose shapes do
/// not fit together.
pub open spec fn shape_of_expr(e: ExprV, shapes: Map<Seq<char>, Seq<usize>>) -> Option<Seq<usize>>
    decreases e,
{
    match e {
        ExprV::Var(name) => if shapes.contains_key(name) {
            Some(shapes[name])
        } else {
            None
        },
        ExprV::Shift { operand, .. } => shape_of_expr(*operand, shapes),
        ExprV::AuditTrace(operand) => shape_of_expr(*operand, shapes),
        ExprV::Lift { axis, operand } => match shape_of_expr(*operand, shapes) {
            Some(inner) => if axis <= inner.len() {
                Some(inner.insert(axis as int, 1usize))
            } else {
                None
            },
            None => None,
        },
        ExprV::Scan { operand, .. } => shape_of_expr(*operand, shapes),
        ExprV::Builtin { operand, .. } => shape_of_expr(*operand, shapes),
        ExprV::Index { operand, .. } => shape_of_expr(*operand, shapes),
        ExprV::Rotate { operand, .. } => shape_of_expr(*operand, shapes),
        ExprV::Reverse { operand, .. } => shape_of_expr(*operand, shapes),
        ExprV::Reshape { shape, operand } => match shape_of_expr(*operand, shapes) {
            Some(_) => Some(shape),
            None => None,
        },
        ExprV::Transpose { axes, operand } => match shape_of_expr(*operand, shapes) {
            Some(inner) => {
                let asked = asked_axes(inner.len() as int, axes);
                if is_permutation(asked, inner.len() as int) {
                    Some(transposed_dims(inner, asked))
                } else {
                    None
                }
            },
            None => None,
        },
        ExprV::Take { count, axis, operand } => match shape_of_expr(*operand, shapes) {
            Some(inner) => taken_dims(inner, axis, count, false),
            None => None,
        },
        ExprV::Drop { count, axis, operand } => match shape_of_expr(*operand, shapes) {
            Some(inner) => taken_dims(inner, axis, count, true),
            None => None,
        },
        ExprV::Reduce { axis, operand, .. } => match shape_of_expr(*operand, shapes) {
            Some(inner) => {
                let a = match axis {
                    Some(a) => a as int,
                    None => default_axis_of(inner),
                };
                if a < inner.len() {
                    Some(without_axis(inner, a))
                } else {
                    None
                }
            },
            None => None,
        },
        ExprV::BinaryOp { lhs, rhs, .. } => match (shape_of_expr(*lhs, shapes), shape_of_expr(*rhs, shapes)) {
            (Some(l), Some(r)) => if broadcasts(l, r) {
                Some(broadcast_dims(l, r))
            } else {
                None
            },
            (Some(l), None) => Some(l),
            (None, Some(r)) => Some(r),
            (None, None) => None,
        },
        ExprV::Number(_) => None,
        ExprV::Call { .. } => None,
    }
}

/// The shape an expression produces, given the shapes of the spaces it
/// reads, or None for an expression of literals alone. The parser's checks
/// and every target read shapes from here, so an intermediate has the same
/// shape to each of them.
pub fn expr_shape(expr: &Expr, shapes: &ShapeTable) -> (r: Option<Vec<usize>>)
    ensures
        match r {
            Some(v) => shape_of_expr(expr@, shapes@) == Some(v@),
            None => shape_of_expr(expr@, shapes@) is None,
        },
    decreases expr,
{
    match expr {
        Expr::Var(name) => shapes.get(name),
        Expr::Shift { operand, .. } => expr_shape(operand, shapes),
        Expr::AuditTrace(operand) => expr_shape(operand, shapes),
        Expr::Lift { axis, operand } => match expr_shape(operand, shapes) {
            Some(inner) => shape_with_unit_axis(inner.as_slice(), *axis),
            None => None,
        },
        Expr::Scan { operand, .. } => expr_shape(operand, shapes),
        Expr::Builtin { operand, .. } => expr_shape(operand, shapes),
        Expr::Index { operand, .. } => expr_shape(operand, shapes),
        Expr::Rotate { operand, .. } => expr_shape(operand, shapes),
        Expr::Reverse { operand, .. } => expr_shape(operand, shapes),
        Expr::Reshape { shape, operand } => match expr_shape(operand, shapes) {
            Some(_) => Some(copy_dims(shape.as_slice())),
            None => None,
        },
        Expr::Transpose { axes, operand } => match expr_shape(operand, shapes) {
            Some(inner) => match axes {
                Some(a) => transposed_shape(inner.as_slice(), Some(a.as_slice())),
                None => transposed_shape(inner.as_slice(), None),
            },
            None => None,
        },
        Expr::Take { count, axis, operand } => match expr_shape(operand, shapes) {
            Some(inner) => taken_shape(inner.as_slice(), *axis, *count, false),
            None => None,
        },
        Expr::Drop { count, axis, operand } => match expr_shape(operand, shapes) {
            Some(inner) => taken_shape(inner.as_slice(), *axis, *count, true),
            None => None,
        },
        Expr::Reduce { axis, operand, .. } => match expr_shape(operand, shapes) {
            Some(inner) => {
                let a = match axis {
                    Some(a) => *a,
                    None => default_axis(inner.as_slice()),
                };
                if a < inner.len() {
                    Some(shape_without_axis(inner.as_slice(), a))
                } else {
                    None
                }
            },
            None => None,
        },
        Expr::BinaryOp { lhs, rhs, .. } => {
            let l = expr_shape(lhs, shapes);
            let r = expr_shape(rhs, shapes);
            match (l, r) {
                (Some(l), Some(r)) => broadcast_shapes(l.as_slice(), r.as_slice()),
                (Some(l), None) => Some(l),
                (None, Some(r)) => Some(r),
                (None, None) => None,
            }
        },
        Expr::Number(_) => None,
        Expr::Call { .. } => None,
    }
}

} // verus!

verus! {

/// Where a flow goes, as a view.
pub enum TargetV {
    Var(Seq<char>),
    Equilibrium,
}

/// What a statement says.
pub enum StatementV {
    SpaceDef { name: Seq<char>, dims: Seq<usize> },
    ExtBind { address: u64, name: Seq<char>, dims: Seq<usize> },
    Flow { src: ExprV, target: TargetV },
    Iterate { src: ExprV, target: Seq<char> },
    Constraint(ExprV),
    AuditTrace(ExprV),
}

pub open spec fn target_view(t: FlowTarget) -> TargetV {
    match t {
        FlowTarget::Var(n) => TargetV::Var(n@),
        FlowTarget::Equilibrium => TargetV::Equilibrium,
    }
}

pub open spec fn statement_view(s: Statement) -> StatementV {
    match s {
        Statement::SpaceDef(d) => StatementV::SpaceDef { name: d.name@, dims: d.dimensions@ },
        Statement::ExtBind(b) => StatementV::ExtBind { address: b.address, name: b.space.name@, dims: b.space.dimensions@ },
        Statement::Flow { src, target } => StatementV::Flow { src: src@, target: target_view(target) },
        Statement::Iterate { src, target } => StatementV::Iterate { src: src@, target: target@ },
        Statement::Constraint(e) => StatementV::Constraint(e@),
        Statement::AuditTrace(e) => StatementV::AuditTrace(e@),
    }
}

impl View for Statement {
    type V = StatementV;

    open spec fn view(&self) -> StatementV {
        statement_view(*self)
    }
}

/// The views of a list of statements.
pub open spec fn statements_view(s: Seq<Statement>) -> Seq<StatementV> {
    s.map_values(|st: Statement| st@)
}

/// The name a statement declares as a space: a declaration or a binding.
pub open spec fn declared_name(s: StatementV) -> Option<(Seq<char>, Seq<usize>)> {
    match s {
        StatementV::SpaceDef { name, dims } => Some((name, dims)),
        StatementV::ExtBind { name, dims, .. } => Some((name, dims)),
        _ => None,
    }
}

/// A copy of a flow target.
pub fn copy_target(t: &FlowTarget) -> (r: FlowTarget)
    ensures
        target_view(r) == target_view(*t),
{
    match t {
        FlowTarget::Var(n) => FlowTarget::Var(n.clone()),
        FlowTarget::Equilibrium => FlowTarget::Equilibrium,
    }
}

/// A copy of a statement.
pub fn copy_statement(s: &Statement) -> (r: Statement)
    ensures
        r@ == s@,
{
    match s {
        Statement::SpaceDef(d) => Statement::SpaceDef(SpaceDecl { name: d.name.clone(), dimensions: copy_dims(d.dimensions.as_slice()) }),
        Statement::ExtBind(b) => Statement::ExtBind(ExternalBinding {
            address: b.address,
            space: SpaceDecl { name: b.space.name.clone(), dimensions: copy_dims(b.space.dimensions.as_slice()) },
        }),
        Statement::Flow { src, target } => Statement::Flow { src: copy_expr(src), target: copy_target(target) },
        Statement::Iterate { src, target } => Statement::Iterate { src: copy_expr(src), target: target.clone() },
        Statement::Constraint(e) => Statement::Constraint(copy_expr(e)),
        Statement::AuditTrace(e) => Statement::AuditTrace(copy_expr(e)),
    }
}

} // verus!
