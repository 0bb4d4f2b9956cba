//! How the LLVM emitter shapes a sweep: scalar or vector lanes, the types
//! and intrinsics each width uses, and the shift engine's vector form.

use vstd::prelude::*;
use crate::numeric::Precision;
use crate::ast::BinaryOpKind;
use crate::dag::{push_upper_hex, upper_hex};
use crate::text::{ascii_alnum, ascii_letter, chars_of, decimal, is_ascii_alnum, is_ascii_letter, push_char, push_chars, push_decimal, push_str};

verus! {

/// Whether a sweep computes one cell at a time or several lanes at once.
#[derive(Debug, Clone, Copy, PartialEq, Eq)]
pub enum Mode {
    Scalar(Precision),
    Vector(usize, Precision),
}

pub open spec fn element_type(p: Precision) -> Seq<char> {
    match p {
        Precision::F64 => "double"@,
        Precision::F32 => "float"@,
    }
}

pub open spec fn suffix_of(p: Precision) -> Seq<char> {
    match p {
        Precision::F64 => "f64"@,
        Precision::F32 => "f32"@,
    }
}

/// `<w x element>`.
pub open spec fn vector_type(w: usize, element: Seq<char>) -> Seq<char> {
    "<"@ + decimal(w as nat) + " x "@ + element + ">"@
}

/// `n` copies of `lane`, separated by `, `.
pub open spec fn lanes_of(lane: Seq<char>, n: nat) -> Seq<char>
    decreases n,
{
    if n == 0 {
        Seq::empty()
    } else if n == 1 {
        lane
    } else {
        lanes_of(lane, (n - 1) as nat) + ", "@ + lane
    }
}

impl Mode {
    pub fn lanes(self) -> (r: usize)
        ensures
            r == (match self {
                Mode::Scalar(_) => 1usize,
                Mode::Vector(w, _) => w,
            }),
    {
        match self {
            Mode::Scalar(_) => 1,
            Mode::Vector(w, _) => w,
        }
    }

    pub fn precision(self) -> (r: Precision)
        ensures
            r == (match self {
                Mode::Scalar(p) => p,
                Mode::Vector(_, p) => p,
            }),
    {
        match self {
            Mode::Scalar(p) => p,
            Mode::Vector(_, p) => p,
        }
    }

    /// The LLVM type of a value.
    pub fn ty(self) -> (r: String)
        ensures
            r@ == (match self {
                Mode::Scalar(p) => element_type(p),
                Mode::Vector(w, p) => vector_type(w, element_type(p)),
            }),
    {
        let element = self.precision().llvm_type();
        let mut s = String::new();
        match self {
            Mode::Scalar(_) => {
                push_str(&mut s, element);
            },
            Mode::Vector(w, _) => {
                push_str(&mut s, "<");
                push_decimal(&mut s, w as u64);
                push_str(&mut s, " x ");
                push_str(&mut s, element);
                push_str(&mut s, ">");
            },
        }
        s
    }

    /// The LLVM type of an index.
    pub fn int_ty(self) -> (r: String)
        ensures
            r@ == (match self {
                Mode::Scalar(_) => "i64"@,
                Mode::Vector(w, _) => vector_type(w, "i64"@),
            }),
    {
        let mut s = String::new();
        match self {
            Mode::Scalar(_) => {
                push_str(&mut s, "i64");
            },
            Mode::Vector(w, _) => {
                push_str(&mut s, "<");
                push_decimal(&mut s, w as u64);
                push_str(&mut s, " x ");
                push_str(&mut s, "i64");
                push_str(&mut s, ">");
            },
        }
        s
    }

    /// The LLVM type of a flag.
    pub fn bool_ty(self) -> (r: String)
        ensures
            r@ == (match self {
                Mode::Scalar(_) => "i1"@,
                Mode::Vector(w, _) => vector_type(w, "i1"@),
            }),
    {
        let mut s = String::new();
        match self {
            Mode::Scalar(_) => {
                push_str(&mut s, "i1");
            },
            Mode::Vector(w, _) => {
                push_str(&mut s, "<");
                push_decimal(&mut s, w as u64);
                push_str(&mut s, " x ");
                push_str(&mut s, "i1");
                push_str(&mut s, ">");
            },
        }
        s
    }

    /// Zero, in every lane.
    pub fn zero(self) -> (r: String)
        ensures
            r@ == (match self {
                Mode::Scalar(_) => "0.0"@,
                Mode::Vector(..) => "zeroinitializer"@,
            }),
    {
        let mut s = String::new();
        match self {
            Mode::Scalar(_) => push_str(&mut s, "0.0"),
            Mode::Vector(..) => push_str(&mut s, "zeroinitializer"),
        }
        s
    }

    /// An index constant broadcast across every lane.
    pub fn int_splat(self, value: u64) -> (r: String)
        ensures
            r@ == (match self {
                Mode::Scalar(_) => decimal(value as nat),
                Mode::Vector(w, _) => "<"@ + lanes_of("i64 "@ + decimal(value as nat), w as nat) + ">"@,
            }),
    {
        let mut s = String::new();
        match self {
            Mode::Scalar(_) => {
                push_decimal(&mut s, value);
            },
            Mode::Vector(w, _) => {
                let mut lane = String::new();
                push_str(&mut lane, "i64 ");
                push_decimal(&mut lane, value);
                push_str(&mut s, "<");
                let ghost start = s@;
                let mut i: usize = 0;
                while i < w
                    invariant
                        i <= w,
                        s@ == start + lanes_of(lane@, i as nat),
                    decreases w - i,
                {
                    if i > 0 {
                        push_str(&mut s, ", ");
                    }
                    push_str(&mut s, lane.as_str());
                    i = i + 1;
                    proof {
                        if i == 1 {
                            assert(lanes_of(lane@, 0) =~= Seq::<char>::empty());
                        }
                    }
                    assert(s@ =~= start + lanes_of(lane@, i as nat));
                }
                push_str(&mut s, ">");
            },
        }
        s
    }

    /// The name of an LLVM intrinsic at this mode's width.
    pub fn unary_intrinsic(self, name: &str) -> (r: String)
        ensures
            r@ == (match self {
                Mode::Scalar(p) => "@llvm."@ + name@ + "."@ + suffix_of(p),
                Mode::Vector(w, p) => "@llvm."@ + name@ + ".v"@ + decimal(w as nat) + suffix_of(p),
            }),
    {
        let suffix = self.precision().intrinsic_suffix();
        let mut s = String::new();
        push_str(&mut s, "@llvm.");
        push_str(&mut s, name);
        match self {
            Mode::Scalar(_) => {
                push_str(&mut s, ".");
                push_str(&mut s, suffix);
            },
            Mode::Vector(w, _) => {
                push_str(&mut s, ".v");
                push_decimal(&mut s, w as u64);
                push_str(&mut s, suffix);
            },
        }
        s
    }

    /// The power intrinsic at this mode's width.
    pub fn pow_intrinsic(self) -> (r: String)
        ensures
            r@ == (match self {
                Mode::Scalar(p) => "@llvm."@ + "pow"@ + "."@ + suffix_of(p),
                Mode::Vector(w, p) => "@llvm."@ + "pow"@ + ".v"@ + decimal(w as nat) + suffix_of(p),
            }),
    {
        self.unary_intrinsic("pow")
    }
}

/// How one flow's sweep is split between scalar and vector loops.
pub enum Sweep {
    AllScalar,
    Split { vector_start: u64, vector_end: u64, width: usize, total: u64 },
}

impl Sweep {
    /// The split, as a comment in the IR says it.
    pub fn describe(&self) -> (r: String)
        ensures
            r@ == (match *self {
                Sweep::AllScalar => " (scalar)"@,
                Sweep::Split { vector_start, vector_end, width, .. } => " (scalar 0.."@ + decimal(vector_start as nat)
                    + ", "@ + decimal(width as nat) + "-wide vector "@ + decimal(vector_start as nat) + ".."@ + decimal(
                    vector_end as nat,
                ) + ", scalar tail)"@,
            }),
    {
        let mut s = String::new();
        match self {
            Sweep::AllScalar => push_str(&mut s, " (scalar)"),
            Sweep::Split { vector_start, vector_end, width, .. } => {
                push_str(&mut s, " (scalar 0..");
                push_decimal(&mut s, *vector_start);
                push_str(&mut s, ", ");
                push_decimal(&mut s, *width as u64);
                push_str(&mut s, "-wide vector ");
                push_decimal(&mut s, *vector_start);
                push_str(&mut s, "..");
                push_decimal(&mut s, *vector_end);
                push_str(&mut s, ", scalar tail)");
            },
        }
        s
    }
}

/// Shifts as whole-vector operations, with no loop.
pub struct VectorShiftEngine;

pub open spec fn shift_ir(direction: Seq<char>, glyph: Seq<char>, intrinsic: Seq<char>, var_name: Seq<char>, size: usize) -> Seq<char> {
    let n = decimal(size as nat);
    "  ; Vector Shift "@ + direction + " ("@ + glyph + ") for "@ + n + " elements (Clockless)\n%"@ + var_name
        + "_shifted = call <"@ + n + " x double> @llvm.rho."@ + intrinsic + ".<"@ + n + " x double>(<"@ + n
        + " x double> %"@ + var_name + ")\n"@
}

fn shift_text(direction: &str, glyph: &str, intrinsic: &str, var_name: &str, size: usize) -> (r: String)
    ensures
        r@ == shift_ir(direction@, glyph@, intrinsic@, var_name@, size),
{
    let mut s = String::new();
    push_str(&mut s, "  ; Vector Shift ");
    push_str(&mut s, direction);
    push_str(&mut s, " (");
    push_str(&mut s, glyph);
    push_str(&mut s, ") for ");
    push_decimal(&mut s, size as u64);
    push_str(&mut s, " elements (Clockless)\n%");
    push_str(&mut s, var_name);
    push_str(&mut s, "_shifted = call <");
    push_decimal(&mut s, size as u64);
    push_str(&mut s, " x double> @llvm.rho.");
    push_str(&mut s, intrinsic);
    push_str(&mut s, ".<");
    push_decimal(&mut s, size as u64);
    push_str(&mut s, " x double>(<");
    push_decimal(&mut s, size as u64);
    push_str(&mut s, " x double> %");
    push_str(&mut s, var_name);
    push_str(&mut s, ")\n");
    s
}

impl VectorShiftEngine {
    /// ▷ (Shift Right): shift elements right, padding 0 at index 0.
    pub fn emit_shift_right_ir(var_name: &str, size: usize) -> (r: String)
        ensures
            r@ == shift_ir("Right"@, "▷"@, "shift_right"@, var_name@, size),
    {
        shift_text("Right", "▷", "shift_right", var_name, size)
    }

    /// ▽ (Shift Left): shift elements left, padding 0 at the final index.
    pub fn emit_shift_left_ir(var_name: &str, size: usize) -> (r: String)
        ensures
            r@ == shift_ir("Left"@, "▽"@, "shift_left"@, var_name@, size),
    {
        shift_text("Left", "▽", "shift_left", var_name, size)
    }
}

/// How a flow's sweep splits, given how many cells it writes, how far its
/// shifts reach, and the vector width: the body of a vector step at `idx`
/// touches `idx - reach` to `idx + reach + width - 1`, so the vector loop
/// starts at `reach` and stops where a whole step still fits.
pub open spec fn split_of(total: u64, reach: u64, width: u64) -> Sweep {
    let start = reach as int;
    let limit = total - (reach + width - 1);
    if limit < 0 || limit <= start || limit - start < width {
        Sweep::AllScalar
    } else {
        let chunks = (limit - start) / (width as int);
        Sweep::Split {
            vector_start: reach,
            vector_end: (start + chunks * width) as u64,
            width: width as usize,
            total,
        }
    }
}

impl Sweep {
    /// The split of a sweep of `total` cells whose shifts reach `reach`
    /// cells, in vectors of `width` lanes.
    pub fn plan(total: u64, reach: u64, width: usize) -> (r: Sweep)
        requires
            1 <= width,
            reach + width - 1 <= u64::MAX,
        ensures
            r == split_of(total, reach, width as u64),
            r matches Sweep::Split { vector_start, vector_end, .. } ==> vector_start == reach && vector_start
                < vector_end && (vector_end - vector_start) % (width as int) == 0 && vector_end + reach + width - 1
                <= total,
    {
        let w = width as u64;
        let start = reach;
        let limit = match total.checked_sub(reach + (w - 1)) {
            Some(l) => l,
            None => return Sweep::AllScalar,
        };
        if limit <= start || limit - start < w {
            return Sweep::AllScalar;
        }
        let chunks = (limit - start) / w;
        proof {
            let c = chunks as int;
            let d = (limit - start) as int;
            assert(c * w <= d && c >= 1 && (c * w) % (w as int) == 0) by (nonlinear_arith)
                requires
                    c == d / (w as int),
                    d >= w,
                    w >= 1,
            {
                vstd::arithmetic::div_mod::lemma_fundamental_div_mod(d, w as int);
                vstd::arithmetic::div_mod::lemma_mod_multiples_basic(c, w as int);
            }
        }
        Sweep::Split { vector_start: start, vector_end: start + chunks * w, width, total }
    }
}

/// The predicate an ordered comparison takes in the IR.
pub fn compare_predicate(op: &BinaryOpKind) -> (r: Option<&'static str>)
    ensures
        match r {
            Some(p) => p@ == match *op {
                BinaryOpKind::Gt => "ogt"@,
                BinaryOpKind::Lt => "olt"@,
                BinaryOpKind::Gte => "oge"@,
                BinaryOpKind::Lte => "ole"@,
                _ => "oeq"@,
            } && (*op == BinaryOpKind::Gt || *op == BinaryOpKind::Lt || *op == BinaryOpKind::Gte || *op
                == BinaryOpKind::Lte || *op == BinaryOpKind::Eq),
            None => !(*op == BinaryOpKind::Gt || *op == BinaryOpKind::Lt || *op == BinaryOpKind::Gte || *op
                == BinaryOpKind::Lte || *op == BinaryOpKind::Eq),
        },
{
    match op {
        BinaryOpKind::Gt => Some("ogt"),
        BinaryOpKind::Lt => Some("olt"),
        BinaryOpKind::Gte => Some("oge"),
        BinaryOpKind::Lte => Some("ole"),
        BinaryOpKind::Eq => Some("oeq"),
        _ => None,
    }
}

/// At least four upper-case hexadecimal digits: `{:04X}`.
pub open spec fn hex4_upper(n: nat) -> Seq<char> {
    let h = upper_hex(n);
    if h.len() < 4 {
        Seq::new((4 - h.len()) as nat, |i: int| '0') + h
    } else {
        h
    }
}

/// What a character of a name becomes in an IR identifier.
pub open spec fn ident_piece(c: char) -> Seq<char> {
    if ascii_alnum(c) || c == '_' {
        seq![c]
    } else {
        "_u"@ + hex4_upper((c as u32) as nat)
    }
}

pub open spec fn ident_body(s: Seq<char>) -> Seq<char>
    decreases s.len(),
{
    if s.len() == 0 {
        Seq::empty()
    } else {
        ident_body(s.drop_last()) + ident_piece(s.last())
    }
}

/// A name as an IR identifier: every character outside `[A-Za-z0-9_]`
/// spelled by its code, and `s` before one that would start with a digit.
pub open spec fn sanitized(s: Seq<char>) -> Seq<char> {
    let b = ident_body(s);
    if b.len() > 0 && !ascii_letter(b[0]) && b[0] != '_' {
        seq!['s'] + b
    } else {
        b
    }
}

proof fn lemma_upper_hex_len(n: nat)
    ensures
        upper_hex(n).len() >= 1,
    decreases n,
{
    if n >= 16 {
        lemma_upper_hex_len(n / 16);
    }
}

fn push_hex4_upper(s: &mut String, n: u32)
    ensures
        final(s)@ == old(s)@ + hex4_upper(n as nat),
{
    let mut h = String::new();
    push_upper_hex(&mut h, n as u64);
    let hc = chars_of(h.as_str());
    assert(hc@ =~= upper_hex(n as nat));
    if hc.len() < 4 {
        let pad = 4 - hc.len();
        let mut i: usize = 0;
        while i < pad
            invariant
                i <= pad,
                pad == 4 - hc.len(),
                s@ == old(s)@ + Seq::new(i as nat, |j: int| '0'),
            decreases pad - i,
        {
            push_char(s, '0');
            i = i + 1;
            assert(s@ =~= old(s)@ + Seq::new(i as nat, |j: int| '0'));
        }
    }
    push_chars(s, hc.as_slice());
    assert(s@ =~= old(s)@ + hex4_upper(n as nat));
}

/// A ρ name as an identifier the IR accepts.
pub fn sanitize_ident(ident: &str) -> (r: String)
    ensures
        r@ == sanitized(ident@),
{
    let cs = chars_of(ident);
    let mut out = String::new();
    let mut i: usize = 0;
    assert(cs@.take(0) =~= Seq::<char>::empty());
    while i < cs.len()
        invariant
            i <= cs.len(),
            out@ == ident_body(cs@.take(i as int)),
        decreases cs.len() - i,
    {
        let c = cs[i];
        assert(cs@.take(i + 1).drop_last() =~= cs@.take(i as int));
        assert(cs@.take(i + 1).last() == c);
        let ghost before = out@;
        if is_ascii_alnum(c) || c == '_' {
            push_char(&mut out, c);
        } else {
            push_str(&mut out, "_u");
            push_hex4_upper(&mut out, c as u32);
            assert(out@ =~= before + ident_piece(c));
        }
        i = i + 1;
        assert(out@ =~= ident_body(cs@.take(i as int)));
    }
    assert(cs@.take(cs.len() as int) =~= ident@);
    let body = chars_of(out.as_str());
    if body.len() > 0 && !is_ascii_letter(body[0]) && body[0] != '_' {
        let mut r = String::new();
        push_char(&mut r, 's');
        push_str(&mut r, out.as_str());
        return r;
    }
    out
}


/// What comes between a shift's glyph and its intrinsic's name.
pub open spec fn shift_middle(var_name: Seq<char>, size: usize) -> Seq<char> {
    let n = decimal(size as nat);
    ") for "@ + n + " elements (Clockless)\n%"@ + var_name + "_shifted = call <"@ + n + " x double> @llvm.rho."@
}

/// What follows a shift's intrinsic's name.
pub open spec fn shift_tail(var_name: Seq<char>, size: usize) -> Seq<char> {
    let n = decimal(size as nat);
    ".<"@ + n + " x double>(<"@ + n + " x double> %"@ + var_name + ")\n"@
}

/// The left-shift text is the right-shift text with its three words
/// renamed: the same text around them, with `Left`, `▽` and `shift_left`
/// where the right shift has `Right`, `▷` and `shift_right`.
pub proof fn law_left_shift_is_right_shift_renamed(var_name: Seq<char>, size: usize)
    ensures
        shift_ir("Right"@, "▷"@, "shift_right"@, var_name, size) == "  ; Vector Shift "@ + "Right"@ + " ("@ + "▷"@
            + shift_middle(var_name, size) + "shift_right"@ + shift_tail(var_name, size),
        shift_ir("Left"@, "▽"@, "shift_left"@, var_name, size) == "  ; Vector Shift "@ + "Left"@ + " ("@ + "▽"@
            + shift_middle(var_name, size) + "shift_left"@ + shift_tail(var_name, size),
{
    let n = decimal(size as nat);
    assert(shift_ir("Right"@, "▷"@, "shift_right"@, var_name, size) =~= "  ; Vector Shift "@ + "Right"@ + " ("@ + "▷"@
        + shift_middle(var_name, size) + "shift_right"@ + shift_tail(var_name, size));
    assert(shift_ir("Left"@, "▽"@, "shift_left"@, var_name, size) =~= "  ; Vector Shift "@ + "Left"@ + " ("@ + "▽"@
        + shift_middle(var_name, size) + "shift_left"@ + shift_tail(var_name, size));
}

} // verus!
