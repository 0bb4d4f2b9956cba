//! The widths a kernel computes at, and fixed-point numbers: the arithmetic
//! an integer datapath does, and the reference for a circuit's bits.
//!
//! `Fixed<W, F>` is `raw` / 2^F in two's complement of W bits: a sum wraps,
//! a product is shifted down with the floor, a quotient is truncated toward
//! zero and a division by zero gives zero. There is no NaN, no infinity and
//! no negative zero.

use vstd::prelude::*;
use crate::ast::BuiltinOp;

verus! {

// ---------------------------------------------------------------- comparisons and widths

/// The comparisons the language and the IR both need.
#[derive(Debug, Clone, Copy, PartialEq, Eq)]
pub enum Compare {
    Gt,
    Lt,
    Gte,
    Lte,
    Eq,
    /// What a non-zero test means: `!=`.
    Ne,
}

/// How wide the numbers a kernel computes with are.
#[derive(Debug, Clone, Copy, PartialEq, Eq)]
pub enum Precision {
    F64,
    F32,
}

impl Default for Precision {
    fn default() -> (r: Self)
        ensures
            r == Precision::F64,
    {
        Precision::F64
    }
}

impl Precision {
    pub fn name(self) -> (r: &'static str)
        ensures
            r@ == (match self {
                Precision::F64 => "f64"@,
                Precision::F32 => "f32"@,
            }),
    {
        match self {
            Precision::F64 => "f64",
            Precision::F32 => "f32",
        }
    }

    /// The LLVM type a value of this precision has.
    pub fn llvm_type(self) -> (r: &'static str)
        ensures
            r@ == (match self {
                Precision::F64 => "double"@,
                Precision::F32 => "float"@,
            }),
    {
        match self {
            Precision::F64 => "double",
            Precision::F32 => "float",
        }
    }

    /// The suffix LLVM's intrinsics carry.
    pub fn intrinsic_suffix(self) -> (r: &'static str)
        ensures
            r@ == (match self {
                Precision::F64 => "f64"@,
                Precision::F32 => "f32"@,
            }),
    {
        match self {
            Precision::F64 => "f64",
            Precision::F32 => "f32",
        }
    }

    /// How many bytes a value of this precision takes.
    pub fn bytes(self) -> (r: usize)
        ensures
            r == (match self {
                Precision::F64 => 8usize,
                Precision::F32 => 4usize,
            }),
    {
        match self {
            Precision::F64 => 8,
            Precision::F32 => 4,
        }
    }
}

// ---------------------------------------------------------------- integer arithmetic

pub open spec fn two_to(n: nat) -> nat
    decreases n,
{
    if n == 0 {
        1
    } else {
        2 * two_to((n - 1) as nat)
    }
}

/// What a `w`-bit two's-complement register holds when `v` is written to
/// it: the value congruent to `v` modulo 2^w in [-2^(w-1), 2^(w-1)).
pub open spec fn wrapped(v: int, w: nat) -> int {
    let m = two_to(w) as int;
    let r = v % m;
    if r >= m / 2 {
        r - m
    } else {
        r
    }
}

/// A quotient truncated toward zero, zero when dividing by zero.
pub open spec fn trunc_div(x: int, d: int) -> int {
    if d == 0 {
        0
    } else {
        let q = (if x >= 0 { x } else { -x }) / (if d >= 0 { d } else { -d });
        if (x >= 0) == (d >= 0) || x == 0 {
            q
        } else {
            -q
        }
    }
}

/// The largest multiple of 2^f not above `v`.
pub open spec fn floor_step(v: int, f: nat) -> int {
    v - v % (two_to(f) as int)
}

/// splitmix64's finaliser.
pub open spec fn mix64(bits: u64) -> u64 {
    let m = 0x1_0000_0000_0000_0000int;
    let z1 = ((bits as int + 0x9E37_79B9_7F4A_7C15int) % m) as u64;
    let z2 = (((z1 ^ (z1 >> 30u64)) as int * 0xBF58_476D_1CE4_E5B9int) % m) as u64;
    let z3 = (((z2 ^ (z2 >> 27u64)) as int * 0x94D0_49BB_1331_11EBint) % m) as u64;
    z3 ^ (z3 >> 31u64)
}

pub proof fn lemma_two_to_grows(a: nat, b: nat)
    requires
        a <= b,
    ensures
        1 <= two_to(a) <= two_to(b),
    decreases b,
{
    lemma_two_to_positive(a);
    if a < b {
        lemma_two_to_grows(a, (b - 1) as nat);
    }
}

pub proof fn lemma_two_to_positive(n: nat)
    ensures
        two_to(n) >= 1,
    decreases n,
{
    if n > 0 {
        lemma_two_to_positive((n - 1) as nat);
    }
}

proof fn lemma_two_to_64()
    ensures
        two_to(64) == 0x1_0000_0000_0000_0000int,
        two_to(63) == 0x8000_0000_0000_0000int,
{
    reveal_with_fuel(two_to, 65);
}

/// 2^n, for n at most 64.
fn power_of_two(n: u32) -> (r: i128)
    requires
        n <= 64,
    ensures
        r == two_to(n as nat),
{
    let mut r: i128 = 1;
    let mut i: u32 = 0;
    while i < n
        invariant
            i <= n <= 64,
            r == two_to(i as nat),
        decreases n - i,
    {
        proof {
            lemma_two_to_grows((i + 1) as nat, 64);
            lemma_two_to_64();
        }
        r = r * 2;
        i = i + 1;
    }
    r
}

/// A product of raw values, shifted down with the floor and wrapped.
pub open spec fn mul_raw(a: int, b: int, w: nat, f: nat) -> int {
    wrapped((a * b) / (two_to(f) as int), w)
}

/// `base` multiplied into one, `k` times over.
pub open spec fn power_steps(base: int, k: nat, w: nat, f: nat) -> int
    decreases k,
{
    if k == 0 {
        wrapped(two_to(f) as int, w)
    } else {
        mul_raw(power_steps(base, (k - 1) as nat, w, f), base, w, f)
    }
}

/// Whether a raw exponent is a whole number of at most 64.
pub open spec fn whole_and_small(e: int, f: nat) -> bool {
    e % (two_to(f) as int) == 0 && -64 * two_to(f) <= e <= 64 * two_to(f)
}

/// A whole power by repeated products; a negative one divides one by the
/// positive power.
pub open spec fn whole_power_raw(base: int, e: int, w: nat, f: nat) -> int {
    let n = e / (two_to(f) as int);
    let k = (if n < 0 { -n } else { n }) as nat;
    let p = power_steps(base, k, w, f);
    if n < 0 {
        if p == 0 {
            0
        } else {
            wrapped(trunc_div(wrapped(two_to(f) as int, w) * two_to(f), p), w)
        }
    } else {
        p
    }
}

/// A fixed-point number: `raw` / 2^F in two's complement of W bits.
#[derive(Clone, Copy, Debug, PartialEq, Eq)]
pub struct Fixed<const W: u32, const F: u32> {
    pub raw: i64,
}

impl<const W: u32, const F: u32> Fixed<W, F> {
    /// The widths this library computes with: a register of at most 64
    /// bits with a fraction narrower than it.
    pub open spec fn widths_ok() -> bool {
        1 <= W <= 64 && F < W && F <= 62
    }

    /// The raw value of one.
    pub fn one() -> (r: i64)
        requires
            Self::widths_ok(),
        ensures
            r == two_to(F as nat),
    {
        proof {
            lemma_two_to_grows(F as nat, 62);
            lemma_two_to_grows(62, 63);
            lemma_two_to_64();
        }
        power_of_two(F) as i64
    }

    /// The most positive raw value the width holds.
    pub fn max_raw() -> (r: i64)
        requires
            Self::widths_ok(),
        ensures
            r == two_to((W - 1) as nat) - 1,
    {
        proof {
            lemma_two_to_grows((W - 1) as nat, 63);
            lemma_two_to_64();
        }
        (power_of_two(W - 1) - 1) as i64
    }

    /// The most negative raw value the width holds.
    pub fn min_raw() -> (r: i64)
        requires
            Self::widths_ok(),
        ensures
            r == -two_to((W - 1) as nat),
    {
        proof {
            lemma_two_to_grows((W - 1) as nat, 63);
            lemma_two_to_64();
        }
        (-power_of_two(W - 1)) as i64
    }

    /// Keep the low W bits, sign-extended: what a W-bit register holds.
    pub fn wrap(v: i128) -> (r: Self)
        requires
            1 <= W <= 64,
        ensures
            r.raw == wrapped(v as int, W as nat),
    {
        let m = power_of_two(W);
        proof {
            lemma_two_to_grows(W as nat, 64);
            lemma_two_to_64();
            lemma_two_to_grows(1, W as nat);
        }
        let r = match v.checked_rem_euclid(m) {
            Some(x) => x,
            None => 0,
        };
        let half = m / 2;
        let signed = if r >= half { r - m } else { r };
        Fixed { raw: signed as i64 }
    }

    pub fn add(&self, o: &Self) -> (r: Self)
        requires
            Self::widths_ok(),
        ensures
            r.raw == wrapped(self.raw + o.raw, W as nat),
    {
        Self::wrap(self.raw as i128 + o.raw as i128)
    }

    pub fn sub(&self, o: &Self) -> (r: Self)
        requires
            Self::widths_ok(),
        ensures
            r.raw == wrapped(self.raw - o.raw, W as nat),
    {
        Self::wrap(self.raw as i128 - o.raw as i128)
    }

    /// The product, shifted down with the floor.
    pub fn mul(&self, o: &Self) -> (r: Self)
        requires
            Self::widths_ok(),
        ensures
            r.raw == wrapped((self.raw * o.raw) / (two_to(F as nat) as int), W as nat),
    {
        let d = power_of_two(F);
        proof {
            lemma_two_to_grows(F as nat, 62);
            lemma_two_to_grows(62, 64);
            lemma_two_to_64();
            assert(self.raw * o.raw <= 0x4000_0000_0000_0000_0000_0000_0000_0000int) by (nonlinear_arith)
                requires
                    -0x8000_0000_0000_0000int <= self.raw <= 0x7fff_ffff_ffff_ffffint,
                    -0x8000_0000_0000_0000int <= o.raw <= 0x7fff_ffff_ffff_ffffint,
            ;
            assert(self.raw * o.raw >= -0x4000_0000_0000_0000_0000_0000_0000_0000int) by (nonlinear_arith)
                requires
                    -0x8000_0000_0000_0000int <= self.raw <= 0x7fff_ffff_ffff_ffffint,
                    -0x8000_0000_0000_0000int <= o.raw <= 0x7fff_ffff_ffff_ffffint,
            ;
        }
        let p = self.raw as i128 * o.raw as i128;
        proof {
            let pi = p as int;
            let di = d as int;
            assert(-0x4000_0000_0000_0000_0000_0000_0000_0000int <= pi / di <= 0x4000_0000_0000_0000_0000_0000_0000_0000int)
                by (nonlinear_arith)
                requires
                    -0x4000_0000_0000_0000_0000_0000_0000_0000int <= pi <= 0x4000_0000_0000_0000_0000_0000_0000_0000int,
                    di >= 1,
            {
                if pi >= 0 {
                    assert(pi / di <= pi);
                } else {
                    assert(pi / di >= pi);
                }
            }
        }
        let q = match p.checked_div_euclid(d) {
            Some(x) => x,
            None => 0,
        };
        Self::wrap(q)
    }

    /// The quotient, truncated toward zero; zero when dividing by zero.
    pub fn div(&self, o: &Self) -> (r: Self)
        requires
            Self::widths_ok(),
        ensures
            o.raw == 0 ==> r.raw == 0,
            o.raw != 0 ==> r.raw == wrapped(trunc_div(self.raw * two_to(F as nat), o.raw as int), W as nat),
    {
        if o.raw == 0 {
            return Fixed { raw: 0 };
        }
        let d = power_of_two(F);
        proof {
            lemma_two_to_grows(F as nat, 62);
            lemma_two_to_64();
            assert(self.raw * d <= 0x2000_0000_0000_0000_0000_0000_0000_0000int) by (nonlinear_arith)
                requires
                    -0x8000_0000_0000_0000int <= self.raw <= 0x7fff_ffff_ffff_ffffint,
                    1 <= d <= 0x4000_0000_0000_0000int,
            ;
            assert(self.raw * d >= -0x2000_0000_0000_0000_0000_0000_0000_0000int) by (nonlinear_arith)
                requires
                    -0x8000_0000_0000_0000int <= self.raw <= 0x7fff_ffff_ffff_ffffint,
                    1 <= d <= 0x4000_0000_0000_0000int,
            ;
        }
        let x = self.raw as i128 * d;
        let q = match x.checked_div(o.raw as i128) {
            Some(v) => v,
            None => 0,
        };
        proof {
            let xi = x as int;
            let di = o.raw as int;
            if xi != 0 {
                assert(q == trunc_div(xi, di)) by (nonlinear_arith)
                    requires
                        xi != 0,
                        di != 0,
                        q == (if xi > 0 && di > 0 {
                            xi / di
                        } else if xi < 0 && di < 0 {
                            (xi * -1) / (di * -1)
                        } else if xi < 0 {
                            ((xi * -1) / di) * -1
                        } else {
                            (xi / (di * -1)) * -1
                        }),
                ;
            }
        }
        Self::wrap(q)
    }

    /// The magnitude, wrapped: the most negative value is its own.
    pub fn abs(&self) -> (r: Self)
        requires
            Self::widths_ok(),
        ensures
            r.raw == wrapped(if self.raw < 0 { -self.raw } else { self.raw as int }, W as nat),
    {
        let v = self.raw as i128;
        Self::wrap(if v < 0 { -v } else { v })
    }

    /// One where the value is not zero, zero elsewhere.
    pub fn indicator(&self) -> (r: Self)
        requires
            Self::widths_ok(),
        ensures
            r.raw == (if self.raw != 0 { two_to(F as nat) as int } else { 0 }),
    {
        Fixed { raw: if self.raw != 0 { Self::one() } else { 0 } }
    }

    /// The largest whole number not above the value.
    pub fn floor(&self) -> (r: Self)
        requires
            Self::widths_ok(),
        ensures
            r.raw == floor_step(self.raw as int, F as nat),
    {
        let d = power_of_two(F);
        proof {
            lemma_two_to_grows(F as nat, 62);
            lemma_two_to_64();
        }
        let v = self.raw as i128;
        let rem = match v.checked_rem_euclid(d) {
            Some(x) => x,
            None => 0,
        };
        proof {
            lemma_floor_in_range(self.raw as int, F as nat);
        }
        (Fixed { raw: (v - rem) as i64 })
    }

    /// The smallest whole number not below the value, wrapped.
    pub fn ceil(&self) -> (r: Self)
        requires
            Self::widths_ok(),
        ensures
            r.raw == wrapped(floor_step(self.raw + two_to(F as nat) - 1, F as nat), W as nat),
    {
        let d = power_of_two(F);
        proof {
            lemma_two_to_grows(F as nat, 62);
            lemma_two_to_64();
        }
        let v = self.raw as i128 + d - 1;
        let rem = match v.checked_rem_euclid(d) {
            Some(x) => x,
            None => 0,
        };
        Self::wrap(v - rem)
    }

    /// A number in [0, 1) from the value's W bits sign-extended to 64: the
    /// top F bits of splitmix64's finaliser over them.
    pub fn roll(&self) -> (r: Self)
        requires
            Self::widths_ok(),
            F >= 1,
        ensures
            r.raw == (mix64(self.raw as u64) >> ((64 - F) as u64)) as int,
            0 <= r.raw < two_to(F as nat),
    {
        let bits = #[verifier::truncate] (self.raw as u64);
        let m: u128 = 0x1_0000_0000_0000_0000;
        let z1 = ((bits as u128 + 0x9E37_79B9_7F4A_7C15u128) % m) as u64;
        let z2 = (((z1 ^ (z1 >> 30u64)) as u128 * 0xBF58_476D_1CE4_E5B9u128) % m) as u64;
        let z3 = (((z2 ^ (z2 >> 27u64)) as u128 * 0x94D0_49BB_1331_11EBu128) % m) as u64;
        let z = z3 ^ (z3 >> 31u64);
        let s: u64 = (64 - F) as u64;
        let top = z >> s;
        proof {
            assert(z == mix64(self.raw as u64));
            lemma_shift_bound(z, s);
            lemma_shl_is_two_to((64 - s) as u64);
            assert((64 - s) as u64 == F);
            lemma_two_to_grows(F as nat, 63);
            lemma_two_to_64();
            assert(top < two_to(F as nat));
        }
        Fixed { raw: top as i64 }
    }

    /// How two values compare.
    pub fn compare(&self, o: &Self, how: Compare) -> (r: bool)
        ensures
            r == (match how {
                Compare::Gt => self.raw > o.raw,
                Compare::Lt => self.raw < o.raw,
                Compare::Gte => self.raw >= o.raw,
                Compare::Lte => self.raw <= o.raw,
                Compare::Eq => self.raw == o.raw,
                Compare::Ne => self.raw != o.raw,
            }),
    {
        match how {
            Compare::Gt => self.raw > o.raw,
            Compare::Lt => self.raw < o.raw,
            Compare::Gte => self.raw >= o.raw,
            Compare::Lte => self.raw <= o.raw,
            Compare::Eq => self.raw == o.raw,
            Compare::Ne => self.raw != o.raw,
        }
    }

    /// One of two values, as a flag decides.
    pub fn select(condition: &bool, a: &Self, b: &Self) -> (r: Self)
        ensures
            r == (if *condition { *a } else { *b }),
    {
        if *condition {
            *a
        } else {
            *b
        }
    }

    /// The value to a whole power of at most 64, by repeated products as
    /// the datapath computes it; `None` for any other exponent, whose power
    /// goes through a double.
    pub fn whole_power(&self, exponent: &Self) -> (r: Option<Self>)
        requires
            Self::widths_ok(),
        ensures
            whole_and_small(exponent.raw as int, F as nat) <==> r is Some,
            r matches Some(p) ==> p.raw == whole_power_raw(self.raw as int, exponent.raw as int, W as nat, F as nat),
    {
        let d: i64 = Self::one();
        proof {
            lemma_two_to_grows(F as nat, 62);
            lemma_two_to_64();
            lemma_two_to_grows(0, F as nat);
        }
        let rem = match exponent.raw.checked_rem_euclid(d) {
            Some(x) => x,
            None => 1,
        };
        if rem != 0 {
            return None;
        }
        proof {
            let x = exponent.raw as int;
            let di = d as int;
            assert(i64::MIN <= x / di <= i64::MAX) by (nonlinear_arith)
                requires
                    i64::MIN <= x <= i64::MAX,
                    di >= 1,
            {
                if x >= 0 {
                    assert(x / di <= x);
                } else {
                    assert(x / di >= x);
                }
            }
        }
        let n = match exponent.raw.checked_div_euclid(d) {
            Some(x) => x,
            None => 0,
        };
        proof {
            vstd::arithmetic::div_mod::lemma_fundamental_div_mod(exponent.raw as int, d as int);
            assert(rem == exponent.raw % d);
            assert(n == exponent.raw / d);
            assert(exponent.raw == d * n);
        }
        if n < -64 || n > 64 {
            proof {
                assert(!(-64 * two_to(F as nat) <= exponent.raw <= 64 * two_to(F as nat))) by (nonlinear_arith)
                    requires
                        exponent.raw == d * n,
                        d == two_to(F as nat),
                        d >= 1,
                        n < -64 || n > 64,
                ;
            }
            return None;
        }
        proof {
            assert(-64 * two_to(F as nat) <= exponent.raw <= 64 * two_to(F as nat)) by (nonlinear_arith)
                requires
                    exponent.raw == d * n,
                    d == two_to(F as nat),
                    d >= 1,
                    -64 <= n <= 64,
            ;
        }
        let steps: i64 = if n < 0 { -n } else { n };
        let one = Self::wrap(d as i128);
        let mut acc = one;
        let mut k: i64 = 0;
        while k < steps
            invariant
                Self::widths_ok(),
                0 <= k <= steps,
                acc.raw == power_steps(self.raw as int, k as nat, W as nat, F as nat),
            decreases steps - k,
        {
            acc = acc.mul(self);
            k = k + 1;
        }
        assert(n == exponent.raw as int / (two_to(F as nat) as int));
        assert(steps as nat == (if n < 0 { -n } else { n as int }) as nat);
        if n < 0 {
            let q = one.div(&acc);
            assert(q.raw == whole_power_raw(self.raw as int, exponent.raw as int, W as nat, F as nat));
            Some(q)
        } else {
            Some(acc)
        }
    }

    /// What the datapath computes for a named function it has in integers:
    /// magnitude, indicator, floor, ceiling and roll. The others go through
    /// a double and are not the datapath's.
    pub fn unary(&self, op: BuiltinOp) -> (r: Option<Self>)
        requires
            Self::widths_ok(),
            F >= 1,
        ensures
            match op {
                BuiltinOp::Abs => r == Some(
                    Fixed::<W, F> { raw: wrapped(if self.raw < 0 { -self.raw } else { self.raw as int }, W as nat) as i64 },
                ),
                BuiltinOp::Indicator => r == Some(
                    Fixed::<W, F> { raw: (if self.raw != 0 { two_to(F as nat) as int } else { 0 }) as i64 },
                ),
                BuiltinOp::Floor => r == Some(Fixed::<W, F> { raw: floor_step(self.raw as int, F as nat) as i64 }),
                BuiltinOp::Ceil => r == Some(
                    Fixed::<W, F> { raw: wrapped(floor_step(self.raw + two_to(F as nat) - 1, F as nat), W as nat) as i64 },
                ),
                BuiltinOp::Roll => r == Some(
                    Fixed::<W, F> { raw: (mix64(self.raw as u64) >> ((64 - F) as u64)) as i64 },
                ),
                _ => r is None,
            },
    {
        match op {
            BuiltinOp::Abs => Some(self.abs()),
            BuiltinOp::Indicator => Some(self.indicator()),
            BuiltinOp::Floor => Some(self.floor()),
            BuiltinOp::Ceil => Some(self.ceil()),
            BuiltinOp::Roll => Some(self.roll()),
            _ => None,
        }
    }
}

proof fn lemma_floor_in_range(v: int, f: nat)
    requires
        -0x8000_0000_0000_0000int <= v <= 0x7fff_ffff_ffff_ffffint,
        f <= 62,
    ensures
        -0x8000_0000_0000_0000int <= floor_step(v, f) <= v,
{
    lemma_two_to_grows(f, 62);
    lemma_two_to_grows(f, 63);
    lemma_two_to_64();
    let d = two_to(f) as int;
    let r = v % d;
    assert(0 <= r < d);
    // The most negative i64 is a multiple of 2^f, so the floor cannot pass it.
    lemma_min_is_multiple(f);
    let lo = -0x8000_0000_0000_0000int;
    assert(lo % d == 0);
    vstd::arithmetic::div_mod::lemma_fundamental_div_mod(v, d);
    vstd::arithmetic::div_mod::lemma_fundamental_div_mod(lo, d);
    let q = v / d;
    let ql = lo / d;
    assert(q >= ql) by (nonlinear_arith)
        requires
            v == d * q + r,
            lo == d * ql,
            0 <= r < d,
            v >= lo,
            d >= 1,
    ;
    assert(d * q >= d * ql) by (nonlinear_arith)
        requires
            q >= ql,
            d >= 1,
    ;
    assert(r >= 0);
}

proof fn lemma_min_is_multiple(f: nat)
    requires
        f <= 62,
    ensures
        (-0x8000_0000_0000_0000int) % (two_to(f) as int) == 0,
    decreases 63 - f,
{
    lemma_two_to_grows(f, 63);
    lemma_two_to_split(f, (63 - f) as nat);
    lemma_two_to_64();
    let d = two_to(f) as int;
    let k = two_to((63 - f) as nat) as int;
    assert(f + (63 - f) as nat == 63);
    assert(d * k == 0x8000_0000_0000_0000int);
    assert(-0x8000_0000_0000_0000int == (-k) * d) by (nonlinear_arith)
        requires
            d * k == 0x8000_0000_0000_0000int,
    ;
    vstd::arithmetic::div_mod::lemma_mod_multiples_basic(-k, d);
}

proof fn lemma_two_to_split(a: nat, b: nat)
    ensures
        two_to(a + b) == two_to(a) * two_to(b),
    decreases b,
{
    if b > 0 {
        let b1 = (b - 1) as nat;
        lemma_two_to_split(a, b1);
        let x = two_to(a);
        let y = two_to(b1);
        assert(two_to(a + b) == 2 * two_to(a + b1));
        assert(two_to(b) == 2 * y);
        assert(x * (2 * y) == 2 * (x * y)) by (nonlinear_arith);
    } else {
        assert(a + b == a);
        assert(two_to(b) == 1);
    }
}

proof fn lemma_shift_bound(z: u64, s: u64)
    requires
        2 <= s <= 63,
    ensures
        (z >> s) < (1u64 << ((64 - s) as u64)),
{
    let t: u64 = (64 - s) as u64;
    assert((z >> s) < (1u64 << t)) by (bit_vector)
        requires
            2 <= s <= 63,
            t == 64 - s,
    ;
}

proof fn lemma_shl_is_two_to(n: u64)
    requires
        n <= 63,
    ensures
        (1u64 << n) == two_to(n as nat),
    decreases n,
{
    if n > 0 {
        let m: u64 = (n - 1) as u64;
        lemma_shl_is_two_to(m);
        assert((1u64 << n) == 2 * (1u64 << m)) by (bit_vector)
            requires
                1 <= n <= 63,
                m + 1 == n,
        ;
    } else {
        assert((1u64 << 0u64) == 1) by (bit_vector);
    }
}


// ---------------------------------------------------------------- laws

proof fn lemma_half(w: nat)
    requires
        w >= 1,
    ensures
        two_to(w) as int == 2 * two_to((w - 1) as nat),
        (two_to(w) as int) / 2 == two_to((w - 1) as nat),
{
}

/// What a register holds is in its range, and differs from what was
/// written by a whole number of turns around it.
pub proof fn law_wrap_in_range(v: int, w: nat)
    requires
        w >= 1,
    ensures
        -(two_to((w - 1) as nat) as int) <= wrapped(v, w) < two_to((w - 1) as nat),
        (v - wrapped(v, w)) % (two_to(w) as int) == 0,
{
    lemma_half(w);
    lemma_two_to_positive(w);
    let m = two_to(w) as int;
    vstd::arithmetic::div_mod::lemma_fundamental_div_mod(v, m);
    let q = v / m;
    let r = v % m;
    if r >= m / 2 {
        assert(v - (r - m) == m * (q + 1)) by (nonlinear_arith)
            requires
                v == m * q + r,
        ;
        vstd::arithmetic::div_mod::lemma_mod_multiples_vanish(q + 1, 0, m);
    } else {
        vstd::arithmetic::div_mod::lemma_mod_multiples_vanish(q, 0, m);
    }
}

/// A register written with a value it holds holds that value.
pub proof fn law_wrap_keeps_what_fits(v: int, w: nat)
    requires
        w >= 1,
        -(two_to((w - 1) as nat) as int) <= v < two_to((w - 1) as nat),
    ensures
        wrapped(v, w) == v,
{
    lemma_half(w);
    let m = two_to(w) as int;
    if v >= 0 {
        vstd::arithmetic::div_mod::lemma_small_mod(v as nat, m as nat);
    } else {
        vstd::arithmetic::div_mod::lemma_mod_multiples_vanish(-1, v + m, m);
        vstd::arithmetic::div_mod::lemma_small_mod((v + m) as nat, m as nat);
        assert(m * -1 + (v + m) == v);
    }
}

/// Values a whole number of turns apart are held alike.
pub proof fn law_wrap_periodic(v: int, k: int, w: nat)
    requires
        w >= 1,
    ensures
        wrapped(v + k * (two_to(w) as int), w) == wrapped(v, w),
{
    lemma_two_to_positive(w);
    let m = two_to(w) as int;
    assert(v + k * m == m * k + v) by (nonlinear_arith);
    vstd::arithmetic::div_mod::lemma_mod_multiples_vanish(k, v, m);
}

/// Writing to a register again changes nothing.
pub proof fn law_wrap_idempotent(v: int, w: nat)
    requires
        w >= 1,
    ensures
        wrapped(wrapped(v, w), w) == wrapped(v, w),
{
    law_wrap_in_range(v, w);
    law_wrap_keeps_what_fits(wrapped(v, w), w);
}

/// Subtracting what was added gives back what was there, however the sum
/// wrapped: for every value a register holds and every addend.
pub proof fn law_sub_undoes_add(a: int, b: int, w: nat)
    requires
        w >= 1,
        -(two_to((w - 1) as nat) as int) <= a < two_to((w - 1) as nat),
    ensures
        wrapped(wrapped(a + b, w) - b, w) == a,
{
    lemma_two_to_positive(w);
    let m = two_to(w) as int;
    law_wrap_in_range(a + b, w);
    let s = wrapped(a + b, w);
    vstd::arithmetic::div_mod::lemma_fundamental_div_mod(a + b - s, m);
    let k = (a + b - s) / m;
    assert(s - b == a + (-k) * m) by (nonlinear_arith)
        requires
            a + b - s == m * k + 0,
    ;
    law_wrap_periodic(a, -k, w);
    law_wrap_keeps_what_fits(a, w);
}

/// The floor of a value is a whole number of steps, at most the value and
/// less than a step below it.
pub proof fn law_floor_step(v: int, f: nat)
    ensures
        floor_step(v, f) <= v < floor_step(v, f) + two_to(f),
        floor_step(v, f) % (two_to(f) as int) == 0,
        floor_step(floor_step(v, f), f) == floor_step(v, f),
{
    lemma_two_to_positive(f);
    let d = two_to(f) as int;
    vstd::arithmetic::div_mod::lemma_fundamental_div_mod(v, d);
    let q = v / d;
    assert(floor_step(v, f) == d * q + 0);
    vstd::arithmetic::div_mod::lemma_mod_multiples_vanish(q, 0, d);
}

} // verus!
