//! What differential testing needs besides the programs it runs: a
//! reproducible generator, the first cell two runs disagree on, and shapes
//! written as a declaration spells them.

use vstd::prelude::*;
use crate::text::{dims_joined, push_dims_joined};

verus! {

/// A cell's bits, and whether it is a NaN: two NaNs agree whatever their
/// payloads.
#[derive(Clone, Copy, Debug, PartialEq, Eq)]
pub struct CellBits {
    pub bits: u64,
    pub nan: bool,
}

pub open spec fn cells_differ(a: CellBits, b: CellBits) -> bool {
    !(a.nan && b.nan) && a.bits != b.bits
}

/// The first cell, among those both runs have, on which they disagree.
pub fn first_gap(expected: &[CellBits], actual: &[CellBits]) -> (r: Option<usize>)
    ensures
        match r {
            Some(i) => i < expected.len() && i < actual.len() && cells_differ(expected@[i as int], actual@[i as int])
                && forall|j: int| 0 <= j < i ==> !cells_differ(#[trigger] expected@[j], actual@[j]),
            None => forall|j: int|
                0 <= j < expected.len() && j < actual.len() ==> !cells_differ(#[trigger] expected@[j], actual@[j]),
        },
{
    let mut i: usize = 0;
    while i < expected.len() && i < actual.len()
        invariant
            i <= expected.len(),
            forall|j: int| 0 <= j < i ==> !cells_differ(#[trigger] expected@[j], actual@[j]),
        decreases expected.len() - i,
    {
        let (a, b) = (expected[i], actual[i]);
        if !(a.nan && b.nan) && a.bits != b.bits {
            return Some(i);
        }
        i = i + 1;
    }
    None
}

/// One step of xorshift64.
pub open spec fn xorshift(x: u64) -> u64 {
    let a = x ^ (x << 13u64);
    let b = a ^ (a >> 7u64);
    b ^ (b << 17u64)
}

/// Deterministic xorshift, so any failure is reproducible from its seed.
pub struct Rng(pub u64);

impl Rng {
    pub fn next(&mut self) -> (r: u64)
        ensures
            r == xorshift(old(self).0),
            final(self).0 == r,
    {
        self.0 = self.0 ^ (self.0 << 13u64);
        self.0 = self.0 ^ (self.0 >> 7u64);
        self.0 = self.0 ^ (self.0 << 17u64);
        self.0
    }

    /// A number below `n`, or 0 when `n` is 0.
    pub fn below(&mut self, n: usize) -> (r: usize)
        ensures
            final(self).0 == xorshift(old(self).0),
            r == xorshift(old(self).0) % (if n == 0 { 1u64 } else { n as u64 }),
            r < (if n == 0 { 1 } else { n }),
    {
        let m: u64 = if n == 0 { 1 } else { n as u64 };
        (self.next() % m) as usize
    }
}

/// A shape as a declaration lists it: extents separated by spaces.
pub fn dims_of(shape: &[usize]) -> (r: String)
    ensures
        r@ == dims_joined(shape@, seq![' ']),
{
    let mut s = String::new();
    let sep = vec![' '];
    assert(sep@ =~= seq![' ']);
    push_dims_joined(&mut s, shape, sep.as_slice());
    assert(s@ =~= dims_joined(shape@, seq![' ']));
    s
}

} // verus!
