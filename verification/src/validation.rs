//! Translation validation's outcomes, and the entrypoints a proof is made
//! through.

use vstd::prelude::*;
use crate::text::push_str;

verus! {

/// What comparing the source's meaning with the emitted IR found.
pub enum Verdict {
    /// The two agree for every input.
    Equivalent,
    /// They differ, with the cell and an input that shows it.
    Differs { cell: usize, witness: String },
    /// The solver could not settle it.
    Unknown(String),
    /// Something upstream stopped the comparison from happening.
    NotChecked(String),
}

/// A validation's verdict and the size of what was compared.
pub struct Validation {
    pub verdict: Verdict,
    /// Nodes in the two expression graphs, as a sense of the problem's size.
    pub source_nodes: usize,
    pub target_nodes: usize,
    /// How many entrypoints were proved.
    pub entrypoints: usize,
}

/// Which C entrypoint the IR is read through.
#[derive(Debug, Clone, Copy, PartialEq, Eq)]
pub enum Entrypoint {
    /// `rho_kernel_exec_with_args(in, out)`: INPUT and OUTPUT only.
    WithArgs,
    /// `rho_kernel_exec_spaces(void **)`: one pointer per space.
    Spaces,
}

impl Entrypoint {
    pub fn symbol(self) -> (r: &'static str)
        ensures
            r@ == (match self {
                Entrypoint::WithArgs => "rho_kernel_exec_with_args"@,
                Entrypoint::Spaces => "rho_kernel_exec_spaces"@,
            }),
    {
        match self {
            Entrypoint::WithArgs => "rho_kernel_exec_with_args",
            Entrypoint::Spaces => "rho_kernel_exec_spaces",
        }
    }
}

pub open spec fn unchecked_reason() -> Seq<char> {
    "translation validation needs the SMT backend; build with --features z3-solver"@
}

/// Compare two expression graphs built elsewhere. This build has no SMT
/// backend, so the comparison is not made, and says so.
pub fn compare<T>(source: &[T], target: &[T]) -> (r: Verdict)
    ensures
        r matches Verdict::NotChecked(m) && m@ == unchecked_reason(),
{
    let mut m = String::new();
    push_str(&mut m, "translation validation needs the SMT backend; build with --features z3-solver");
    Verdict::NotChecked(m)
}

} // verus!
