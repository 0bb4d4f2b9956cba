//! What the SystemVerilog target produces, and how it spells names.

use vstd::prelude::*;
use crate::error::{disruption_view, DisruptionV, HarmonyDisruption};
use crate::text::{ascii_alnum, chars_of, is_ascii_alnum, push_char, push_str};

verus! {

/// A program as a pipelined circuit: its module and test harness, its
/// input ports, and how long a cell takes to pass through.
#[derive(Debug)]
pub struct Circuit {
    pub module: String,
    pub harness: String,
    /// Input spaces in port order, with their cell counts.
    pub inputs: Vec<(String, usize)>,
    /// Cells of OUTPUT.
    pub output_cells: usize,
    /// Clocks from a cell entering to its output cell leaving.
    pub latency: usize,
}

/// A construct the SystemVerilog subset lacks.
pub fn unsupported(what: &str, line: usize) -> (r: HarmonyDisruption)
    ensures
        disruption_view(r) == (DisruptionV::LoweringErr {
            detail: what@ + " is not yet in the SystemVerilog subset (--emit-sv)"@,
            line,
        }),
{
    let mut m = String::new();
    push_str(&mut m, what);
    push_str(&mut m, " is not yet in the SystemVerilog subset (--emit-sv)");
    HarmonyDisruption::LoweringErr { detail: m, line }
}

/// What a character of a name becomes in SystemVerilog.
pub open spec fn ident_char(c: char) -> char {
    if ascii_alnum(c) || c == '_' {
        c
    } else {
        '_'
    }
}

/// A name as a SystemVerilog identifier: every character outside
/// `[A-Za-z0-9_]` becomes `_`.
pub fn ident(name: &str) -> (r: String)
    ensures
        r@ == name@.map_values(|c: char| ident_char(c)),
{
    let cs = chars_of(name);
    let mut out = String::new();
    let mut i: usize = 0;
    while i < cs.len()
        invariant
            i <= cs.len(),
            cs@ == name@,
            out@ == cs@.take(i as int).map_values(|c: char| ident_char(c)),
        decreases cs.len() - i,
    {
        let c = cs[i];
        push_char(&mut out, if is_ascii_alnum(c) || c == '_' { c } else { '_' });
        i = i + 1;
        assert(out@ =~= cs@.take(i as int).map_values(|c: char| ident_char(c)));
    }
    assert(cs@.take(cs.len() as int) =~= cs@);
    out
}

} // verus!
