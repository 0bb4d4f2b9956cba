//! The diagnostics a program can be refused with.

use vstd::prelude::*;

verus! {

/// Computational disruption error states in ρ (RHO).
#[derive(Debug, PartialEq, Eq)]
pub enum HarmonyDisruption {
    /// An unregistered symbol or character, or a word the language forbids.
    GlyphErr { symbol: String, line: usize, column: usize },
    /// An operation on an undeclared space.
    SpaceErr { space_name: String, line: usize },
    /// A shape mismatch between two spaces.
    DimensionErr {
        space_a: String,
        shape_a: Vec<usize>,
        space_b: String,
        shape_b: Vec<usize>,
        line: usize,
    },
    /// The program has no equilibrium output point (`=`).
    FlowErr,
    /// A static constraint (`!`) failed.
    LogicErr { expr: String, line: usize },
    /// A construct that cannot be lowered.
    LoweringErr { detail: String, line: usize },
    /// A fixed point (`⇒`) written in a way the language refuses.
    IterateErr { detail: String, line: usize },
    /// A diagnostic raised in the expansion of a call, pointing at the
    /// function's body as well as at the call.
    InFunction { function: String, defined: usize, line: usize, inner: Box<HarmonyDisruption> },
}

/// What a diagnostic says, with its text as character sequences.
pub enum DisruptionV {
    GlyphErr { symbol: Seq<char>, line: usize, column: usize },
    SpaceErr { space_name: Seq<char>, line: usize },
    DimensionErr { space_a: Seq<char>, shape_a: Seq<usize>, space_b: Seq<char>, shape_b: Seq<usize>, line: usize },
    FlowErr,
    LogicErr { expr: Seq<char>, line: usize },
    LoweringErr { detail: Seq<char>, line: usize },
    IterateErr { detail: Seq<char>, line: usize },
    InFunction { function: Seq<char>, defined: usize, line: usize, inner: Box<DisruptionV> },
}

/// The view of a diagnostic.
pub open spec fn disruption_view(e: HarmonyDisruption) -> DisruptionV
    decreases e,
{
    match e {
        HarmonyDisruption::GlyphErr { symbol, line, column } => DisruptionV::GlyphErr { symbol: symbol@, line, column },
        HarmonyDisruption::SpaceErr { space_name, line } => DisruptionV::SpaceErr { space_name: space_name@, line },
        HarmonyDisruption::DimensionErr { space_a, shape_a, space_b, shape_b, line } => DisruptionV::DimensionErr {
            space_a: space_a@,
            shape_a: shape_a@,
            space_b: space_b@,
            shape_b: shape_b@,
            line,
        },
        HarmonyDisruption::FlowErr => DisruptionV::FlowErr,
        HarmonyDisruption::LogicErr { expr, line } => DisruptionV::LogicErr { expr: expr@, line },
        HarmonyDisruption::LoweringErr { detail, line } => DisruptionV::LoweringErr { detail: detail@, line },
        HarmonyDisruption::IterateErr { detail, line } => DisruptionV::IterateErr { detail: detail@, line },
        HarmonyDisruption::InFunction { function, defined, line, inner } => DisruptionV::InFunction {
            function: function@,
            defined,
            line,
            inner: Box::new(disruption_view(*inner)),
        },
    }
}

impl View for HarmonyDisruption {
    type V = DisruptionV;

    open spec fn view(&self) -> DisruptionV {
        disruption_view(*self)
    }
}

/// A copy of a diagnostic.
pub fn copy_disruption(e: &HarmonyDisruption) -> (r: HarmonyDisruption)
    ensures
        r@ == e@,
        line_number(r) == line_number(*e),
    decreases e,
{
    match e {
        HarmonyDisruption::GlyphErr { symbol, line, column } => HarmonyDisruption::GlyphErr {
            symbol: symbol.clone(),
            line: *line,
            column: *column,
        },
        HarmonyDisruption::SpaceErr { space_name, line } => HarmonyDisruption::SpaceErr {
            space_name: space_name.clone(),
            line: *line,
        },
        HarmonyDisruption::DimensionErr { space_a, shape_a, space_b, shape_b, line } => HarmonyDisruption::DimensionErr {
            space_a: space_a.clone(),
            shape_a: crate::ast::copy_dims(shape_a.as_slice()),
            space_b: space_b.clone(),
            shape_b: crate::ast::copy_dims(shape_b.as_slice()),
            line: *line,
        },
        HarmonyDisruption::FlowErr => HarmonyDisruption::FlowErr,
        HarmonyDisruption::LogicErr { expr, line } => HarmonyDisruption::LogicErr { expr: expr.clone(), line: *line },
        HarmonyDisruption::LoweringErr { detail, line } => HarmonyDisruption::LoweringErr {
            detail: detail.clone(),
            line: *line,
        },
        HarmonyDisruption::IterateErr { detail, line } => HarmonyDisruption::IterateErr {
            detail: detail.clone(),
            line: *line,
        },
        HarmonyDisruption::InFunction { function, defined, line, inner } => HarmonyDisruption::InFunction {
            function: function.clone(),
            defined: *defined,
            line: *line,
            inner: Box::new(copy_disruption(inner)),
        },
    }
}

impl Clone for HarmonyDisruption {
    fn clone(&self) -> (r: Self)
        ensures
            r@ == self@,
    {
        copy_disruption(self)
    }
}

/// The line a diagnostic carries, 0 when it carries none.
pub open spec fn line_number(e: HarmonyDisruption) -> usize {
    match e {
        HarmonyDisruption::GlyphErr { line, .. } => line,
        HarmonyDisruption::SpaceErr { line, .. } => line,
        HarmonyDisruption::DimensionErr { line, .. } => line,
        HarmonyDisruption::FlowErr => 0,
        HarmonyDisruption::LogicErr { line, .. } => line,
        HarmonyDisruption::LoweringErr { line, .. } => line,
        HarmonyDisruption::IterateErr { line, .. } => line,
        HarmonyDisruption::InFunction { line, .. } => line,
    }
}

impl HarmonyDisruption {
    /// The source line this diagnostic points at, when it has one.
    pub fn line(&self) -> (r: Option<usize>)
        ensures
            r == (if line_number(*self) > 0 {
                Some(line_number(*self))
            } else {
                None
            }),
    {
        let line = match self {
            HarmonyDisruption::GlyphErr { line, .. } => *line,
            HarmonyDisruption::SpaceErr { line, .. } => *line,
            HarmonyDisruption::DimensionErr { line, .. } => *line,
            HarmonyDisruption::FlowErr => 0,
            HarmonyDisruption::LogicErr { line, .. } => *line,
            HarmonyDisruption::LoweringErr { line, .. } => *line,
            HarmonyDisruption::IterateErr { line, .. } => *line,
            HarmonyDisruption::InFunction { line, .. } => *line,
        };
        if line > 0 {
            Some(line)
        } else {
            None
        }
    }
}

} // verus!
