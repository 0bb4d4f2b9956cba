//! A whole program: definitions, then statements, with every call expanded
//! and the static checks passed.

use vstd::prelude::*;
use vstd::slice::slice_subrange;
use crate::ast::{statement_view, statements_view, FlowTarget, Function, Origin, Statement, StatementV, TargetV, ToposBlock};
use crate::definition::{
    RawDefinition,
    definition_spec, definitions_spec, function_view, names_view, parse_definition, split_definitions, FunctionV,
    RawDefinitionV, raw_defs_view, lines_view,
};
use crate::error::{disruption_view, line_number, DisruptionV, HarmonyDisruption};
use crate::expand::{
    expand_expr, functions_view, lookup, origin_view, out_view, state_of, with_out, ExpState, Expander, OriginV,
};
use crate::expression::signatures;
use crate::lexer::{aliases, keywords_fault, normalized, strip_comments, symbols_fault};
use crate::parser::{declarations_fault, dimensions_fault, has_equilibrium};
use crate::statement::{line_outcome, line_spec, parse_line, strip_leading, strip_trailing};
use crate::text::{chars_of, push_str, trim, trim_range};

verus! {

// ---------------------------------------------------------------- expansion of a program

pub open spec fn hoist_detail() -> Seq<char> {
    "a call inside `⇒` may only be to a function with an expression body, with names or numbers as arguments, in this version"@
}

/// One statement with its calls expanded, on `line`.
pub open spec fn rewrite_statement(fs: Seq<FunctionV>, s: StatementV, line: usize, st: ExpState) -> Result<
    (StatementV, ExpState),
    DisruptionV,
> {
    let b = fs.len();
    match s {
        StatementV::Flow { src, target } => match expand_expr(fs, b, src, line, st) {
            Ok((x, s2)) => Ok((StatementV::Flow { src: x, target }, s2)),
            Err(e) => Err(e),
        },
        StatementV::Constraint(e) => match expand_expr(fs, b, e, line, st) {
            Ok((x, s2)) => Ok((StatementV::Constraint(x), s2)),
            Err(er) => Err(er),
        },
        StatementV::AuditTrace(e) => match expand_expr(fs, b, e, line, st) {
            Ok((x, s2)) => Ok((StatementV::AuditTrace(x), s2)),
            Err(er) => Err(er),
        },
        StatementV::Iterate { src, target } => match expand_expr(fs, b, src, line, st) {
            Ok((x, s2)) => if s2.out.len() != st.out.len() {
                Err(DisruptionV::IterateErr { detail: hoist_detail(), line })
            } else {
                Ok((StatementV::Iterate { src: x, target }, s2))
            },
            Err(e) => Err(e),
        },
        _ => Ok((s, st)),
    }
}

/// Expanding the statements from the `k`-th on.
pub open spec fn expand_from(fs: Seq<FunctionV>, stmts: Seq<StatementV>, lines: Seq<usize>, k: int, st: ExpState) -> Result<
    ExpState,
    DisruptionV,
>
    decreases stmts.len() - k,
{
    if k < 0 || k >= stmts.len() || k >= lines.len() {
        Ok(st)
    } else {
        let line = lines[k];
        match rewrite_statement(fs, stmts[k], line, ExpState { inlined: None, ..st }) {
            Err(e) => Err(e),
            Ok((s2, st2)) => expand_from(fs, stmts, lines, k + 1, ExpState { inlined: None, ..with_out(st2, s2, line, st2.inlined) }),
        }
    }
}

/// The statements, lines and origins of a program once its calls are
/// expanded.
pub open spec fn expansion_spec(fs: Seq<FunctionV>, stmts: Seq<StatementV>, lines: Seq<usize>) -> Result<
    Seq<(StatementV, usize, Option<OriginV>)>,
    DisruptionV,
> {
    match expand_from(fs, stmts, lines, 0, ExpState { calls: 0, inlined: None, out: Seq::empty() }) {
        Ok(st) => Ok(st.out),
        Err(e) => Err(e),
    }
}

type Expanded = (Vec<Statement>, Vec<usize>, Vec<Option<Origin>>);

pub open spec fn firsts(v: Seq<(StatementV, usize, Option<OriginV>)>) -> Seq<StatementV> {
    v.map_values(|t: (StatementV, usize, Option<OriginV>)| t.0)
}

pub open spec fn seconds(v: Seq<(StatementV, usize, Option<OriginV>)>) -> Seq<usize> {
    v.map_values(|t: (StatementV, usize, Option<OriginV>)| t.1)
}

pub open spec fn thirds(v: Seq<(StatementV, usize, Option<OriginV>)>) -> Seq<Option<OriginV>> {
    v.map_values(|t: (StatementV, usize, Option<OriginV>)| t.2)
}

pub open spec fn origins_view(v: Seq<Option<Origin>>) -> Seq<Option<OriginV>> {
    v.map_values(|o: Option<Origin>| origin_view(o))
}

pub(crate) fn copy_origin(o: &Option<Origin>) -> (r: Option<Origin>)
    ensures
        origin_view(r) == origin_view(*o),
{
    match o {
        Some(x) => Some(Origin { function: x.function.clone(), body_line: x.body_line }),
        None => None,
    }
}

/// One statement with its calls expanded.
fn rewrite(ex: &mut Expander, fns: &[Function], stmt: Statement, line: usize) -> (r: Result<Statement, HarmonyDisruption>)
    ensures
        match r {
            Ok(s) => rewrite_statement(functions_view(fns@), statement_view(stmt), line, state_of(*old(ex))) == Ok::<
                (StatementV, ExpState),
                DisruptionV,
            >((statement_view(s), state_of(*final(ex)))),
            Err(e) => rewrite_statement(functions_view(fns@), statement_view(stmt), line, state_of(*old(ex))) == Err::<
                (StatementV, ExpState),
                DisruptionV,
            >(disruption_view(e)),
        },
{
    let b = fns.len();
    assert(functions_view(fns@).len() == b);
    match stmt {
        Statement::Flow { src, target } => match ex.expression(fns, b, &src, line) {
            Ok(x) => Ok(Statement::Flow { src: x, target }),
            Err(e) => Err(e),
        },
        Statement::Constraint(e) => match ex.expression(fns, b, &e, line) {
            Ok(x) => Ok(Statement::Constraint(x)),
            Err(er) => Err(er),
        },
        Statement::AuditTrace(e) => match ex.expression(fns, b, &e, line) {
            Ok(x) => Ok(Statement::AuditTrace(x)),
            Err(er) => Err(er),
        },
        Statement::Iterate { src, target } => {
            let before = ex.out.len();
            let x = match ex.expression(fns, b, &src, line) {
                Ok(x) => x,
                Err(er) => return Err(er),
            };
            if ex.out.len() != before {
                let mut m = String::new();
                push_str(
                    &mut m,
                    "a call inside `⇒` may only be to a function with an expression body, with names or numbers as arguments, in this version",
                );
                return Err(HarmonyDisruption::IterateErr { detail: m, line });
            }
            Ok(Statement::Iterate { src: x, target })
        },
        other => Ok(other),
    }
}

/// Replace every call with the function's body, the arguments bound.
pub fn expand_calls(statements: Vec<Statement>, lines: Vec<usize>, functions: &[Function]) -> (r: Result<
    Expanded,
    HarmonyDisruption,
>)
    ensures
        match r {
            Ok((s, l, o)) => expansion_spec(functions_view(functions@), statements_view(statements@), lines@) matches Ok(
                out,
            ) && statements_view(s@) == firsts(out) && l@ == seconds(out) && origins_view(o@) == thirds(out),
            Err(e) => expansion_spec(functions_view(functions@), statements_view(statements@), lines@) == Err::<
                Seq<(StatementV, usize, Option<OriginV>)>,
                DisruptionV,
            >(disruption_view(e)),
        },
{
    let ghost fv = functions_view(functions@);
    let ghost sv = statements_view(statements@);
    let ghost whole = expand_from(fv, sv, lines@, 0, ExpState { calls: 0, inlined: None, out: Seq::empty() });
    let mut ex = Expander { calls: 0, inlined: None, out: Vec::new() };
    assert(out_view(ex.out@) =~= Seq::<(StatementV, usize, Option<OriginV>)>::empty());
    assert(state_of(ex) == ExpState { calls: 0, inlined: None, out: Seq::<(StatementV, usize, Option<OriginV>)>::empty() });

    let n = if statements.len() < lines.len() { statements.len() } else { lines.len() };
    let mut k: usize = 0;
    while k < n
        invariant
            k <= n,
            n <= statements.len(),
            n <= lines.len(),
            n == statements.len() || n == lines.len(),
            sv == statements_view(statements@),
            fv == functions_view(functions@),
            ex.inlined is None,
            whole == expand_from(fv, sv, lines@, 0, ExpState { calls: 0, inlined: None, out: Seq::empty() }),
            whole == expand_from(fv, sv, lines@, k as int, state_of(ex)),
        decreases n - k,
    {
        let line = lines[k];
        let stmt = crate::ast::copy_statement(&statements[k]);
        assert(statement_view(stmt) == sv[k as int]);
        let ghost st0 = state_of(ex);
        assert(ExpState { inlined: None, ..st0 } == st0);
        let s2 = match rewrite(&mut ex, functions, stmt, line) {
            Ok(s) => s,
            Err(e) => {
                assert(whole == Err::<ExpState, DisruptionV>(disruption_view(e)));
                assert(expansion_spec(fv, sv, lines@) == Err::<Seq<(StatementV, usize, Option<OriginV>)>, DisruptionV>(
                    disruption_view(e),
                ));
                return Err(e);
            },
        };
        let origin = copy_origin(&ex.inlined);
        ex.inlined = None;
        let ghost before = out_view(ex.out@);
        let ghost s2v = statement_view(s2);
        ex.out.push((s2, line, origin));
        assert(out_view(ex.out@) =~= before.push((s2v, line, origin_view(origin))));
        k = k + 1;
    }
    proof {
        assert(whole == Ok::<ExpState, DisruptionV>(state_of(ex)));
    }
    let mut out_statements: Vec<Statement> = Vec::new();
    let mut out_lines: Vec<usize> = Vec::new();
    let mut out_origins: Vec<Option<Origin>> = Vec::new();
    let ghost ov = out_view(ex.out@);
    let mut j: usize = 0;
    while j < ex.out.len()
        invariant
            j <= ex.out.len(),
            ov == out_view(ex.out@),
            out_statements.len() == j,
            out_lines.len() == j,
            out_origins.len() == j,
            forall|q: int| 0 <= q < j ==> statement_view(#[trigger] out_statements@[q]) == ov[q].0,
            forall|q: int| 0 <= q < j ==> #[trigger] out_lines@[q] == ov[q].1,
            forall|q: int| 0 <= q < j ==> origin_view(#[trigger] out_origins@[q]) == ov[q].2,
        decreases ex.out.len() - j,
    {
        out_statements.push(crate::ast::copy_statement(&ex.out[j].0));
        out_lines.push(ex.out[j].1);
        out_origins.push(copy_origin(&ex.out[j].2));
        j = j + 1;
    }
    proof {
        assert(statements_view(out_statements@) =~= firsts(ov));
        assert(out_lines@ =~= seconds(ov));
        assert(origins_view(out_origins@) =~= thirds(ov));
    }
    Ok((out_statements, out_lines, out_origins))
}


// ---------------------------------------------------------------- attribution

/// The line a diagnostic points at, 0 when none.
pub open spec fn disruption_line(e: DisruptionV) -> usize {
    match e {
        DisruptionV::GlyphErr { line, .. } => line,
        DisruptionV::SpaceErr { line, .. } => line,
        DisruptionV::DimensionErr { line, .. } => line,
        DisruptionV::FlowErr => 0,
        DisruptionV::LogicErr { line, .. } => line,
        DisruptionV::LoweringErr { line, .. } => line,
        DisruptionV::IterateErr { line, .. } => line,
        DisruptionV::InFunction { line, .. } => line,
    }
}

/// The origin of the first statement on `line` that has one.
pub open spec fn first_origin(lines: Seq<usize>, origins: Seq<Option<OriginV>>, line: usize, k: int) -> Option<OriginV>
    decreases lines.len() - k,
{
    if k < 0 || k >= lines.len() || k >= origins.len() {
        None
    } else if lines[k] == line && origins[k] is Some {
        origins[k]
    } else {
        first_origin(lines, origins, line, k + 1)
    }
}

/// A diagnostic pointed at the function it arose in as well as at the
/// call, when its line is one a call was expanded into.
pub open spec fn attribute_view(lines: Seq<usize>, origins: Seq<Option<OriginV>>, e: DisruptionV) -> DisruptionV {
    if e is InFunction || disruption_line(e) == 0 {
        e
    } else {
        match first_origin(lines, origins, disruption_line(e), 0) {
            Some(o) => DisruptionV::InFunction {
                function: o.function,
                defined: o.body_line,
                line: disruption_line(e),
                inner: Box::new(e),
            },
            None => e,
        }
    }
}

impl ToposBlock {
    /// Point a diagnostic at the function it arose in as well as at the
    /// call: an error on a line where a call was expanded names the body
    /// line too.
    pub fn attribute(&self, error: HarmonyDisruption) -> (r: HarmonyDisruption)
        ensures
            r@ == attribute_view(self.lines@, origins_view(self.origins@), error@),
    {
        if let HarmonyDisruption::InFunction { .. } = error {
            return error;
        }
        let line = match error.line() {
            Some(l) => l,
            None => return error,
        };
        assert(line == disruption_line(error@));
        let ghost ov = origins_view(self.origins@);
        let mut k: usize = 0;
        while k < self.lines.len() && k < self.origins.len()
            invariant
                ov == origins_view(self.origins@),
                line == disruption_line(error@),
                line != 0,
                !(error@ is InFunction),
                first_origin(self.lines@, ov, line, 0) == first_origin(self.lines@, ov, line, k as int),
            decreases self.lines.len() - k,
        {
            if self.lines[k] == line {
                match &self.origins[k] {
                    Some(o) => {
                        assert(ov[k as int] == origin_view(self.origins@[k as int]));
                        let function = o.function.clone();
                        let defined = o.body_line;
                        return HarmonyDisruption::InFunction { function, defined, line, inner: Box::new(error) };
                    },
                    None => {
                        assert(ov[k as int] == origin_view(self.origins@[k as int]));
                    },
                }
            }
            k = k + 1;
        }
        error
    }
}

// ---------------------------------------------------------------- the program

/// What a program's block says.
pub struct BlockV {
    pub statements: Seq<StatementV>,
    pub lines: Seq<usize>,
    pub origins: Seq<Option<OriginV>>,
}

pub open spec fn block_view(b: ToposBlock) -> BlockV {
    BlockV { statements: statements_view(b.statements@), lines: b.lines@, origins: origins_view(b.origins@) }
}

/// The names and parameter counts of functions.
pub open spec fn fn_sigs(fs: Seq<FunctionV>) -> Seq<(Seq<char>, nat)> {
    fs.map_values(|f: FunctionV| (f.name, f.params.len()))
}

/// The functions the definitions from the `k`-th on define, each seeing
/// only those before it.
pub open spec fn defined_from(raws: Seq<RawDefinitionV>, k: int, fs: Seq<FunctionV>) -> Result<Seq<FunctionV>, DisruptionV>
    decreases raws.len() - k,
{
    if k < 0 || k >= raws.len() {
        Ok(fs)
    } else {
        match definition_spec(raws[k], fn_sigs(fs)) {
            Err(e) => Err(e),
            Ok(f) => defined_from(raws, k + 1, fs.push(f)),
        }
    }
}

/// A program line's text: the topos braces may share a line with a
/// statement.
pub open spec fn program_text(raw: Seq<char>) -> Seq<char> {
    trim(strip_trailing(strip_leading(trim(raw), seq!['{']), '}'))
}

/// An error of a line parsed before its number was known, given it.
pub open spec fn program_relined(e: DisruptionV, line: usize) -> DisruptionV {
    match e {
        DisruptionV::IterateErr { detail, line: l } => if l == 0 {
            DisruptionV::IterateErr { detail, line }
        } else {
            e
        },
        DisruptionV::LoweringErr { detail, line: l } => if l == 0 {
            DisruptionV::LoweringErr { detail, line }
        } else {
            e
        },
        _ => e,
    }
}

/// The statements of the program's lines from the `k`-th on.
pub open spec fn statements_from(
    program: Seq<(usize, Seq<char>)>,
    k: int,
    sigs: Seq<(Seq<char>, nat)>,
    stmts: Seq<StatementV>,
    lines: Seq<usize>,
) -> Result<(Seq<StatementV>, Seq<usize>), DisruptionV>
    decreases program.len() - k,
{
    if k < 0 || k >= program.len() {
        Ok((stmts, lines))
    } else {
        let line = program[k].0;
        let text = program_text(program[k].1);
        if text.len() == 0 {
            statements_from(program, k + 1, sigs, stmts, lines)
        } else {
            match line_spec(text, sigs) {
                Err(e) => Err(program_relined(e, line)),
                Ok(None) => statements_from(program, k + 1, sigs, stmts, lines),
                Ok(Some(st)) => statements_from(program, k + 1, sigs, stmts.push(st), lines.push(line)),
            }
        }
    }
}

/// The space a statement names: a declaration, a binding or a flow's
/// target.
pub open spec fn space_named(s: StatementV) -> Option<Seq<char>> {
    match s {
        StatementV::SpaceDef { name, .. } => Some(name),
        StatementV::ExtBind { name, .. } => Some(name),
        StatementV::Flow { target: TargetV::Var(n), .. } => Some(n),
        _ => None,
    }
}

/// The first statement from the `k`-th on that names a space as a
/// function is named.
pub open spec fn clash_from(stmts: Seq<StatementV>, lines: Seq<usize>, fs: Seq<FunctionV>, k: int) -> Option<DisruptionV>
    decreases stmts.len() - k,
{
    if k < 0 || k >= stmts.len() || k >= lines.len() {
        None
    } else {
        match space_named(stmts[k]) {
            Some(n) => if lookup(fs, fs.len(), n) is Some {
                Some(
                    DisruptionV::LoweringErr {
                        detail: "`"@ + n + "` is a function defined above and cannot also be a space"@,
                        line: lines[k],
                    },
                )
            } else {
                clash_from(stmts, lines, fs, k + 1)
            },
            None => clash_from(stmts, lines, fs, k + 1),
        }
    }
}

/// The first fault the static checks find: an undeclared space, shapes
/// that do not agree, or no flow to the equilibrium point.
pub open spec fn checks_fault(stmts: Seq<StatementV>, lines: Seq<usize>) -> Option<DisruptionV> {
    match declarations_fault(stmts, lines) {
        Some(e) => Some(e),
        None => match dimensions_fault(stmts, lines) {
            Some(e) => Some(e),
            None => if has_equilibrium(stmts) {
                None
            } else {
                Some(DisruptionV::FlowErr)
            },
        },
    }
}

/// What a program's source text denotes: its statements with every call
/// expanded, each with its line and origin; or the first fault found.
pub open spec fn program_spec(input: Seq<char>) -> Result<BlockV, DisruptionV> {
    let text = normalized(input, aliases().len() as int);
    match symbols_fault(text) {
        Some(e) => Err(e),
        None => match keywords_fault(text) {
            Some(e) => Err(e),
            None => match definitions_spec(strip_comments(text, 0)) {
                Err(e) => Err(e),
                Ok((raws, program)) => match defined_from(raws, 0, Seq::empty()) {
                    Err(e) => Err(e),
                    Ok(fs) => match statements_from(program, 0, fn_sigs(fs), Seq::empty(), Seq::empty()) {
                        Err(e) => Err(e),
                        Ok((stmts, lines)) => match clash_from(stmts, lines, fs, 0) {
                            Some(e) => Err(e),
                            None => match expansion_spec(fs, stmts, lines) {
                                Err(e) => Err(e),
                                Ok(out) => {
                                    let b = BlockV { statements: firsts(out), lines: seconds(out), origins: thirds(out) };
                                    match checks_fault(b.statements, b.lines) {
                                        Some(e) => Err(attribute_view(b.lines, b.origins, e)),
                                        None => Ok(b),
                                    }
                                },
                            },
                        },
                    },
                },
            },
        },
    }
}


proof fn lemma_signatures(fns: Seq<Function>)
    ensures
        signatures(fns) == fn_sigs(functions_view(fns)),
{
    assert(signatures(fns) =~= fn_sigs(functions_view(fns)));
}

/// The functions the definitions define, each seeing only those before it.
fn define_functions(raws: &Vec<RawDefinition>) -> (r: Result<Vec<Function>, HarmonyDisruption>)
    ensures
        match r {
            Ok(fs) => defined_from(raw_defs_view(raws@), 0, Seq::empty()) == Ok::<Seq<FunctionV>, DisruptionV>(
                functions_view(fs@),
            ),
            Err(e) => defined_from(raw_defs_view(raws@), 0, Seq::empty()) == Err::<Seq<FunctionV>, DisruptionV>(e@),
        },
{
    let ghost rv = raw_defs_view(raws@);
    let mut functions: Vec<Function> = Vec::new();
    let mut k: usize = 0;
    assert(functions_view(functions@) =~= Seq::<FunctionV>::empty());
    while k < raws.len()
        invariant
            k <= raws.len(),
            rv == raw_defs_view(raws@),
            defined_from(rv, 0, Seq::empty()) == defined_from(rv, k as int, functions_view(functions@)),
        decreases raws.len() - k,
    {
        proof {
            lemma_signatures(functions@);
            assert(rv[k as int] == raws@[k as int]@);
        }
        let f = match parse_definition(&raws[k], functions.as_slice()) {
            Ok(f) => f,
            Err(e) => return Err(e),
        };
        let ghost before = functions_view(functions@);
        let ghost fview = function_view(f);
        functions.push(f);
        assert(functions_view(functions@) =~= before.push(fview));
        k = k + 1;
    }
    Ok(functions)
}

fn program_error(e: HarmonyDisruption, line: usize) -> (r: HarmonyDisruption)
    ensures
        r@ == program_relined(e@, line),
{
    match e {
        HarmonyDisruption::IterateErr { detail, line: l } => if l == 0 {
            HarmonyDisruption::IterateErr { detail, line }
        } else {
            HarmonyDisruption::IterateErr { detail, line: l }
        },
        HarmonyDisruption::LoweringErr { detail, line: l } => if l == 0 {
            HarmonyDisruption::LoweringErr { detail, line }
        } else {
            HarmonyDisruption::LoweringErr { detail, line: l }
        },
        other => other,
    }
}

/// Where a program line's text lies: trimmed, without the topos braces at
/// its ends, trimmed again.
fn program_text_range(raw: &[char]) -> (r: (usize, usize))
    ensures
        r.0 <= r.1 <= raw.len(),
        raw@.subrange(r.0 as int, r.1 as int) == program_text(raw@),
{
    let (a, b) = trim_range(raw, 0, raw.len());
    proof {
        assert(raw@.subrange(0, raw.len() as int) =~= raw@);
    }
    let brace = vec!['{'];
    assert(brace@ =~= seq!['{']);
    let a2 = crate::statement::strip_leading_range(raw, a, b, brace.as_slice());
    let mut b2 = b;
    while b2 > a2 && raw[b2 - 1] == '}'
        invariant
            a2 <= b2 <= b <= raw.len(),
            strip_trailing(raw@.subrange(a2 as int, b as int), '}') == strip_trailing(raw@.subrange(a2 as int, b2 as int), '}'),
        decreases b2,
    {
        assert(raw@.subrange(a2 as int, b2 as int).drop_last() =~= raw@.subrange(a2 as int, b2 - 1));
        b2 = b2 - 1;
    }
    trim_range(raw, a2, b2)
}

/// The statements of the program's lines, each with its line number.
fn program_statements(program: &Vec<(usize, String)>, fns: &[Function]) -> (r: Result<
    (Vec<Statement>, Vec<usize>),
    HarmonyDisruption,
>)
    ensures
        match r {
            Ok((s, l)) => statements_from(
                lines_view(program@),
                0,
                fn_sigs(functions_view(fns@)),
                Seq::empty(),
                Seq::empty(),
            ) == Ok::<(Seq<StatementV>, Seq<usize>), DisruptionV>((statements_view(s@), l@)),
            Err(e) => statements_from(lines_view(program@), 0, fn_sigs(functions_view(fns@)), Seq::empty(), Seq::empty())
                == Err::<(Seq<StatementV>, Seq<usize>), DisruptionV>(e@),
        },
{
    let ghost pv = lines_view(program@);
    let ghost sigs = fn_sigs(functions_view(fns@));
    proof {
        lemma_signatures(fns@);
    }
    let mut stmts: Vec<Statement> = Vec::new();
    let mut lines: Vec<usize> = Vec::new();
    let mut k: usize = 0;
    assert(statements_view(stmts@) =~= Seq::<StatementV>::empty());
    while k < program.len()
        invariant
            k <= program.len(),
            pv == lines_view(program@),
            sigs == fn_sigs(functions_view(fns@)),
            sigs == signatures(fns@),
            statements_from(pv, 0, sigs, Seq::empty(), Seq::empty()) == statements_from(
                pv,
                k as int,
                sigs,
                statements_view(stmts@),
                lines@,
            ),
        decreases program.len() - k,
    {
        let line = program[k].0;
        let raw = chars_of(program[k].1.as_str());
        assert(pv[k as int] == (line, raw@));
        let (a, b) = program_text_range(raw.as_slice());
        if a < b {
            let text = slice_subrange(raw.as_slice(), a, b);
            match parse_line(text, fns) {
                Err(e) => return Err(program_error(e, line)),
                Ok(None) => {},
                Ok(Some(st)) => {
                    let ghost before = statements_view(stmts@);
                    let ghost sv = statement_view(st);
                    stmts.push(st);
                    lines.push(line);
                    assert(statements_view(stmts@) =~= before.push(sv));
                },
            }
        }
        k = k + 1;
    }
    Ok((stmts, lines))
}

/// Refuse a space that takes a function's name: `smooth` alone would then
/// be a space in one place and a function in another.
fn refuse_clash(stmts: &Vec<Statement>, lines: &Vec<usize>, fns: &[Function]) -> (r: Result<(), HarmonyDisruption>)
    ensures
        match r {
            Ok(()) => clash_from(statements_view(stmts@), lines@, functions_view(fns@), 0) is None,
            Err(e) => clash_from(statements_view(stmts@), lines@, functions_view(fns@), 0) == Some(e@),
        },
{
    let ghost sv = statements_view(stmts@);
    let ghost fv = functions_view(fns@);
    let mut k: usize = 0;
    while k < stmts.len() && k < lines.len()
        invariant
            sv == statements_view(stmts@),
            fv == functions_view(fns@),
            clash_from(sv, lines@, fv, 0) == clash_from(sv, lines@, fv, k as int),
        decreases stmts.len() - k,
    {
        assert(sv[k as int] == statement_view(stmts@[k as int]));
        let named: Option<&String> = match &stmts[k] {
            Statement::SpaceDef(d) => Some(&d.name),
            Statement::ExtBind(b) => Some(&b.space.name),
            Statement::Flow { target: FlowTarget::Var(n), .. } => Some(n),
            _ => None,
        };
        match named {
            Some(n) => {
                assert(space_named(sv[k as int]) == Some(n@));
                assert(fv.len() == fns.len());
                if crate::expand::find_function(fns, fns.len(), n).is_some() {
                    let mut m = String::new();
                    push_str(&mut m, "`");
                    push_str(&mut m, n.as_str());
                    push_str(&mut m, "` is a function defined above and cannot also be a space");
                    return Err(HarmonyDisruption::LoweringErr { detail: m, line: lines[k] });
                }
            },
            None => {
                assert(space_named(sv[k as int]) is None);
            },
        }
        k = k + 1;
    }
    Ok(())
}

/// Parse a program: its definitions, then its statements, with every call
/// expanded and the static checks passed.
#[verifier::rlimit(40)]
pub fn parse_rho_program(input: &str) -> (r: Result<ToposBlock, HarmonyDisruption>)
    ensures
        match r {
            Ok(b) => program_spec(input@) == Ok::<BlockV, DisruptionV>(block_view(b)),
            Err(e) => program_spec(input@) == Err::<BlockV, DisruptionV>(e@),
        },
{
    let normalized_input = crate::lexer::normalize_ascii_aliases(input);
    match crate::lexer::validate_symbols(normalized_input.as_str()) {
        Err(e) => return Err(e),
        Ok(()) => {},
    }
    match crate::lexer::check_forbidden_keywords(normalized_input.as_str()) {
        Err(e) => return Err(e),
        Ok(()) => {},
    }
    let chars = chars_of(normalized_input.as_str());
    let clean = crate::lexer::remove_comments(chars.as_slice());
    let (raws, program) = match split_definitions(clean.as_slice()) {
        Ok(x) => x,
        Err(e) => return Err(e),
    };
    let functions = match define_functions(&raws) {
        Ok(f) => f,
        Err(e) => return Err(e),
    };
    let (statements, lines) = match program_statements(&program, functions.as_slice()) {
        Ok(x) => x,
        Err(e) => return Err(e),
    };
    match refuse_clash(&statements, &lines, functions.as_slice()) {
        Err(e) => return Err(e),
        Ok(()) => {},
    }
    let (statements, lines, origins) = match expand_calls(statements, lines, functions.as_slice()) {
        Ok(x) => x,
        Err(e) => return Err(e),
    };
    let block = ToposBlock { statements, lines, origins };
    match crate::parser::validate_space_declarations(&block) {
        Err(e) => return Err(block.attribute(e)),
        Ok(()) => {},
    }
    match crate::parser::validate_dimension_shapes(&block) {
        Err(e) => return Err(block.attribute(e)),
        Ok(()) => {},
    }
    match crate::parser::validate_flow_equilibrium(&block) {
        Err(e) => return Err(block.attribute(e)),
        Ok(()) => {},
    }
    Ok(block)
}

} // verus!
