//! Function definitions: `NAME:{ PARAMS BODY }`, before the program.
//!
//! A definition's parameters are the new names at the start of its header
//! line; what follows, with the lines below up to the closing brace, is its
//! body: one expression, or flows ending in `→ =`.

use vstd::prelude::*;
use vstd::slice::slice_subrange;
use crate::ast::{
    builtin_named, statement_view, BuiltinOp, Expr, ExprV, FlowTarget, Function, FunctionBody, Statement, StatementV,
    TargetV,
};
use crate::error::{disruption_view, DisruptionV, HarmonyDisruption};
use crate::expression::{identifier, is_identifier, outcome, parse_chars, parse_spec, signatures, arity};
use crate::parser::{check_expr_spaces, first_unknown, unknown_space, NameSet};
use crate::statement::{char_index, line_outcome, line_spec, name_chars, parse_line};
use crate::text::{
    ascii_digit, chars_of, is_ascii_digit, is_tau, is_tau_name, is_white_space, lemma_trim_len, push_chars, push_str,
    string_from, trim, trim_range, trim_start, white_space,
};

verus! {

// ---------------------------------------------------------------- diagnostics

/// An error raised before its line was known, given that line.
pub open spec fn relined_view(e: DisruptionV, line: usize) -> DisruptionV {
    match e {
        DisruptionV::LoweringErr { detail, line: l } => if l == 0 {
            DisruptionV::LoweringErr { detail, line }
        } else {
            e
        },
        DisruptionV::IterateErr { detail, line: l } => if l == 0 {
            DisruptionV::IterateErr { detail, line }
        } else {
            e
        },
        DisruptionV::GlyphErr { symbol, line: l, column } => if l == 0 {
            DisruptionV::GlyphErr { symbol, line, column }
        } else {
            e
        },
        _ => e,
    }
}

pub open spec fn scoped_detail(space: Seq<char>, function: Seq<char>) -> Seq<char> {
    "`"@ + space + "` is not visible inside `"@ + function
        + "`: a function sees its parameters, 𝜏 and constants, nothing of the caller's"@
}

/// An unknown name inside a function, said as such.
pub open spec fn scoped_view(e: DisruptionV, function: Seq<char>) -> DisruptionV {
    match e {
        DisruptionV::SpaceErr { space_name, line } => DisruptionV::LoweringErr {
            detail: scoped_detail(space_name, function),
            line,
        },
        _ => e,
    }
}

/// Give a line to an error raised before one was known.
pub fn relined(error: HarmonyDisruption, line: usize) -> (r: HarmonyDisruption)
    ensures
        disruption_view(r) == relined_view(disruption_view(error), line),
{
    match error {
        HarmonyDisruption::LoweringErr { detail, line: l } => if l == 0 {
            HarmonyDisruption::LoweringErr { detail, line }
        } else {
            HarmonyDisruption::LoweringErr { detail, line: l }
        },
        HarmonyDisruption::IterateErr { detail, line: l } => if l == 0 {
            HarmonyDisruption::IterateErr { detail, line }
        } else {
            HarmonyDisruption::IterateErr { detail, line: l }
        },
        HarmonyDisruption::GlyphErr { symbol, line: l, column } => if l == 0 {
            HarmonyDisruption::GlyphErr { symbol, line, column }
        } else {
            HarmonyDisruption::GlyphErr { symbol, line: l, column }
        },
        other => other,
    }
}

/// Say why a name is unknown inside a function: it sees nothing of the
/// caller.
pub fn scoped(error: HarmonyDisruption, function: &str) -> (r: HarmonyDisruption)
    ensures
        disruption_view(r) == scoped_view(disruption_view(error), function@),
{
    match error {
        HarmonyDisruption::SpaceErr { space_name, line } => {
            let mut m = String::new();
            push_str(&mut m, "`");
            push_str(&mut m, space_name.as_str());
            push_str(&mut m, "` is not visible inside `");
            push_str(&mut m, function);
            push_str(
                &mut m,
                "`: a function sees its parameters, 𝜏 and constants, nothing of the caller's",
            );
            HarmonyDisruption::LoweringErr { detail: m, line }
        },
        other => other,
    }
}

// ---------------------------------------------------------------- headers

/// A definition's text before it is parsed: its name, header line, what
/// followed the brace on that line, and the lines of its body.
pub struct RawDefinition {
    pub name: String,
    pub line: usize,
    pub header_rest: String,
    pub body: Vec<(usize, String)>,
}

/// What a definition's text holds.
pub struct RawDefinitionV {
    pub name: Seq<char>,
    pub line: usize,
    pub header_rest: Seq<char>,
    pub body: Seq<(usize, Seq<char>)>,
}

pub open spec fn lines_view(v: Seq<(usize, String)>) -> Seq<(usize, Seq<char>)> {
    v.map_values(|p: (usize, String)| (p.0, p.1@))
}

impl View for RawDefinition {
    type V = RawDefinitionV;

    open spec fn view(&self) -> RawDefinitionV {
        RawDefinitionV { name: self.name@, line: self.line, header_rest: self.header_rest@, body: lines_view(self.body@) }
    }
}

/// `NAME:{ rest`: the name and what follows the brace, for a line that
/// begins a definition.
pub open spec fn header_spec(text: Seq<char>) -> Option<(Seq<char>, Seq<char>)> {
    match char_index(text, ':') {
        None => None,
        Some(i) => {
            let name = trim(text.take(i));
            let rest = trim_start(text.skip(i + 1));
            if name.len() == 0 || !name_chars(name) || ascii_digit(name[0]) {
                None
            } else if rest.len() == 0 || rest[0] != '{' {
                None
            } else {
                Some((name, rest.skip(1)))
            }
        },
    }
}

/// The definition a header line begins, with an empty body so far.
pub fn definition_header(text: &[char], line: usize) -> (r: Option<RawDefinition>)
    ensures
        match r {
            Some(d) => header_spec(text@) == Some((d.name@, d.header_rest@)) && d.line == line && d.body@.len() == 0,
            None => header_spec(text@) is None,
        },
{
    let mut i: usize = 0;
    while i < text.len() && text[i] != ':'
        invariant
            i <= text.len(),
            forall|j: int| 0 <= j < i ==> text@[j] != ':',
        decreases text.len() - i,
    {
        i = i + 1;
    }
    proof {
        crate::statement::lemma_char_index(text@, ':');
        if i < text.len() {
            assert(char_index(text@, ':') == Some(i as int)) by {
                lemma_index_is(text@, ':', i as int);
            }
        } else {
            assert(char_index(text@, ':') is None) by {
                lemma_index_is(text@, ':', i as int);
            }
        }
    }
    if i == text.len() {
        return None;
    }
    let (na, nb) = trim_range(text, 0, i);
    let name = slice_subrange(text, na, nb);
    proof {
        assert(text@.subrange(0, i as int) =~= text@.take(i as int));
    }
    if name.len() == 0 || !crate::statement::all_name_chars(name) || is_ascii_digit(name[0]) {
        return None;
    }
    let mut a = i + 1;
    proof {
        assert(text@.skip(i + 1) =~= text@.subrange(i + 1, text.len() as int));
    }
    while a < text.len() && is_white_space(text[a])
        invariant
            i + 1 <= a <= text.len(),
            trim_start(text@.skip(i + 1)) == trim_start(text@.subrange(a as int, text.len() as int)),
        decreases text.len() - a,
    {
        assert(text@.subrange(a as int, text.len() as int).drop_first() =~= text@.subrange(a + 1, text.len() as int));
        a = a + 1;
    }
    let ghost rest = text@.subrange(a as int, text.len() as int);
    assert(trim_start(rest) == rest);
    if a == text.len() || text[a] != '{' {
        return None;
    }
    let after = slice_subrange(text, a + 1, text.len());
    proof {
        assert(after@ =~= rest.skip(1));
    }
    Some(RawDefinition { name: string_from(name), line, header_rest: string_from(after), body: Vec::new() })
}

proof fn lemma_index_is(s: Seq<char>, c: char, k: int)
    requires
        0 <= k <= s.len(),
        forall|j: int| 0 <= j < k ==> s[j] != c,
        k < s.len() ==> s[k] == c,
    ensures
        char_index(s, c) == (if k < s.len() { Some(k) } else { None::<int> }),
    decreases k,
{
    if k > 0 {
        assert forall|j: int| 0 <= j < k - 1 implies s.drop_first()[j] != c by {
            assert(s.drop_first()[j] == s[j + 1]);
        }
        lemma_index_is(s.drop_first(), c, k - 1);
    }
}


// ---------------------------------------------------------------- functions

/// What a function's body says.
pub enum BodyV {
    Expression(ExprV, usize),
    Flows(Seq<(StatementV, usize)>),
}

/// What a function says.
pub struct FunctionV {
    pub name: Seq<char>,
    pub params: Seq<Seq<char>>,
    pub body: BodyV,
    pub line: usize,
}

pub open spec fn flows_view(v: Seq<(Statement, usize)>) -> Seq<(StatementV, usize)> {
    v.map_values(|p: (Statement, usize)| (statement_view(p.0), p.1))
}

pub open spec fn names_view(v: Seq<String>) -> Seq<Seq<char>> {
    v.map_values(|p: String| p@)
}

pub open spec fn function_view(f: Function) -> FunctionV {
    FunctionV {
        name: f.name@,
        params: names_view(f.params@),
        body: match f.body {
            FunctionBody::Expression(e, l) => BodyV::Expression(e@, l),
            FunctionBody::Flows(v) => BodyV::Flows(flows_view(v@)),
        },
        line: f.line,
    }
}

/// The set of some names.
pub open spec fn name_set(names: Seq<Seq<char>>) -> Set<Seq<char>>
    decreases names.len(),
{
    if names.len() == 0 {
        Set::empty()
    } else {
        name_set(names.drop_last()).insert(names.last())
    }
}

/// Where the first white space in `s` is, or its length.
pub open spec fn space_index(s: Seq<char>) -> nat
    decreases s.len(),
{
    if s.len() == 0 || white_space(s[0]) {
        0
    } else {
        1 + space_index(s.drop_first())
    }
}

pub proof fn lemma_space_index(s: Seq<char>)
    ensures
        space_index(s) <= s.len(),
        forall|j: int| 0 <= j < space_index(s) ==> !white_space(#[trigger] s[j]),
        space_index(s) < s.len() ==> white_space(s[space_index(s) as int]),
    decreases s.len(),
{
    if s.len() > 0 && !white_space(s[0]) {
        lemma_space_index(s.drop_first());
        assert forall|j: int| 0 <= j < space_index(s) implies !white_space(#[trigger] s[j]) by {
            if j > 0 {
                assert(s[j] == s.drop_first()[j - 1]);
            }
        }
    }
}

/// Reading parameters from `rest`, with `params` read before: the leading
/// new names, up to the first token that is not a name or repeats one. A
/// name of the language or of a function defined above is refused.
pub open spec fn params_from(rest: Seq<char>, params: Seq<Seq<char>>, sigs: Seq<(Seq<char>, nat)>) -> Result<
    (Seq<Seq<char>>, Seq<char>),
    Seq<char>,
>
    decreases rest.len(),
{
    let end = space_index(rest);
    let token = rest.take(end as int);
    proof {
        lemma_space_index(rest);
        lemma_trim_len(rest.skip(end as int));
    }
    if !identifier(token) || params.contains(token) {
        Ok((params, rest))
    } else if builtin_named(token) is Some || is_tau_name(token) || arity(sigs, token) is Some {
        Err(token)
    } else {
        params_from(trim_start(rest.skip(end as int)), params.push(token), sigs)
    }
}

/// The body's lines: what followed the parameters on the header line, then
/// the lines below it.
pub open spec fn body_lines_of(raw: RawDefinitionV, rest: Seq<char>) -> Seq<(usize, Seq<char>)> {
    (if rest.len() > 0 {
        seq![(raw.line, rest)]
    } else {
        Seq::empty()
    }) + raw.body
}

/// Whether some line holds a `→` or a `⇒`.
pub open spec fn has_arrow(lines: Seq<(usize, Seq<char>)>) -> bool {
    exists|j: int|
        0 <= j < lines.len() && (char_index(#[trigger] lines[j].1, '→') is Some || char_index(lines[j].1, '⇒') is Some)
}

pub open spec fn is_result_flow(s: StatementV) -> bool {
    s matches StatementV::Flow { target: TargetV::Equilibrium, .. }
}

/// A body of flows ends with `→ =`, and has no other.
pub open spec fn ends_once(stmts: Seq<(StatementV, usize)>) -> bool {
    stmts.len() > 0 && is_result_flow(stmts.last().0) && forall|j: int|
        0 <= j < stmts.len() - 1 ==> !is_result_flow(#[trigger] stmts[j].0)
}

pub open spec fn named_detail(name: Seq<char>, tail: Seq<char>) -> Seq<char> {
    "`"@ + name + tail
}

/// The flows of a body from line `i` on, with `visible` the names read so
/// far may use.
pub open spec fn flows_from(
    name: Seq<char>,
    params: Seq<Seq<char>>,
    lines: Seq<(usize, Seq<char>)>,
    i: int,
    visible: Set<Seq<char>>,
    sigs: Seq<(Seq<char>, nat)>,
) -> Result<Seq<(StatementV, usize)>, DisruptionV>
    decreases lines.len() - i,
{
    if i < 0 || i >= lines.len() {
        Ok(Seq::empty())
    } else {
        let line = lines[i].0;
        let rest = |st: StatementV, v: Set<Seq<char>>|
            match flows_from(name, params, lines, i + 1, v, sigs) {
                Ok(r) => Ok(seq![(st, line)] + r),
                Err(e) => Err(e),
            };
        match line_spec(lines[i].1, sigs) {
            Err(e) => Err(relined_view(e, line)),
            Ok(None) => Err(DisruptionV::LoweringErr { detail: named_detail(name, "`: this line is not a flow"@), line }),
            Ok(Some(st)) => match st {
                StatementV::Flow { src, target } => match first_unknown(src, visible) {
                    Some(n) => Err(scoped_view(unknown_space(n, line), name)),
                    None => match target {
                        TargetV::Var(t) => if params.contains(t) {
                            Err(
                                DisruptionV::LoweringErr {
                                    detail: named_detail(name, "` writes to its parameter `"@) + t
                                        + "`; a function leaves its arguments as they were"@,
                                    line,
                                },
                            )
                        } else {
                            rest(st, visible.insert(t))
                        },
                        TargetV::Equilibrium => rest(st, visible),
                    },
                },
                StatementV::Iterate { .. } => Err(
                    DisruptionV::LoweringErr {
                        detail: named_detail(name, "`: a `⇒` inside a function is not allowed yet"@),
                        line,
                    },
                ),
                _ => Err(
                    DisruptionV::LoweringErr {
                        detail: named_detail(name, "`: only flows may appear in a function's body"@),
                        line,
                    },
                ),
            },
        }
    }
}

/// What a definition defines, with `sigs` the functions defined before it.
pub open spec fn definition_spec(raw: RawDefinitionV, sigs: Seq<(Seq<char>, nat)>) -> Result<FunctionV, DisruptionV> {
    let name = raw.name;
    let at = |detail: Seq<char>| DisruptionV::LoweringErr { detail, line: raw.line };
    if builtin_named(name) is Some || is_tau_name(name) {
        Err(at(named_detail(name, "` is a function of the language already"@)))
    } else if arity(sigs, name) is Some {
        Err(at(named_detail(name, "` is defined twice"@)))
    } else {
        match params_from(trim_start(raw.header_rest), Seq::empty(), sigs) {
            Err(token) => Err(at("a parameter cannot be called `"@ + token + "`"@)),
            Ok((params, rest)) => if params.len() == 0 {
                Err(at(named_detail(name, "` needs at least one parameter"@)))
            } else {
                let lines = body_lines_of(raw, rest);
                if lines.len() == 0 {
                    Err(
                        at(
                            named_detail(
                                name,
                                "` has no body; a one-line body that begins with a name must be parenthesised"@,
                            ),
                        ),
                    )
                } else if !has_arrow(lines) {
                    if lines.len() != 1 {
                        Err(
                            at(
                                named_detail(
                                    name,
                                    "` has several lines but no `→`: a body is one expression or flows ending in `→ =`"@,
                                ),
                            ),
                        )
                    } else {
                        let line = lines[0].0;
                        match parse_spec(lines[0].1, sigs) {
                            Err(e) => Err(relined_view(e, line)),
                            Ok(x) => match first_unknown(x, name_set(params)) {
                                Some(n) => Err(scoped_view(unknown_space(n, line), name)),
                                None => Ok(FunctionV { name, params, body: BodyV::Expression(x, line), line: raw.line }),
                            },
                        }
                    }
                } else {
                    match flows_from(name, params, lines, 0, name_set(params), sigs) {
                        Err(e) => Err(e),
                        Ok(stmts) => if !ends_once(stmts) {
                            Err(at(named_detail(name, "`: a body of flows ends with `→ =`, once, naming its result"@)))
                        } else {
                            Ok(FunctionV { name, params, body: BodyV::Flows(stmts), line: raw.line })
                        },
                    }
                }
            },
        }
    }
}


proof fn lemma_space_index_at(s: Seq<char>, k: int)
    requires
        0 <= k <= s.len(),
        forall|j: int| 0 <= j < k ==> !white_space(#[trigger] s[j]),
        k < s.len() ==> white_space(s[k]),
    ensures
        space_index(s) == k,
    decreases k,
{
    if k > 0 {
        assert forall|j: int| 0 <= j < k - 1 implies !white_space(#[trigger] s.drop_first()[j]) by {
            assert(s.drop_first()[j] == s[j + 1]);
        }
        lemma_space_index_at(s.drop_first(), k - 1);
    }
}

/// The first position from `a` that is not white space.
fn skip_space(s: &[char], a: usize) -> (r: usize)
    requires
        a <= s.len(),
    ensures
        a <= r <= s.len(),
        trim_start(s@.skip(a as int)) == s@.skip(r as int),
{
    let mut i = a;
    while i < s.len() && is_white_space(s[i])
        invariant
            a <= i <= s.len(),
            trim_start(s@.skip(a as int)) == trim_start(s@.skip(i as int)),
        decreases s.len() - i,
    {
        assert(s@.skip(i as int).drop_first() =~= s@.skip(i + 1));
        i = i + 1;
    }
    i
}

/// Whether `names` holds `token`.
fn holds_name(names: &Vec<String>, token: &[char]) -> (r: bool)
    ensures
        r == names_view(names@).contains(token@),
{
    let mut i: usize = 0;
    while i < names.len()
        invariant
            i <= names.len(),
            forall|j: int| 0 <= j < i ==> (#[trigger] names@[j])@ != token@,
        decreases names.len() - i,
    {
        let n = chars_of(names[i].as_str());
        if crate::text::seq_eq(n.as_slice(), token) {
            assert(names_view(names@)[i as int] == token@);
            return true;
        }
        i = i + 1;
    }
    proof {
        if names_view(names@).contains(token@) {
            let j = choose|j: int| 0 <= j < names_view(names@).len() && names_view(names@)[j] == token@;
            assert(names@[j]@ == token@);
        }
    }
    false
}

/// The parameters at the start of a definition's header, and where the
/// body begins; or a parameter whose name is taken.
fn read_params(header: &[char], fns: &[Function]) -> (r: Result<(Vec<String>, usize), Vec<char>>)
    ensures
        match r {
            Ok((ps, a)) => a <= header.len() && params_from(trim_start(header@), Seq::empty(), signatures(fns@)) == Ok::<
                (Seq<Seq<char>>, Seq<char>),
                Seq<char>,
            >((names_view(ps@), header@.skip(a as int))),
            Err(token) => params_from(trim_start(header@), Seq::empty(), signatures(fns@)) == Err::<
                (Seq<Seq<char>>, Seq<char>),
                Seq<char>,
            >(token@),
        },
{
    let ghost sigs = signatures(fns@);
    let mut params: Vec<String> = Vec::new();
    let mut a = skip_space(header, 0);
    assert(header@.skip(0) =~= header@);
    assert(names_view(params@) =~= Seq::<Seq<char>>::empty());
    loop
        invariant
            a <= header.len(),
            sigs == signatures(fns@),
            params_from(trim_start(header@), Seq::empty(), sigs) == params_from(header@.skip(a as int), names_view(params@), sigs),
        decreases header.len() - a,
    {
        let mut e = a;
        while e < header.len() && !is_white_space(header[e])
            invariant
                a <= e <= header.len(),
                forall|j: int| a <= j < e ==> !white_space(#[trigger] header@[j]),
            decreases header.len() - e,
        {
            e = e + 1;
        }
        let ghost rest = header@.skip(a as int);
        proof {
            assert forall|j: int| 0 <= j < e - a implies !white_space(#[trigger] rest[j]) by {
                assert(rest[j] == header@[a + j]);
            }
            lemma_space_index_at(rest, e - a);
        }
        let token = slice_subrange(header, a, e);
        proof {
            assert(token@ =~= rest.take(e - a));
        }
        if !is_identifier(token) || holds_name(&params, token) {
            return Ok((params, a));
        }
        let spelled = string_from(token);
        if BuiltinOp::from_name(spelled.as_str()).is_some() || is_tau(token) || crate::expression::arity_of(fns, token).is_some() {
            return Err(vstd::slice::slice_to_vec(token));
        }
        let ghost before = names_view(params@);
        params.push(spelled);
        assert(names_view(params@) =~= before.push(token@));
        let next = skip_space(header, e);
        proof {
            assert(rest.skip(e - a) =~= header@.skip(e as int));
        }
        a = next;
    }
}

fn named_message(name: &str, tail: &str) -> (r: String)
    ensures
        r@ == named_detail(name@, tail@),
{
    let mut m = String::new();
    push_str(&mut m, "`");
    push_str(&mut m, name);
    push_str(&mut m, tail);
    m
}

fn named_error(name: &str, tail: &str, line: usize) -> (r: HarmonyDisruption)
    ensures
        disruption_view(r) == (DisruptionV::LoweringErr { detail: named_detail(name@, tail@), line }),
{
    HarmonyDisruption::LoweringErr { detail: named_message(name, tail), line }
}

/// The names a function's body may read at first: its parameters.
fn visible_names(params: &Vec<String>) -> (r: NameSet)
    ensures
        r@ == name_set(names_view(params@)),
{
    let mut set = NameSet::new();
    let mut i: usize = 0;
    assert(names_view(params@).take(0) =~= Seq::<Seq<char>>::empty());
    while i < params.len()
        invariant
            i <= params.len(),
            set@ == name_set(names_view(params@).take(i as int)),
        decreases params.len() - i,
    {
        assert(names_view(params@).take(i + 1).drop_last() =~= names_view(params@).take(i as int));
        set.insert(&params[i]);
        i = i + 1;
    }
    assert(names_view(params@).take(params.len() as int) =~= names_view(params@));
    set
}

/// The body's lines: what followed the parameters, then the lines below.
fn gather_body(raw: &RawDefinition, header: &Vec<char>, a: usize) -> (r: Vec<(usize, Vec<char>)>)
    requires
        a <= header.len(),
    ensures
        r@.map_values(|p: (usize, Vec<char>)| (p.0, p.1@)) == body_lines_of(raw@, header@.skip(a as int)),
{
    let mut lines: Vec<(usize, Vec<char>)> = Vec::new();
    if a < header.len() {
        lines.push((raw.line, vstd::slice::slice_to_vec(slice_subrange(header.as_slice(), a, header.len()))));
    }
    let ghost first = lines@.map_values(|p: (usize, Vec<char>)| (p.0, p.1@));
    proof {
        if a < header.len() {
            assert(first =~= seq![(raw.line, header@.skip(a as int))]);
        } else {
            assert(first =~= Seq::<(usize, Seq<char>)>::empty());
        }
    }
    let mut i: usize = 0;
    while i < raw.body.len()
        invariant
            i <= raw.body.len(),
            lines@.map_values(|p: (usize, Vec<char>)| (p.0, p.1@)) == first + lines_view(raw.body@).take(i as int),
        decreases raw.body.len() - i,
    {
        let (l, ref text) = raw.body[i];
        let ghost before = lines@.map_values(|p: (usize, Vec<char>)| (p.0, p.1@));
        lines.push((l, chars_of(text.as_str())));
        assert(lines_view(raw.body@).take(i + 1) =~= lines_view(raw.body@).take(i as int).push((l, text@)));
        assert(lines@.map_values(|p: (usize, Vec<char>)| (p.0, p.1@)) =~= before.push((l, text@)));
        i = i + 1;
    }
    assert(lines_view(raw.body@).take(raw.body.len() as int) =~= lines_view(raw.body@));
    lines
}

/// Whether some line holds a `→` or a `⇒`.
fn any_arrow(lines: &Vec<(usize, Vec<char>)>) -> (r: bool)
    ensures
        r == has_arrow(lines@.map_values(|p: (usize, Vec<char>)| (p.0, p.1@))),
{
    let ghost lv = lines@.map_values(|p: (usize, Vec<char>)| (p.0, p.1@));
    let mut j: usize = 0;
    while j < lines.len()
        invariant
            j <= lines.len(),
            lv == lines@.map_values(|p: (usize, Vec<char>)| (p.0, p.1@)),
            forall|q: int|
                0 <= q < j ==> !(char_index(#[trigger] lv[q].1, '→') is Some || char_index(lv[q].1, '⇒') is Some),
        decreases lines.len() - j,
    {
        let text = lines[j].1.as_slice();
        let found = crate::statement::char_position(text, '→').is_some() || crate::statement::char_position(
            text,
            '⇒',
        ).is_some();
        if found {
            assert(lv[j as int].1 == text@);
            return true;
        }
        j = j + 1;
    }
    false
}

/// Parse one definition, with `fns` the definitions before it. The
/// parameters are the names at the start; what follows on the header line,
/// and the lines below, are the body. A body without a `→` is one
/// expression; otherwise it is flows ending in `→ =`.
#[verifier::rlimit(60)]
pub fn parse_definition(raw: &RawDefinition, fns: &[Function]) -> (r: Result<Function, HarmonyDisruption>)
    ensures
        match r {
            Ok(f) => definition_spec(raw@, signatures(fns@)) == Ok::<FunctionV, DisruptionV>(function_view(f)),
            Err(e) => definition_spec(raw@, signatures(fns@)) == Err::<FunctionV, DisruptionV>(disruption_view(e)),
        },
{
    let ghost sigs = signatures(fns@);
    let name = raw.name.as_str();
    let name_chars = chars_of(name);
    if BuiltinOp::from_name(name).is_some() || is_tau(name_chars.as_slice()) {
        return Err(named_error(name, "` is a function of the language already", raw.line));
    }
    if crate::expression::arity_of(fns, name_chars.as_slice()).is_some() {
        return Err(named_error(name, "` is defined twice", raw.line));
    }
    let header = chars_of(raw.header_rest.as_str());
    let (params, a) = match read_params(header.as_slice(), fns) {
        Ok(x) => x,
        Err(token) => {
            let mut m = String::new();
            push_str(&mut m, "a parameter cannot be called `");
            push_chars(&mut m, token.as_slice());
            push_str(&mut m, "`");
            return Err(HarmonyDisruption::LoweringErr { detail: m, line: raw.line });
        },
    };
    if params.len() == 0 {
        return Err(named_error(name, "` needs at least one parameter", raw.line));
    }
    let lines = gather_body(raw, &header, a);
    let ghost lv = lines@.map_values(|p: (usize, Vec<char>)| (p.0, p.1@));
    if lines.len() == 0 {
        return Err(
            named_error(name, "` has no body; a one-line body that begins with a name must be parenthesised", raw.line),
        );
    }
    let mut visible = visible_names(&params);
    if !any_arrow(&lines) {
        if lines.len() != 1 {
            return Err(
                named_error(
                    name,
                    "` has several lines but no `→`: a body is one expression or flows ending in `→ =`",
                    raw.line,
                ),
            );
        }
        let line = lines[0].0;
        assert(lv[0].1 == lines@[0].1@);
        let x = match parse_chars(lines[0].1.as_slice(), fns) {
            Ok(x) => x,
            Err(e) => return Err(relined(e, line)),
        };
        match check_expr_spaces(&x, &visible, line) {
            Ok(()) => {},
            Err(e) => return Err(scoped(e, name)),
        }
        return Ok(Function { name: raw.name.clone(), params, body: FunctionBody::Expression(x, line), line: raw.line });
    }
    let stmts = match body_flows(raw, &params, &lines, fns) {
        Ok(v) => v,
        Err(e) => return Err(e),
    };
    let n = stmts.len();
    let mut ok = n > 0 && is_result_statement(&stmts[n - 1].0);
    let mut j: usize = 0;
    while ok && j + 1 < n
        invariant
            n == stmts.len(),
            ok ==> n > 0 && is_result_flow(flows_view(stmts@).last().0),
            ok ==> forall|q: int| 0 <= q < j ==> !is_result_flow(#[trigger] flows_view(stmts@)[q].0),
            !ok ==> !ends_once(flows_view(stmts@)),
        decreases n - j,
    {
        if is_result_statement(&stmts[j].0) {
            assert(is_result_flow(flows_view(stmts@)[j as int].0));
            ok = false;
        }
        j = j + 1;
    }
    if !ok {
        return Err(named_error(name, "`: a body of flows ends with `→ =`, once, naming its result", raw.line));
    }
    Ok(Function { name: raw.name.clone(), params, body: FunctionBody::Flows(stmts), line: raw.line })
}

/// Whether a statement is a flow into `=`.
fn is_result_statement(s: &Statement) -> (r: bool)
    ensures
        r == is_result_flow(statement_view(*s)),
{
    match s {
        Statement::Flow { target: FlowTarget::Equilibrium, .. } => true,
        _ => false,
    }
}

/// The flows of a body, each checked: only flows, reading only what the
/// body sees, and writing no parameter.
fn body_flows(raw: &RawDefinition, params: &Vec<String>, lines: &Vec<(usize, Vec<char>)>, fns: &[Function]) -> (r: Result<
    Vec<(Statement, usize)>,
    HarmonyDisruption,
>)
    ensures
        match r {
            Ok(v) => flows_from(
                raw.name@,
                names_view(params@),
                lines@.map_values(|p: (usize, Vec<char>)| (p.0, p.1@)),
                0,
                name_set(names_view(params@)),
                signatures(fns@),
            ) == Ok::<Seq<(StatementV, usize)>, DisruptionV>(flows_view(v@)),
            Err(e) => flows_from(
                raw.name@,
                names_view(params@),
                lines@.map_values(|p: (usize, Vec<char>)| (p.0, p.1@)),
                0,
                name_set(names_view(params@)),
                signatures(fns@),
            ) == Err::<Seq<(StatementV, usize)>, DisruptionV>(disruption_view(e)),
        },
{
    let ghost sigs = signatures(fns@);
    let ghost lv = lines@.map_values(|p: (usize, Vec<char>)| (p.0, p.1@));
    let ghost pv = names_view(params@);
    let ghost name = raw.name@;
    let ghost whole = flows_from(name, pv, lv, 0, name_set(pv), sigs);
    let mut visible = visible_names(params);
    let mut stmts: Vec<(Statement, usize)> = Vec::new();
    let mut i: usize = 0;
    assert(flows_view(stmts@) =~= Seq::<(StatementV, usize)>::empty());
    while i < lines.len()
        invariant
            i <= lines.len(),
            lv == lines@.map_values(|p: (usize, Vec<char>)| (p.0, p.1@)),
            sigs == signatures(fns@),
            pv == names_view(params@),
            name == raw.name@,
            whole == flows_from(name, pv, lv, 0, name_set(pv), sigs),
            whole == (match flows_from(name, pv, lv, i as int, visible@, sigs) {
                Ok(r) => Ok(flows_view(stmts@) + r),
                Err(e) => Err(e),
            }),
        decreases lines.len() - i,
    {
        let line = lines[i].0;
        assert(lv[i as int] == (line, lines@[i as int].1@));
        let parsed = match parse_line(lines[i].1.as_slice(), fns) {
            Ok(p) => p,
            Err(e) => return Err(relined(e, line)),
        };
        let st = match parsed {
            None => return Err(named_error(raw.name.as_str(), "`: this line is not a flow", line)),
            Some(st) => st,
        };
        match st {
            Statement::Flow { src, target } => {
                match check_expr_spaces(&src, &visible, line) {
                    Ok(()) => {},
                    Err(e) => return Err(scoped(e, raw.name.as_str())),
                }
                let ghost before_visible = visible@;
                match &target {
                    FlowTarget::Var(t) => {
                        let tc = chars_of(t.as_str());
                        if holds_name(params, tc.as_slice()) {
                            let mut m = named_message(raw.name.as_str(), "` writes to its parameter `");
                            push_str(&mut m, t.as_str());
                            push_str(&mut m, "`; a function leaves its arguments as they were");
                            return Err(HarmonyDisruption::LoweringErr { detail: m, line });
                        }
                        visible.insert(t);
                    },
                    FlowTarget::Equilibrium => {},
                }
                let ghost sv = statement_view(Statement::Flow { src, target });
                let ghost before = flows_view(stmts@);
                stmts.push((Statement::Flow { src, target }, line));
                proof {
                    assert(flows_view(stmts@) =~= before.push((sv, line)));
                    match flows_from(name, pv, lv, i + 1, visible@, sigs) {
                        Ok(r) => {
                            assert(before + (seq![(sv, line)] + r) =~= flows_view(stmts@) + r);
                        },
                        Err(e) => {},
                    }
                }
            },
            Statement::Iterate { .. } => {
                return Err(named_error(raw.name.as_str(), "`: a `⇒` inside a function is not allowed yet", line));
            },
            _ => {
                return Err(named_error(raw.name.as_str(), "`: only flows may appear in a function's body", line));
            },
        }
        i = i + 1;
    }
    proof {
        assert(flows_view(stmts@) + Seq::<(StatementV, usize)>::empty() =~= flows_view(stmts@));
    }
    Ok(stmts)
}


// ---------------------------------------------------------------- separating definitions

/// Whether any line of the program so far has text.
pub open spec fn program_began(program: Seq<(usize, Seq<char>)>) -> bool {
    exists|j: int| 0 <= j < program.len() && trim(#[trigger] program[j].1).len() > 0
}

pub open spec fn follow_detail() -> Seq<char> {
    "nothing may follow a definition's closing brace on its line"@
}

pub open spec fn with_line(d: RawDefinitionV, line: usize, text: Seq<char>) -> RawDefinitionV {
    RawDefinitionV { body: d.body.push((line, text)), ..d }
}

/// Separating definitions from the program, from line `i` on, with `defs`
/// and `program` gathered so far and `current` the definition still open.
pub open spec fn split_from(
    lines: Seq<Seq<char>>,
    i: int,
    defs: Seq<RawDefinitionV>,
    program: Seq<(usize, Seq<char>)>,
    current: Option<RawDefinitionV>,
) -> Result<(Seq<RawDefinitionV>, Seq<(usize, Seq<char>)>), DisruptionV>
    decreases lines.len() - i,
{
    if i < 0 || i >= lines.len() {
        match current {
            Some(d) => Err(
                DisruptionV::LoweringErr {
                    detail: "the definition of `"@ + d.name + "` has no closing brace"@,
                    line: d.line,
                },
            ),
            None => Ok((defs, program)),
        }
    } else {
        let line = (i + 1) as usize;
        let raw = lines[i];
        let text = trim(raw);
        match current {
            Some(d) => match char_index(text, '}') {
                Some(pos) => {
                    let before = trim(text.take(pos));
                    let d2 = if before.len() > 0 {
                        with_line(d, line, before)
                    } else {
                        d
                    };
                    if trim(text.skip(pos + 1)).len() > 0 {
                        Err(DisruptionV::LoweringErr { detail: follow_detail(), line })
                    } else {
                        split_from(lines, i + 1, defs.push(d2), program, None)
                    }
                },
                None => split_from(
                    lines,
                    i + 1,
                    defs,
                    program,
                    Some(
                        if text.len() > 0 {
                            with_line(d, line, text)
                        } else {
                            d
                        },
                    ),
                ),
            },
            None => match header_spec(text) {
                Some((name, rest)) => if program_began(program) {
                    Err(
                        DisruptionV::LoweringErr {
                            detail: "`"@ + name + "` is defined after the program began; definitions come first"@,
                            line,
                        },
                    )
                } else {
                    match char_index(rest, '}') {
                        Some(pos) => if trim(rest.skip(pos + 1)).len() > 0 {
                            Err(DisruptionV::LoweringErr { detail: follow_detail(), line })
                        } else {
                            split_from(
                                lines,
                                i + 1,
                                defs.push(RawDefinitionV { name, line, header_rest: rest.take(pos), body: Seq::empty() }),
                                program,
                                None,
                            )
                        },
                        None => split_from(
                            lines,
                            i + 1,
                            defs,
                            program,
                            Some(RawDefinitionV { name, line, header_rest: rest, body: Seq::empty() }),
                        ),
                    }
                },
                None => split_from(lines, i + 1, defs, program.push((line, raw)), None),
            },
        }
    }
}

/// The definitions that open a program, and the program's lines after
/// them, each with its number.
pub open spec fn definitions_spec(code: Seq<char>) -> Result<(Seq<RawDefinitionV>, Seq<(usize, Seq<char>)>), DisruptionV> {
    split_from(crate::lexer::lines_of(code), 0, Seq::empty(), Seq::empty(), None)
}

pub open spec fn raw_defs_view(v: Seq<RawDefinition>) -> Seq<RawDefinitionV> {
    v.map_values(|d: RawDefinition| d@)
}

pub open spec fn open_view(c: Option<RawDefinition>) -> Option<RawDefinitionV> {
    match c {
        Some(d) => Some(d@),
        None => None,
    }
}

fn follow_error(line: usize) -> (r: HarmonyDisruption)
    ensures
        disruption_view(r) == (DisruptionV::LoweringErr { detail: follow_detail(), line }),
{
    let mut m = String::new();
    push_str(&mut m, "nothing may follow a definition's closing brace on its line");
    HarmonyDisruption::LoweringErr { detail: m, line }
}

/// `d` with one more body line.
fn add_line(d: RawDefinition, line: usize, text: &[char]) -> (r: RawDefinition)
    ensures
        r@ == with_line(d@, line, text@),
{
    let mut d = d;
    let ghost before = d.body@;
    d.body.push((line, string_from(text)));
    assert(lines_view(d.body@) =~= lines_view(before).push((line, text@)));
    d
}

/// Separate the function definitions from the program that follows them,
/// keeping every line's number for diagnostics.
#[verifier::rlimit(60)]
pub fn split_definitions(code: &[char]) -> (r: Result<(Vec<RawDefinition>, Vec<(usize, String)>), HarmonyDisruption>)
    ensures
        match r {
            Ok((defs, program)) => definitions_spec(code@) == Ok::<
                (Seq<RawDefinitionV>, Seq<(usize, Seq<char>)>),
                DisruptionV,
            >((raw_defs_view(defs@), lines_view(program@))),
            Err(e) => definitions_spec(code@) == Err::<(Seq<RawDefinitionV>, Seq<(usize, Seq<char>)>), DisruptionV>(
                disruption_view(e),
            ),
        },
{
    let lines = crate::lexer::split_lines(code);
    let ghost lv = lines@.map_values(|l: Vec<char>| l@);
    let mut defs: Vec<RawDefinition> = Vec::new();
    let mut program: Vec<(usize, String)> = Vec::new();
    let mut current: Option<RawDefinition> = None;
    let mut began = false;
    let mut i: usize = 0;
    assert(raw_defs_view(defs@) =~= Seq::<RawDefinitionV>::empty());
    assert(lines_view(program@) =~= Seq::<(usize, Seq<char>)>::empty());
    while i < lines.len()
        invariant
            i <= lines.len(),
            lv == lines@.map_values(|l: Vec<char>| l@),
            lv == crate::lexer::lines_of(code@),
            began == program_began(lines_view(program@)),
            definitions_spec(code@) == split_from(lv, i as int, raw_defs_view(defs@), lines_view(program@), open_view(current)),
        decreases lines.len() - i,
    {
        let line = i + 1;
        let raw = lines[i].as_slice();
        assert(lv[i as int] == raw@);
        let (ta, tb) = trim_range(raw, 0, raw.len());
        let text = slice_subrange(raw, ta, tb);
        proof {
            assert(raw@.subrange(0, raw.len() as int) =~= raw@);
        }
        match current {
            Some(d) => {
                match crate::statement::char_position(text, '}') {
                    Some(pos) => {
                        proof {
                            crate::statement::lemma_char_index(text@, '}');
                        }
                        let (ba, bb) = trim_range(text, 0, pos);
                        let (aa, ab) = trim_range(text, pos + 1, text.len());
                        proof {
                            assert(text@.subrange(0, pos as int) =~= text@.take(pos as int));
                            assert(text@.subrange(pos + 1, text.len() as int) =~= text@.skip(pos + 1));
                            crate::statement::lemma_char_index(text@, '}');
                        }
                        let d2 = if ba < bb {
                            add_line(d, line, slice_subrange(text, ba, bb))
                        } else {
                            d
                        };
                        if aa < ab {
                            return Err(follow_error(line));
                        }
                        let ghost before = raw_defs_view(defs@);
                        let ghost dv = d2@;
                        defs.push(d2);
                        assert(raw_defs_view(defs@) =~= before.push(dv));
                        current = None;
                    },
                    None => {
                        current = Some(
                            if text.len() > 0 {
                                add_line(d, line, text)
                            } else {
                                d
                            },
                        );
                    },
                }
            },
            None => {
                match definition_header(text, line) {
                    Some(def) => {
                        if began {
                            let mut m = String::new();
                            push_str(&mut m, "`");
                            push_str(&mut m, def.name.as_str());
                            push_str(&mut m, "` is defined after the program began; definitions come first");
                            return Err(HarmonyDisruption::LoweringErr { detail: m, line });
                        }
                        let rest = chars_of(def.header_rest.as_str());
                        match crate::statement::char_position(rest.as_slice(), '}') {
                            Some(pos) => {
                                proof {
                                    crate::statement::lemma_char_index(rest@, '}');
                                }
                                let (aa, ab) = trim_range(rest.as_slice(), pos + 1, rest.len());
                                proof {
                                    crate::statement::lemma_char_index(rest@, '}');
                                    assert(rest@.subrange(pos + 1, rest.len() as int) =~= rest@.skip(pos + 1));
                                }
                                if aa < ab {
                                    return Err(follow_error(line));
                                }
                                let head = string_from(slice_subrange(rest.as_slice(), 0, pos));
                                proof {
                                    assert(head@ =~= rest@.take(pos as int));
                                }
                                let closed = RawDefinition { name: def.name, line, header_rest: head, body: def.body };
                                let ghost before = raw_defs_view(defs@);
                                let ghost dv = closed@;
                                assert(lines_view(closed.body@) =~= Seq::<(usize, Seq<char>)>::empty());
                                defs.push(closed);
                                assert(raw_defs_view(defs@) =~= before.push(dv));
                            },
                            None => {
                                proof {
                                    assert(lines_view(def.body@) =~= Seq::<(usize, Seq<char>)>::empty());
                                }
                                current = Some(def);
                            },
                        }
                    },
                    None => {
                        let ghost before = lines_view(program@);
                        let has = ta < tb;
                        program.push((line, string_from(raw)));
                        proof {
                            assert(lines_view(program@) =~= before.push((line, raw@)));
                            let after = lines_view(program@);
                            if began {
                                let j = choose|j: int| 0 <= j < before.len() && trim(#[trigger] before[j].1).len() > 0;
                                assert(after[j] == before[j]);
                            }
                            if has {
                                assert(after[before.len() as int].1 == raw@);
                            }
                            if program_began(after) {
                                let j = choose|j: int| 0 <= j < after.len() && trim(#[trigger] after[j].1).len() > 0;
                                if j < before.len() {
                                    assert(after[j] == before[j]);
                                }
                            }
                        }
                        began = began || has;
                    },
                }
            },
        }
        i = i + 1;
    }
    match current {
        Some(d) => {
            let mut m = String::new();
            push_str(&mut m, "the definition of `");
            push_str(&mut m, d.name.as_str());
            push_str(&mut m, "` has no closing brace");
            Err(HarmonyDisruption::LoweringErr { detail: m, line: d.line })
        },
        None => Ok((defs, program)),
    }
}

} // verus!
