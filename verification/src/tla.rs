//! A TLA+ module that states a program's spaces as state variables: each
//! starts as a row of zeros, and the shift operators are written out for
//! a model checker to use.

use vstd::prelude::*;
use crate::ast::{statements_view, FlowTarget, Statement, StatementV, TargetV, ToposBlock};
use crate::text::push_str;

verus! {

/// The space a statement names as a variable: a declaration, a binding, or
/// the target of a flow.
pub open spec fn variable_of(s: StatementV) -> Option<Seq<char>> {
    match s {
        StatementV::SpaceDef { name, .. } => Some(name),
        StatementV::ExtBind { name, .. } => Some(name),
        StatementV::Flow { target: TargetV::Var(name), .. } => Some(name),
        _ => None,
    }
}

/// The variables of the first `k` statements, each once, in the order
/// they first appear.
pub open spec fn variables_upto(stmts: Seq<StatementV>, k: int) -> Seq<Seq<char>>
    decreases k,
{
    if k <= 0 {
        Seq::empty()
    } else {
        let before = variables_upto(stmts, k - 1);
        match variable_of(stmts[k - 1]) {
            Some(name) => if before.contains(name) {
                before
            } else {
                before.push(name)
            },
            None => before,
        }
    }
}

pub open spec fn variables(stmts: Seq<StatementV>) -> Seq<Seq<char>> {
    variables_upto(stmts, stmts.len() as int)
}

/// The names separated by `, `.
pub open spec fn joined(names: Seq<Seq<char>>) -> Seq<char>
    decreases names.len(),
{
    if names.len() == 0 {
        Seq::empty()
    } else if names.len() == 1 {
        names[0]
    } else {
        joined(names.drop_last()) + ", "@ + names.last()
    }
}

/// The line of `Init` that starts variable `i` as zeros; every line but
/// the last ends in a conjunction.
pub open spec fn init_line(names: Seq<Seq<char>>, i: int) -> Seq<char> {
    "  /\\ "@ + names[i] + " = [i \\in 1..10 |-> 0]"@ + (if i == names.len() - 1 {
        Seq::empty()
    } else {
        " /\\"@
    }) + "\n"@
}

pub open spec fn init_lines(names: Seq<Seq<char>>, k: int) -> Seq<char>
    decreases k,
{
    if k <= 0 {
        Seq::empty()
    } else {
        init_lines(names, k - 1) + init_line(names, k - 1)
    }
}

pub open spec fn shift_operators() -> Seq<char> {
    "\\* ShiftRight (▷): Shift elements right by 1 cell, fill left boundary with 0\n"@
        + "ShiftRight(seq) == [i \\in 1..Len(seq) |-> IF i = 1 THEN 0 ELSE seq[i-1]]\n\n"@
        + "\\* ShiftLeft (▽): Shift elements left by 1 cell, fill right boundary with 0\n"@
        + "ShiftLeft(seq) == [i \\in 1..Len(seq) |-> IF i = Len(seq) THEN 0 ELSE seq[i+1]]\n\n"@
}

/// The module text for the given variables, in the given order.
pub open spec fn tla_text(module_name: Seq<char>, names: Seq<Seq<char>>) -> Seq<char> {
    "---------------- MODULE "@ + module_name + " ----------------\n"@ + "EXTENDS Naturals, Sequences, FiniteSets, TLC\n\n"@
        + (if names.len() > 0 {
        "VARIABLES "@ + joined(names) + "\n\n"@
    } else {
        Seq::empty()
    }) + "Init ==\n"@ + init_lines(names, names.len() as int) + "\n"@ + shift_operators() + "Next ==\n"@
        + "  /\\ UNCHANGED <<"@ + joined(names) + ">>\n\n"@ + "Spec == Init /\\ [][Next]_<<"@ + joined(names)
        + ">>\n\n"@ + "====================================================\n"@
}

pub open spec fn names_of(v: Seq<String>) -> Seq<Seq<char>> {
    v.map_values(|s: String| s@)
}

proof fn lemma_variables_upto(stmts: Seq<StatementV>, k: int)
    requires
        0 <= k <= stmts.len(),
    ensures
        forall|i: int, j: int|
            0 <= i < j < variables_upto(stmts, k).len() ==> variables_upto(stmts, k)[i] != variables_upto(stmts, k)[j],
        forall|q: int| 0 <= q < k && variable_of(#[trigger] stmts[q]) is Some ==> variables_upto(stmts, k).contains(
            variable_of(stmts[q])->0,
        ),
        forall|n: Seq<char>| #[trigger] variables_upto(stmts, k).contains(n) ==> exists|q: int|
            0 <= q < k && variable_of(#[trigger] stmts[q]) == Some(n),
    decreases k,
{
    if k > 0 {
        lemma_variables_upto(stmts, k - 1);
        let before = variables_upto(stmts, k - 1);
        let now = variables_upto(stmts, k);
        assert forall|q: int| 0 <= q < k && variable_of(#[trigger] stmts[q]) is Some implies now.contains(
            variable_of(stmts[q])->0,
        ) by {
            if q < k - 1 {
                let n = variable_of(stmts[q])->0;
                let p = choose|p: int| 0 <= p < before.len() && before[p] == n;
                assert(now[p] == n);
            } else {
                let n = variable_of(stmts[q])->0;
                if before.contains(n) {
                    let p = choose|p: int| 0 <= p < before.len() && before[p] == n;
                    assert(now[p] == n);
                } else {
                    assert(now[now.len() - 1] == n);
                }
            }
        }
        assert forall|n: Seq<char>| #[trigger] now.contains(n) implies exists|q: int|
            0 <= q < k && variable_of(#[trigger] stmts[q]) == Some(n) by {
            let p = choose|p: int| 0 <= p < now.len() && now[p] == n;
            if p < before.len() {
                assert(before[p] == n);
                assert(before.contains(n));
            } else {
                assert(variable_of(stmts[k - 1]) == Some(n));
            }
        }
    }
}

/// Every space the program names is a variable of the module, and none is
/// one twice; nothing else is a variable.
pub proof fn law_each_space_is_one_variable(stmts: Seq<StatementV>)
    ensures
        forall|i: int, j: int| 0 <= i < j < variables(stmts).len() ==> variables(stmts)[i] != variables(stmts)[j],
        forall|q: int| 0 <= q < stmts.len() && variable_of(#[trigger] stmts[q]) is Some ==> variables(stmts).contains(
            variable_of(stmts[q])->0,
        ),
        forall|n: Seq<char>| #[trigger] variables(stmts).contains(n) ==> exists|q: int|
            0 <= q < stmts.len() && variable_of(#[trigger] stmts[q]) == Some(n),
{
    lemma_variables_upto(stmts, stmts.len() as int);
}

/// The spaces the program names, each once, in the order they first
/// appear.
pub fn tla_variables(block: &ToposBlock) -> (r: Vec<String>)
    ensures
        names_of(r@) == variables(statements_view(block.statements@)),
{
    let ghost sv = statements_view(block.statements@);
    let mut out: Vec<String> = Vec::new();
    let mut k: usize = 0;
    while k < block.statements.len()
        invariant
            k <= block.statements.len(),
            sv == statements_view(block.statements@),
            names_of(out@) == variables_upto(sv, k as int),
        decreases block.statements.len() - k,
    {
        let ghost before = names_of(out@);
        assert(sv[k as int] == block.statements@[k as int]@);
        let named: Option<&String> = match &block.statements[k] {
            Statement::SpaceDef(d) => Some(&d.name),
            Statement::ExtBind(b) => Some(&b.space.name),
            Statement::Flow { target: FlowTarget::Var(n), .. } => Some(n),
            _ => None,
        };
        match named {
            Some(n) => {
                let mut seen = false;
                let mut q: usize = 0;
                while q < out.len()
                    invariant
                        q <= out.len(),
                        before == names_of(out@),
                        seen == exists|p: int| 0 <= p < q && #[trigger] before[p] == n@,
                    decreases out.len() - q,
                {
                    if crate::text::str_eq(out[q].as_str(), n.as_str()) {
                        seen = true;
                    }
                    assert(before[q as int] == out@[q as int]@);
                    q = q + 1;
                }
                if !seen {
                    out.push(n.clone());
                    assert(names_of(out@) =~= before.push(n@));
                }
                proof {
                    if seen {
                        assert(before.contains(n@));
                    } else {
                        assert(!before.contains(n@)) by {
                            if before.contains(n@) {
                                let p = choose|p: int| 0 <= p < before.len() && before[p] == n@;
                                assert(before[p] == n@);
                            }
                        }
                    }
                }
            },
            None => {},
        }
        k = k + 1;
    }
    out
}

/// The variables joined by `, `, appended to `s`.
fn push_joined(s: &mut String, vars: &[String])
    ensures
        final(s)@ == old(s)@ + joined(names_of(vars@)),
{
    let ghost start = s@;
    let mut k: usize = 0;
    while k < vars.len()
        invariant
            k <= vars.len(),
            s@ == start + joined(names_of(vars@).subrange(0, k as int)),
        decreases vars.len() - k,
    {
        let ghost names = names_of(vars@);
        assert(names.subrange(0, k as int + 1).drop_last() =~= names.subrange(0, k as int));
        if k > 0 {
            push_str(s, ", ");
        } else {
            assert(names.subrange(0, 0) =~= Seq::<Seq<char>>::empty());
        }
        push_str(s, vars[k].as_str());
        k = k + 1;
        proof {
            if k == 1 {
                assert(start + Seq::<char>::empty() =~= start);
            }
        }
    }
    assert(names_of(vars@).subrange(0, vars.len() as int) =~= names_of(vars@));
}

/// The module text for the given variables, in the given order.
pub fn tla_spec_text(module_name: &str, vars: &[String]) -> (r: String)
    ensures
        r@ == tla_text(module_name@, names_of(vars@)),
{
    let ghost names = names_of(vars@);
    let mut tla = String::new();
    push_str(&mut tla, "---------------- MODULE ");
    push_str(&mut tla, module_name);
    push_str(&mut tla, " ----------------\n");
    push_str(&mut tla, "EXTENDS Naturals, Sequences, FiniteSets, TLC\n\n");
    let ghost head = tla@;
    if vars.len() > 0 {
        push_str(&mut tla, "VARIABLES ");
        push_joined(&mut tla, vars);
        push_str(&mut tla, "\n\n");
    }
    push_str(&mut tla, "Init ==\n");
    let ghost init_start = tla@;
    let mut i: usize = 0;
    while i < vars.len()
        invariant
            i <= vars.len(),
            names == names_of(vars@),
            tla@ == init_start + init_lines(names, i as int),
        decreases vars.len() - i,
    {
        let ghost before = tla@;
        push_str(&mut tla, "  /\\ ");
        push_str(&mut tla, vars[i].as_str());
        push_str(&mut tla, " = [i \\in 1..10 |-> 0]");
        let ghost mid = tla@;
        if i == vars.len() - 1 {
            assert(mid + Seq::<char>::empty() =~= mid);
        } else {
            push_str(&mut tla, " /\\");
        }
        push_str(&mut tla, "\n");
        proof {
            assert(names[i as int] == vars@[i as int]@);
            assert(tla@ =~= before + init_line(names, i as int));
        }
        i = i + 1;
    }
    push_str(&mut tla, "\n");
    push_str(&mut tla, "\\* ShiftRight (▷): Shift elements right by 1 cell, fill left boundary with 0\n");
    push_str(&mut tla, "ShiftRight(seq) == [i \\in 1..Len(seq) |-> IF i = 1 THEN 0 ELSE seq[i-1]]\n\n");
    push_str(&mut tla, "\\* ShiftLeft (▽): Shift elements left by 1 cell, fill right boundary with 0\n");
    push_str(&mut tla, "ShiftLeft(seq) == [i \\in 1..Len(seq) |-> IF i = Len(seq) THEN 0 ELSE seq[i+1]]\n\n");
    push_str(&mut tla, "Next ==\n");
    push_str(&mut tla, "  /\\ UNCHANGED <<");
    push_joined(&mut tla, vars);
    push_str(&mut tla, ">>\n\n");
    push_str(&mut tla, "Spec == Init /\\ [][Next]_<<");
    push_joined(&mut tla, vars);
    push_str(&mut tla, ">>\n\n");
    push_str(&mut tla, "====================================================\n");
    assert(tla@ =~= tla_text(module_name@, names));
    tla
}

/// The TLA+ module for a program: every space it names is a variable.
pub fn generate_tla_spec(module_name: &str, block: &ToposBlock) -> (r: String)
    ensures
        r@ == tla_text(module_name@, variables(statements_view(block.statements@))),
{
    let vars = tla_variables(block);
    tla_spec_text(module_name, vars.as_slice())
}

} // verus!
