//! The program as a dependency graph: a node for every space, an edge from
//! each space a flow reads to the space it writes.

use vstd::prelude::*;
use petgraph::graph::{DiGraph, NodeIndex};
use petgraph::Directed;
use crate::ast::{copy_expr, statements_view, Expr, ExprV, FlowTarget, Statement, StatementV, TargetV, ToposBlock};
use crate::error::HarmonyDisruption;
use crate::text::{chars_of, is_tau, is_tau_name, push_char, push_str, str_eq};
use crate::space_laws::{reads_space, reads_space_in};

verus! {

#[verifier::external_type_specification]
#[verifier::external_body]
#[verifier::reject_recursive_types(N)]
#[verifier::reject_recursive_types(E)]
#[verifier::reject_recursive_types(Ty)]
#[verifier::reject_recursive_types(Ix)]
pub struct ExGraph<N, E, Ty, Ix>(petgraph::graph::Graph<N, E, Ty, Ix>);

#[verifier::external_type_specification]
#[verifier::external_body]
pub struct ExDirected(Directed);

/// A node of the graph: the space it stands for and, for a space that only
/// a flow introduces, the expression that writes it.
#[derive(Debug, Clone)]
pub struct DagNode {
    pub label: String,
    pub expr: Option<Expr>,
}

pub struct DagNodeV {
    pub label: Seq<char>,
    pub expr: Option<ExprV>,
}

impl View for DagNode {
    type V = DagNodeV;

    open spec fn view(&self) -> DagNodeV {
        DagNodeV {
            label: self.label@,
            expr: match self.expr {
                Some(e) => Some(e@),
                None => None,
            },
        }
    }
}

/// The node weights of a graph, in the order the nodes were added.
pub uninterp spec fn graph_nodes(g: DiGraph<DagNode, String>) -> Seq<DagNodeV>;

/// The edges of a graph, in the order they were added: the number of the
/// node each leaves and of the node it enters, and its weight.
pub uninterp spec fn graph_edges(g: DiGraph<DagNode, String>) -> Seq<(nat, nat, Seq<char>)>;

/// `DiGraph::new`: a graph with no node and no edge.
#[verifier::external_body]
fn empty_graph() -> (g: DiGraph<DagNode, String>)
    ensures
        graph_nodes(g) == Seq::<DagNodeV>::empty(),
        graph_edges(g) == Seq::<(nat, nat, Seq<char>)>::empty(),
{
    DiGraph::new()
}

/// `Graph::add_node`: the node goes last, its number is the count of the
/// nodes before it (which `NodeIndex::index` gives back for an index below
/// `u32::MAX`), and the edges are untouched. At `u32::MAX` nodes it panics.
#[verifier::external_body]
fn add_graph_node(g: &mut DiGraph<DagNode, String>, weight: DagNode) -> (i: usize)
    requires
        graph_nodes(*old(g)).len() < u32::MAX,
    ensures
        graph_nodes(*final(g)) == graph_nodes(*old(g)).push(weight@),
        graph_edges(*final(g)) == graph_edges(*old(g)),
        i == graph_nodes(*old(g)).len(),
{
    g.add_node(weight).index()
}

/// `Graph::add_edge`: the edge goes last and the nodes are untouched. It
/// panics on a node that is not in the graph, and at `u32::MAX` edges.
#[verifier::external_body]
fn add_graph_edge(g: &mut DiGraph<DagNode, String>, from: usize, to: usize, weight: String)
    requires
        from < graph_nodes(*old(g)).len(),
        to < graph_nodes(*old(g)).len(),
        graph_nodes(*old(g)).len() < u32::MAX,
        graph_edges(*old(g)).len() < u32::MAX,
    ensures
        graph_edges(*final(g)) == graph_edges(*old(g)).push((from as nat, to as nat, weight@)),
        graph_nodes(*final(g)) == graph_nodes(*old(g)),
{
    g.add_edge(NodeIndex::new(from), NodeIndex::new(to), weight);
}

/// The graph of a program, and where each space's node stands. A later
/// entry of `node_map` for a name stands in place of an earlier one.
pub struct RhoDag {
    pub graph: DiGraph<DagNode, String>,
    pub node_map: Vec<(String, usize)>,
}

/// What a name-to-node list maps each name to: the last entry wins.
pub open spec fn map_view(v: Seq<(String, usize)>) -> Map<Seq<char>, nat>
    decreases v.len(),
{
    if v.len() == 0 {
        Map::empty()
    } else {
        map_view(v.drop_last()).insert(v.last().0@, v.last().1 as nat)
    }
}

/// A graph in the making: its nodes, its edges, and the node of each name.
pub struct DagV {
    pub nodes: Seq<DagNodeV>,
    pub edges: Seq<(nat, nat, Seq<char>)>,
    pub map: Map<Seq<char>, nat>,
}

/// Whether every edge and every name points at a node, and the node
/// count is below the limit of the graph's indices.
pub open spec fn dag_wf(d: DagV) -> bool {
    &&& d.nodes.len() < u32::MAX
    &&& forall|m: Seq<char>| #[trigger] d.map.contains_key(m) ==> d.map[m] < d.nodes.len()
    &&& edges_within(d.edges, d.nodes.len())
}

/// Whether every edge joins two of the first `n` nodes.
pub open spec fn edges_within(edges: Seq<(nat, nat, Seq<char>)>, n: nat) -> bool {
    forall|q: int| 0 <= q < edges.len() ==> (#[trigger] edges[q]).0 < n && edges[q].1 < n
}

impl RhoDag {
    pub open spec fn view_of(&self) -> DagV {
        DagV { nodes: graph_nodes(self.graph), edges: graph_edges(self.graph), map: map_view(self.node_map@) }
    }
}

/// The hexadecimal digit for a value below 16, in upper case.
pub open spec fn hex_char(d: nat) -> char {
    if d < 10 {
        crate::text::digit_char(d)
    } else if d == 10 {
        'A'
    } else if d == 11 {
        'B'
    } else if d == 12 {
        'C'
    } else if d == 13 {
        'D'
    } else if d == 14 {
        'E'
    } else {
        'F'
    }
}

/// The upper-case hexadecimal digits of a number, without leading zeros.
pub open spec fn upper_hex(n: nat) -> Seq<char>
    decreases n,
{
    if n < 16 {
        seq![hex_char(n)]
    } else {
        upper_hex(n / 16).push(hex_char(n % 16))
    }
}

/// Every space an expression reads, in the order it reads them, once per
/// read; the threshold reads no space.
pub open spec fn dependencies(e: ExprV) -> Seq<Seq<char>>
    decreases e,
{
    match e {
        ExprV::Var(n) => if is_tau_name(n) {
            Seq::empty()
        } else {
            seq![n]
        },
        ExprV::Number(_) => Seq::empty(),
        ExprV::AuditTrace(inner) => dependencies(*inner),
        ExprV::Builtin { operand, .. } => dependencies(*operand),
        ExprV::Shift { operand, .. } => dependencies(*operand),
        ExprV::Index { operand, .. } => dependencies(*operand),
        ExprV::Lift { operand, .. } => dependencies(*operand),
        ExprV::Reduce { operand, .. } => dependencies(*operand),
        ExprV::Scan { operand, .. } => dependencies(*operand),
        ExprV::Rotate { operand, .. } => dependencies(*operand),
        ExprV::Reverse { operand, .. } => dependencies(*operand),
        ExprV::Reshape { operand, .. } => dependencies(*operand),
        ExprV::Transpose { operand, .. } => dependencies(*operand),
        ExprV::Take { operand, .. } => dependencies(*operand),
        ExprV::Drop { operand, .. } => dependencies(*operand),
        ExprV::BinaryOp { lhs, rhs, .. } => dependencies(*lhs) + dependencies(*rhs),
        ExprV::Call { args, .. } => dependencies_in(args),
    }
}

pub open spec fn dependencies_in(args: Seq<ExprV>) -> Seq<Seq<char>>
    decreases args,
{
    if args.len() == 0 {
        Seq::empty()
    } else {
        dependencies_in(args.subrange(0, args.len() - 1)) + dependencies(args[args.len() - 1])
    }
}

/// The label of a bound space: its address in hexadecimal, then its name.
pub open spec fn binding_label(address: u64, name: Seq<char>) -> Seq<char> {
    "&[0x"@ + upper_hex(address as nat) + "]:"@ + name
}

/// The node a declaration or a binding adds.
pub open spec fn declare(st: DagV, s: StatementV) -> DagV {
    match s {
        StatementV::SpaceDef { name, .. } => DagV {
            nodes: st.nodes.push(DagNodeV { label: name, expr: None }),
            edges: st.edges,
            map: st.map.insert(name, st.nodes.len()),
        },
        StatementV::ExtBind { address, name, .. } => DagV {
            nodes: st.nodes.push(DagNodeV { label: binding_label(address, name), expr: None }),
            edges: st.edges,
            map: st.map.insert(name, st.nodes.len()),
        },
        _ => st,
    }
}

pub open spec fn declared_upto(stmts: Seq<StatementV>, k: int) -> DagV
    decreases k,
{
    if k <= 0 {
        DagV { nodes: Seq::empty(), edges: Seq::empty(), map: Map::empty() }
    } else {
        declare(declared_upto(stmts, k - 1), stmts[k - 1])
    }
}

/// The edges into node `to` from every read space that has a node.
pub open spec fn edges_from(map: Map<Seq<char>, nat>, deps: Seq<Seq<char>>, to: nat, kind: Seq<char>) -> Seq<
    (nat, nat, Seq<char>),
>
    decreases deps.len(),
{
    if deps.len() == 0 {
        Seq::empty()
    } else {
        edges_from(map, deps.drop_last(), to, kind) + if map.contains_key(deps.last()) {
            seq![(map[deps.last()], to, kind)]
        } else {
            Seq::empty()
        }
    }
}

pub open spec fn equilibrium_label() -> Seq<char> {
    "EQUILIBRIUM(=)"@
}

/// A flow or a loop: the node of its target, added if it has none yet and
/// then holding its expression, and an edge from each space it reads.
pub open spec fn connect_to(st: DagV, src: ExprV, label: Seq<char>, kind: Seq<char>) -> DagV {
    let (grown, to) = if st.map.contains_key(label) {
        (st, st.map[label])
    } else {
        (
            DagV {
                nodes: st.nodes.push(DagNodeV { label, expr: Some(src) }),
                edges: st.edges,
                map: st.map.insert(label, st.nodes.len()),
            },
            st.nodes.len(),
        )
    };
    DagV { nodes: grown.nodes, edges: grown.edges + edges_from(grown.map, dependencies(src), to, kind), map: grown.map }
}

pub open spec fn connect(st: DagV, s: StatementV) -> DagV {
    match s {
        StatementV::Flow { src, target } => connect_to(
            st,
            src,
            match target {
                TargetV::Var(n) => n,
                TargetV::Equilibrium => equilibrium_label(),
            },
            "flow"@,
        ),
        StatementV::Iterate { src, target } => connect_to(st, src, target, "iterate"@),
        _ => st,
    }
}

pub open spec fn connected_upto(start: DagV, stmts: Seq<StatementV>, k: int) -> DagV
    decreases k,
{
    if k <= 0 {
        start
    } else {
        connect(connected_upto(start, stmts, k - 1), stmts[k - 1])
    }
}

/// The graph of a program: the declarations first, then every flow.
pub open spec fn dag_of(stmts: Seq<StatementV>) -> DagV {
    connected_upto(declared_upto(stmts, stmts.len() as int), stmts, stmts.len() as int)
}

/// The name a statement gives a node: a declared or bound space, or the
/// target of a flow or a loop.
pub open spec fn node_name(s: StatementV) -> Option<Seq<char>> {
    match s {
        StatementV::SpaceDef { name, .. } => Some(name),
        StatementV::ExtBind { name, .. } => Some(name),
        StatementV::Flow { target: TargetV::Var(n), .. } => Some(n),
        StatementV::Flow { target: TargetV::Equilibrium, .. } => Some(equilibrium_label()),
        StatementV::Iterate { target, .. } => Some(target),
        _ => None,
    }
}

pub open spec fn is_declaration(s: StatementV) -> bool {
    s is SpaceDef || s is ExtBind
}

proof fn lemma_declared_names(stmts: Seq<StatementV>, k: int)
    requires
        0 <= k <= stmts.len(),
    ensures
        forall|q: int| 0 <= q < k && is_declaration(#[trigger] stmts[q]) ==> declared_upto(stmts, k).map.contains_key(
            node_name(stmts[q])->0,
        ),
    decreases k,
{
    if k > 0 {
        lemma_declared_names(stmts, k - 1);
    }
}

proof fn lemma_connected_names(start: DagV, stmts: Seq<StatementV>, k: int)
    requires
        0 <= k <= stmts.len(),
    ensures
        forall|m: Seq<char>| #[trigger] start.map.contains_key(m) ==> connected_upto(start, stmts, k).map.contains_key(m),
        forall|q: int| 0 <= q < k && (#[trigger] stmts[q] is Flow || stmts[q] is Iterate) ==> connected_upto(
            start,
            stmts,
            k,
        ).map.contains_key(node_name(stmts[q])->0),
    decreases k,
{
    if k > 0 {
        lemma_connected_names(start, stmts, k - 1);
    }
}

/// Every space the program declares or binds, and every target a flow or a
/// loop writes, has a node in the graph.
pub proof fn law_every_space_has_a_node(stmts: Seq<StatementV>)
    ensures
        forall|q: int| 0 <= q < stmts.len() && (#[trigger] node_name(stmts[q])) is Some ==> dag_of(stmts).map.contains_key(
            node_name(stmts[q])->0,
        ),
{
    let n = stmts.len() as int;
    lemma_declared_names(stmts, n);
    lemma_connected_names(declared_upto(stmts, n), stmts, n);
    assert forall|q: int| 0 <= q < stmts.len() && (#[trigger] node_name(stmts[q])) is Some implies dag_of(
        stmts,
    ).map.contains_key(node_name(stmts[q])->0) by {
        if is_declaration(stmts[q]) {
            assert(declared_upto(stmts, n).map.contains_key(node_name(stmts[q])->0));
        } else {
            assert(stmts[q] is Flow || stmts[q] is Iterate);
        }
    }
}

/// An expression depends on a space exactly when it reads it: a name other
/// than 𝜏, wherever it stands, under an operator, a shift, a fold or a call.
pub proof fn law_dependencies_are_the_spaces_read(e: ExprV, n: Seq<char>)
    ensures
        dependencies(e).contains(n) <==> reads_space(e, n),
    decreases e,
{
    match e {
        ExprV::Var(m) => {
            if !is_tau_name(m) {
                assert(seq![m][0] == m);
            }
        },
        ExprV::Number(_) => {},
        ExprV::BinaryOp { lhs, rhs, .. } => {
            law_dependencies_are_the_spaces_read(*lhs, n);
            law_dependencies_are_the_spaces_read(*rhs, n);
            lemma_contains_concat(dependencies(*lhs), dependencies(*rhs), n);
        },
        ExprV::Call { args, .. } => lemma_dependencies_in_read(args, n),
        ExprV::Shift { operand, .. } => law_dependencies_are_the_spaces_read(*operand, n),
        ExprV::Builtin { operand, .. } => law_dependencies_are_the_spaces_read(*operand, n),
        ExprV::Rotate { operand, .. } => law_dependencies_are_the_spaces_read(*operand, n),
        ExprV::Reverse { operand, .. } => law_dependencies_are_the_spaces_read(*operand, n),
        ExprV::Reshape { operand, .. } => law_dependencies_are_the_spaces_read(*operand, n),
        ExprV::Transpose { operand, .. } => law_dependencies_are_the_spaces_read(*operand, n),
        ExprV::Take { operand, .. } => law_dependencies_are_the_spaces_read(*operand, n),
        ExprV::Drop { operand, .. } => law_dependencies_are_the_spaces_read(*operand, n),
        ExprV::Index { operand, .. } => law_dependencies_are_the_spaces_read(*operand, n),
        ExprV::Lift { operand, .. } => law_dependencies_are_the_spaces_read(*operand, n),
        ExprV::Scan { operand, .. } => law_dependencies_are_the_spaces_read(*operand, n),
        ExprV::Reduce { operand, .. } => law_dependencies_are_the_spaces_read(*operand, n),
        ExprV::AuditTrace(operand) => law_dependencies_are_the_spaces_read(*operand, n),
    }
}

proof fn lemma_dependencies_in_read(args: Seq<ExprV>, n: Seq<char>)
    ensures
        dependencies_in(args).contains(n) <==> reads_space_in(args, n),
    decreases args,
{
    if args.len() > 0 {
        let last = args.len() - 1;
        lemma_dependencies_in_read(args.subrange(0, last), n);
        law_dependencies_are_the_spaces_read(args[last], n);
        lemma_contains_concat(dependencies_in(args.subrange(0, last)), dependencies(args[last]), n);
        lemma_reads_in_last(args, n);
    }
}

/// Whether one of the arguments reads a space, asked of all but the last
/// and then of the last.
proof fn lemma_reads_in_last(args: Seq<ExprV>, n: Seq<char>)
    requires
        args.len() > 0,
    ensures
        reads_space_in(args, n) == (reads_space_in(args.subrange(0, args.len() - 1), n) || reads_space(
            args[args.len() - 1],
            n,
        )),
    decreases args.len(),
{
    let rest = args.subrange(1, args.len() as int);
    if args.len() == 1 {
        assert(rest.len() == 0);
        assert(!reads_space_in(rest, n));
        assert(!reads_space_in(args.subrange(0, 0), n));
        assert(reads_space_in(args, n) == (reads_space(args[0], n) || reads_space_in(rest, n)));
    } else {
        lemma_reads_in_last(rest, n);
        let front = args.subrange(0, args.len() - 1);
        assert(front[0] == args[0]);
        assert(front.subrange(1, front.len() as int) =~= rest.subrange(0, rest.len() - 1));
        assert(rest[rest.len() - 1] == args[args.len() - 1]);
        assert(reads_space_in(front, n) == (reads_space(args[0], n) || reads_space_in(
            rest.subrange(0, rest.len() - 1),
            n,
        )));
        assert(reads_space_in(args, n) == (reads_space(args[0], n) || reads_space_in(rest, n)));
    }
}

proof fn lemma_contains_concat(a: Seq<Seq<char>>, b: Seq<Seq<char>>, n: Seq<char>)
    ensures
        (a + b).contains(n) <==> a.contains(n) || b.contains(n),
{
    if a.contains(n) {
        let i = choose|i: int| 0 <= i < a.len() && a[i] == n;
        assert((a + b)[i] == n);
    }
    if b.contains(n) {
        let i = choose|i: int| 0 <= i < b.len() && b[i] == n;
        assert((a + b)[a.len() + i] == n);
    }
    if (a + b).contains(n) {
        let i = choose|i: int| 0 <= i < a.len() + b.len() && (a + b)[i] == n;
        if i < a.len() {
            assert(a[i] == n);
        } else {
            assert(b[i - a.len()] == n);
        }
    }
}

/// How many reads the flows and loops of the first `k` statements make.
pub open spec fn reads_upto(stmts: Seq<StatementV>, k: int) -> nat
    decreases k,
{
    if k <= 0 {
        0
    } else {
        reads_upto(stmts, k - 1) + match stmts[k - 1] {
            StatementV::Flow { src, .. } => dependencies(src).len(),
            StatementV::Iterate { src, .. } => dependencies(src).len(),
            _ => 0,
        }
    }
}

proof fn lemma_edges_from_len(map: Map<Seq<char>, nat>, deps: Seq<Seq<char>>, to: nat, kind: Seq<char>)
    ensures
        edges_from(map, deps, to, kind).len() <= deps.len(),
    decreases deps.len(),
{
    if deps.len() > 0 {
        lemma_edges_from_len(map, deps.drop_last(), to, kind);
    }
}

proof fn lemma_reads_mono(stmts: Seq<StatementV>, k: int)
    requires
        0 <= k <= stmts.len(),
    ensures
        reads_upto(stmts, k) <= reads_upto(stmts, stmts.len() as int),
    decreases stmts.len() - k,
{
    if k < stmts.len() {
        lemma_reads_mono(stmts, k + 1);
    }
}

/// The node of a name, if it has one.
fn node_of(map: &Vec<(String, usize)>, name: &str) -> (r: Option<usize>)
    ensures
        match r {
            Some(i) => map_view(map@).contains_key(name@) && map_view(map@)[name@] == i,
            None => !map_view(map@).contains_key(name@),
        },
{
    let mut i: usize = map.len();
    assert(map@.subrange(0, map.len() as int) =~= map@);
    while i > 0
        invariant
            i <= map.len(),
            map_view(map@).contains_key(name@) == map_view(map@.subrange(0, i as int)).contains_key(name@),
            map_view(map@).contains_key(name@) ==> map_view(map@)[name@] == map_view(map@.subrange(0, i as int))[name@],
        decreases i,
    {
        let ghost upto = map@.subrange(0, i as int);
        assert(upto.drop_last() =~= map@.subrange(0, i as int - 1));
        if str_eq(map[i - 1].0.as_str(), name) {
            return Some(map[i - 1].1);
        }
        i = i - 1;
    }
    None
}

/// The upper-case hexadecimal digits of `n`, appended.
pub(crate) fn push_upper_hex(s: &mut String, n: u64)
    ensures
        final(s)@ == old(s)@ + upper_hex(n as nat),
    decreases n,
{
    let d = n % 16;
    let c = if d < 10 {
        crate::text::digit(d as usize)
    } else if d == 10 {
        'A'
    } else if d == 11 {
        'B'
    } else if d == 12 {
        'C'
    } else if d == 13 {
        'D'
    } else if d == 14 {
        'E'
    } else {
        'F'
    };
    if n < 16 {
        push_char(s, c);
        assert(upper_hex(n as nat) =~= seq![hex_char(n as nat)]);
    } else {
        push_upper_hex(s, n / 16);
        push_char(s, c);
        assert(old(s)@ + upper_hex(n as nat) =~= old(s)@ + upper_hex((n / 16) as nat) + seq![hex_char((n % 16) as nat)]);
    }
}

/// Every space `e` reads, appended in the order it reads them.
fn push_dependencies(e: &Expr, out: &mut Vec<String>)
    ensures
        crate::tla::names_of(final(out)@) == crate::tla::names_of(old(out)@) + dependencies(e@),
    decreases e,
{
    match e {
        Expr::Var(n) => {
            let c = chars_of(n.as_str());
            if !is_tau(c.as_slice()) {
                out.push(n.clone());
                assert(crate::tla::names_of(out@) =~= crate::tla::names_of(old(out)@) + seq![n@]);
            } else {
                assert(crate::tla::names_of(out@) =~= crate::tla::names_of(old(out)@) + Seq::<Seq<char>>::empty());
            }
        },
        Expr::Number(_) => {
            assert(crate::tla::names_of(out@) =~= crate::tla::names_of(old(out)@) + Seq::<Seq<char>>::empty());
        },
        Expr::AuditTrace(inner) => push_dependencies(inner, out),
        Expr::Builtin { operand, .. } => push_dependencies(operand, out),
        Expr::Shift { operand, .. } => push_dependencies(operand, out),
        Expr::Index { operand, .. } => push_dependencies(operand, out),
        Expr::Lift { operand, .. } => push_dependencies(operand, out),
        Expr::Reduce { operand, .. } => push_dependencies(operand, out),
        Expr::Scan { operand, .. } => push_dependencies(operand, out),
        Expr::Rotate { operand, .. } => push_dependencies(operand, out),
        Expr::Reverse { operand, .. } => push_dependencies(operand, out),
        Expr::Reshape { operand, .. } => push_dependencies(operand, out),
        Expr::Transpose { operand, .. } => push_dependencies(operand, out),
        Expr::Take { operand, .. } => push_dependencies(operand, out),
        Expr::Drop { operand, .. } => push_dependencies(operand, out),
        Expr::BinaryOp { lhs, rhs, .. } => {
            push_dependencies(lhs, out);
            push_dependencies(rhs, out);
            assert(crate::tla::names_of(out@) =~= crate::tla::names_of(old(out)@) + (dependencies(lhs@) + dependencies(
                rhs@,
            )));
        },
        Expr::Call { args, .. } => push_dependencies_in(args.as_slice(), out),
    }
}

fn push_dependencies_in(args: &[Expr], out: &mut Vec<String>)
    ensures
        crate::tla::names_of(final(out)@) == crate::tla::names_of(old(out)@) + dependencies_in(crate::ast::args_view(args@)),
    decreases args@,
{
    let ghost v = crate::ast::args_view(args@);
    let ghost start = crate::tla::names_of(out@);
    proof {
        crate::ast::lemma_args_view_public(args@);
        assert(v.subrange(0, 0) =~= Seq::<ExprV>::empty());
        assert(start + Seq::<Seq<char>>::empty() =~= start);
    }
    let mut i: usize = 0;
    while i < args.len()
        invariant
            i <= args.len(),
            v == crate::ast::args_view(args@),
            v.len() == args.len(),
            forall|k: int| 0 <= k < args.len() ==> #[trigger] v[k] == args@[k]@,
            crate::tla::names_of(out@) == start + dependencies_in(v.subrange(0, i as int)),
        decreases args.len() - i,
    {
        proof {
            assert(decreases_to!(args@ => args@[i as int]));
            assert(v.subrange(0, i as int + 1).subrange(0, i as int) =~= v.subrange(0, i as int));
        }
        push_dependencies(&args[i], out);
        i = i + 1;
        assert(crate::tla::names_of(out@) =~= start + dependencies_in(v.subrange(0, i as int)));
    }
    assert(v.subrange(0, args.len() as int) =~= v);
}

/// Every space an expression reads, in order, once per read.
pub fn extract_dependencies(e: &Expr) -> (r: Vec<String>)
    ensures
        crate::tla::names_of(r@) == dependencies(e@),
{
    let mut out: Vec<String> = Vec::new();
    push_dependencies(e, &mut out);
    assert(crate::tla::names_of(out@) =~= Seq::<Seq<char>>::empty() + dependencies(e@));
    out
}

impl RhoDag {
    /// The graph of a program: a node for each declared or bound space, in
    /// order, then for each flow or loop a node for its target if it has
    /// none yet, and an edge from each space it reads that has a node.
    pub fn build(block: &ToposBlock) -> (r: Result<RhoDag, HarmonyDisruption>)
        requires
            2 * block.statements.len() + reads_upto(statements_view(block.statements@), block.statements.len() as int)
                < u32::MAX,
        ensures
            r matches Ok(dag) && dag.view_of() == dag_of(statements_view(block.statements@)) && dag_wf(dag.view_of()),
    {
        let ghost sv = statements_view(block.statements@);
        let ghost n = block.statements.len() as int;
        let mut graph = empty_graph();
        let mut node_map: Vec<(String, usize)> = Vec::new();
        let mut k: usize = 0;
        while k < block.statements.len()
            invariant
                k <= block.statements.len(),
                sv == statements_view(block.statements@),
                n == block.statements.len(),
                2 * n + reads_upto(sv, n) < u32::MAX,
                graph_nodes(graph).len() <= k,
                graph_edges(graph) == Seq::<(nat, nat, Seq<char>)>::empty(),
                forall|m: Seq<char>| #[trigger] map_view(node_map@).contains_key(m) ==> map_view(node_map@)[m] < graph_nodes(graph).len(),
                (DagV { nodes: graph_nodes(graph), edges: graph_edges(graph), map: map_view(node_map@) })
                    == declared_upto(sv, k as int),
            decreases block.statements.len() - k,
        {
            assert(sv[k as int] == block.statements@[k as int]@);
            let ghost before = node_map@;
            match &block.statements[k] {
                Statement::SpaceDef(d) => {
                    let i = add_graph_node(&mut graph, DagNode { label: d.name.clone(), expr: None });
                    node_map.push((d.name.clone(), i));
                    assert(node_map@.drop_last() =~= before);
                },
                Statement::ExtBind(b) => {
                    let mut label = String::new();
                    push_str(&mut label, "&[0x");
                    push_upper_hex(&mut label, b.address);
                    push_str(&mut label, "]:");
                    push_str(&mut label, b.space.name.as_str());
                    assert(label@ =~= binding_label(b.address, b.space.name@));
                    let i = add_graph_node(&mut graph, DagNode { label, expr: None });
                    node_map.push((b.space.name.clone(), i));
                    assert(node_map@.drop_last() =~= before);
                },
                _ => {},
            }
            k = k + 1;
        }
        let ghost start = declared_upto(sv, n);
        let mut k: usize = 0;
        while k < block.statements.len()
            invariant
                k <= block.statements.len(),
                sv == statements_view(block.statements@),
                n == block.statements.len(),
                2 * n + reads_upto(sv, n) < u32::MAX,
                graph_nodes(graph).len() <= n + k,
                graph_edges(graph).len() <= reads_upto(sv, k as int),
                forall|q: int| 0 <= q < graph_edges(graph).len() ==> (#[trigger] graph_edges(graph)[q]).0 < graph_nodes(graph).len()
                    && graph_edges(graph)[q].1 < graph_nodes(graph).len(),
                forall|m: Seq<char>| #[trigger] map_view(node_map@).contains_key(m) ==> map_view(node_map@)[m] < graph_nodes(graph).len(),
                (DagV { nodes: graph_nodes(graph), edges: graph_edges(graph), map: map_view(node_map@) })
                    == connected_upto(start, sv, k as int),
            decreases block.statements.len() - k,
        {
            assert(sv[k as int] == block.statements@[k as int]@);
            proof {
                lemma_reads_mono(sv, k as int + 1);
            }
            let (src, label, kind): (&Expr, String, &str) = match &block.statements[k] {
                Statement::Flow { src, target } => (
                    src,
                    match target {
                        FlowTarget::Var(t) => t.clone(),
                        FlowTarget::Equilibrium => {
                            let l = String::from_str("EQUILIBRIUM(=)");
                            l
                        },
                    },
                    "flow",
                ),
                Statement::Iterate { src, target } => (src, target.clone(), "iterate"),
                _ => {
                    k = k + 1;
                    continue;
                },
            };
            let ghost st = DagV { nodes: graph_nodes(graph), edges: graph_edges(graph), map: map_view(node_map@) };
            let to = match node_of(&node_map, label.as_str()) {
                Some(t) => t,
                None => {
                    let ghost before = node_map@;
                    let i = add_graph_node(&mut graph, DagNode { label: label.clone(), expr: Some(copy_expr(src)) });
                    node_map.push((label, i));
                    assert(node_map@.drop_last() =~= before);
                    i
                },
            };
            let ghost grown = DagV { nodes: graph_nodes(graph), edges: graph_edges(graph), map: map_view(node_map@) };
            let deps = extract_dependencies(src);
            let ghost dv = crate::tla::names_of(deps@);
            let ghost edges_start = graph_edges(graph);
            proof {
                lemma_edges_from_len(grown.map, dv, to as nat, kind@);
                assert(dv.subrange(0, 0) =~= Seq::<Seq<char>>::empty());
                assert(edges_start + Seq::<(nat, nat, Seq<char>)>::empty() =~= edges_start);
            }
            let mut q: usize = 0;
            while q < deps.len()
                invariant
                    q <= deps.len(),
                    dv == crate::tla::names_of(deps@),
                    map_view(node_map@) == grown.map,
                    graph_nodes(graph) == grown.nodes,
                    graph_nodes(graph).len() < u32::MAX,
                    to < graph_nodes(graph).len(),
                    edges_start.len() + dv.len() < u32::MAX,
                    graph_edges(graph) == edges_start + edges_from(grown.map, dv.subrange(0, q as int), to as nat, kind@),
                    forall|m: Seq<char>| #[trigger] grown.map.contains_key(m) ==> grown.map[m] < graph_nodes(graph).len(),
                    forall|e: int| 0 <= e < graph_edges(graph).len() ==> (#[trigger] graph_edges(graph)[e]).0 < graph_nodes(graph).len()
                        && graph_edges(graph)[e].1 < graph_nodes(graph).len(),
                decreases deps.len() - q,
            {
                let ghost pre = dv.subrange(0, q as int);
                assert(dv.subrange(0, q as int + 1).drop_last() =~= pre);
                assert(deps@[q as int]@ == dv[q as int]);
                proof {
                    lemma_edges_from_len(grown.map, pre, to as nat, kind@);
                }
                match node_of(&node_map, deps[q].as_str()) {
                    Some(from) => {
                        add_graph_edge(&mut graph, from, to, String::from_str(kind));
                    },
                    None => {},
                }
                q = q + 1;
                assert(graph_edges(graph) =~= edges_start + edges_from(grown.map, dv.subrange(0, q as int), to as nat, kind@));
            }
            assert(dv.subrange(0, deps.len() as int) =~= dv);
            k = k + 1;
        }
        Ok(RhoDag { graph, node_map })
    }
}

/// The nodes with an edge into `node`, the most recently added first.
pub open spec fn incoming(edges: Seq<(nat, nat, Seq<char>)>, node: nat) -> Seq<nat>
    decreases edges.len(),
{
    if edges.len() == 0 {
        Seq::empty()
    } else {
        let rest = incoming(edges.drop_last(), node);
        if edges.last().1 == node {
            seq![edges.last().0] + rest
        } else {
            rest
        }
    }
}

/// `Graph::neighbors_directed` with `Incoming`: for a directed graph, the
/// nodes of the edges into `node`, most recently added first, one per edge
/// (a loop on `node` included); each given by `NodeIndex::index`.
#[verifier::external_body]
fn incoming_nodes(g: &DiGraph<DagNode, String>, node: usize) -> (r: Vec<usize>)
    requires
        node < graph_nodes(*g).len(),
        graph_nodes(*g).len() < u32::MAX,
    ensures
        r@.map_values(|i: usize| i as nat) == incoming(graph_edges(*g), node as nat),
{
    g.neighbors_directed(NodeIndex::new(node), petgraph::Direction::Incoming).map(|i| i.index()).collect()
}

/// How many nodes are not yet seen.
pub open spec fn unseen(seen: Seq<bool>) -> nat
    decreases seen.len(),
{
    if seen.len() == 0 {
        0
    } else {
        unseen(seen.drop_last()) + if seen.last() {
            0nat
        } else {
            1nat
        }
    }
}

/// The audit walk from `node` at `depth`: the node, then, unless it was
/// seen before, the walk from each node with an edge into it. Each step is
/// a node, its depth, and whether it had been seen.
pub open spec fn walk(edges: Seq<(nat, nat, Seq<char>)>, node: nat, depth: nat, seen: Seq<bool>, fuel: nat) -> (
    Seq<(nat, nat, bool)>,
    Seq<bool>,
)
    decreases fuel, 0nat, 0nat,
{
    if seen[node as int] {
        (seq![(node, depth, true)], seen)
    } else if fuel == 0 {
        (Seq::empty(), seen)
    } else {
        let parents = incoming(edges, node);
        let rest = walk_list(edges, parents, 0, depth + 1, seen.update(node as int, true), (fuel - 1) as nat);
        (seq![(node, depth, false)] + rest.0, rest.1)
    }
}

pub open spec fn walk_list(
    edges: Seq<(nat, nat, Seq<char>)>,
    parents: Seq<nat>,
    k: nat,
    depth: nat,
    seen: Seq<bool>,
    fuel: nat,
) -> (Seq<(nat, nat, bool)>, Seq<bool>)
    decreases fuel, 1nat, parents.len() - k,
{
    if k >= parents.len() {
        (Seq::empty(), seen)
    } else {
        let first = walk(edges, parents[k as int], depth, seen, fuel);
        let rest = walk_list(edges, parents, k + 1, depth, first.1, fuel);
        (first.0 + rest.0, rest.1)
    }
}

proof fn lemma_unseen_update(seen: Seq<bool>, i: int)
    requires
        0 <= i < seen.len(),
        !seen[i],
    ensures
        unseen(seen.update(i, true)) + 1 == unseen(seen),
        unseen(seen) > 0,
    decreases seen.len(),
{
    let u = seen.update(i, true);
    if i < seen.len() - 1 {
        assert(u.drop_last() =~= seen.drop_last().update(i, true));
        lemma_unseen_update(seen.drop_last(), i);
    } else {
        assert(u.drop_last() =~= seen.drop_last());
    }
}

proof fn lemma_unseen_grows(a: Seq<bool>, b: Seq<bool>)
    requires
        a.len() == b.len(),
        forall|q: int| 0 <= q < a.len() && #[trigger] a[q] ==> b[q],
    ensures
        unseen(b) <= unseen(a),
    decreases a.len(),
{
    if a.len() > 0 {
        lemma_unseen_grows(a.drop_last(), b.drop_last());
    }
}

/// The walk from `node`, appended to `out`, marking what it sees.
fn trace_from(
    g: &DiGraph<DagNode, String>,
    node: usize,
    depth: usize,
    seen: &mut Vec<bool>,
    out: &mut Vec<(usize, usize, bool)>,
    Ghost(fuel): Ghost<nat>,
)
    requires
        graph_nodes(*g).len() < u32::MAX,
        edges_within(graph_edges(*g), graph_nodes(*g).len()),
        node < graph_nodes(*g).len(),
        old(seen).len() == graph_nodes(*g).len(),
        unseen(old(seen)@) <= fuel,
        depth + fuel <= graph_nodes(*g).len(),
    ensures
        final(seen).len() == old(seen).len(),
        forall|q: int| 0 <= q < old(seen).len() && #[trigger] old(seen)@[q] ==> final(seen)@[q],
        steps_view(final(out)@) == steps_view(old(out)@) + walk(graph_edges(*g), node as nat, depth as nat, old(seen)@, fuel).0,
        final(seen)@ == walk(graph_edges(*g), node as nat, depth as nat, old(seen)@, fuel).1,
    decreases fuel, 0nat,
{
    let ghost edges = graph_edges(*g);
    let ghost start = steps_view(out@);
    if seen[node] {
        out.push((node, depth, true));
        assert(steps_view(out@) =~= start + seq![(node as nat, depth as nat, true)]);
        return;
    }
    proof {
        lemma_unseen_update(seen@, node as int);
    }
    seen.set(node, true);
    out.push((node, depth, false));
    let ghost after_node = steps_view(out@);
    assert(after_node =~= start + seq![(node as nat, depth as nat, false)]);
    let parents = incoming_nodes(g, node);
    let ghost pv = parents@.map_values(|i: usize| i as nat);
    let ghost seen1 = seen@;
    let ghost f1 = (fuel - 1) as nat;
    proof {
        assert forall|q: int| 0 <= q < pv.len() implies #[trigger] pv[q] < graph_nodes(*g).len() by {
            lemma_incoming_bound(edges, node as nat, graph_nodes(*g).len());
        }
        assert(steps_view(out@) + Seq::<(nat, nat, bool)>::empty() =~= steps_view(out@));
    }
    let mut k: usize = 0;
    while k < parents.len()
        invariant
            k <= parents.len(),
            pv == parents@.map_values(|i: usize| i as nat),
            pv == incoming(edges, node as nat),
            edges == graph_edges(*g),
            graph_nodes(*g).len() < u32::MAX,
            edges_within(graph_edges(*g), graph_nodes(*g).len()),
            f1 + 1 == fuel,
            forall|q: int| 0 <= q < pv.len() ==> #[trigger] pv[q] < graph_nodes(*g).len(),
            seen.len() == graph_nodes(*g).len(),
            seen1.len() == graph_nodes(*g).len(),
            old(seen).len() == graph_nodes(*g).len(),
            forall|q: int| 0 <= q < seen1.len() && #[trigger] seen1[q] ==> seen@[q],
            forall|q: int| 0 <= q < old(seen).len() && #[trigger] old(seen)@[q] ==> seen@[q],
            unseen(seen@) <= f1,
            depth + 1 + f1 <= graph_nodes(*g).len(),
            walk_list(edges, pv, 0, (depth + 1) as nat, seen1, f1) == (
                steps_view(out@).subrange(after_node.len() as int, steps_view(out@).len() as int)
                    + walk_list(edges, pv, k as nat, (depth + 1) as nat, seen@, f1).0,
                walk_list(edges, pv, k as nat, (depth + 1) as nat, seen@, f1).1,
            ),
            steps_view(out@).subrange(0, after_node.len() as int) == after_node,
            after_node.len() <= steps_view(out@).len(),
        decreases parents.len() - k,
    {
        let ghost before_out = steps_view(out@);
        let ghost before_seen = seen@;
        assert(pv[k as int] == parents@[k as int] as nat);
        trace_from(g, parents[k], depth + 1, seen, out, Ghost(f1));
        proof {
            lemma_unseen_grows(before_seen, seen@);
            assert forall|q: int| 0 <= q < seen1.len() && #[trigger] seen1[q] implies seen@[q] by {
                assert(before_seen[q]);
            }
            assert forall|q: int| 0 <= q < old(seen).len() && #[trigger] old(seen)@[q] implies seen@[q] by {
                assert(before_seen[q]);
            }
            let first = walk(edges, pv[k as int], (depth + 1) as nat, before_seen, f1);
            assert(steps_view(out@) == before_out + first.0);
            assert(steps_view(out@).subrange(after_node.len() as int, steps_view(out@).len() as int) =~= before_out.subrange(
                after_node.len() as int,
                before_out.len() as int,
            ) + first.0);
            assert(steps_view(out@).subrange(0, after_node.len() as int) =~= before_out.subrange(0, after_node.len() as int));
        }
        k = k + 1;
    }
    proof {
        assert(steps_view(out@) =~= after_node + steps_view(out@).subrange(after_node.len() as int, steps_view(out@).len() as int));
        assert(steps_view(out@) =~= start + (seq![(node as nat, depth as nat, false)] + steps_view(out@).subrange(
            after_node.len() as int,
            steps_view(out@).len() as int,
        )));
    }
}

proof fn lemma_incoming_bound(edges: Seq<(nat, nat, Seq<char>)>, node: nat, n: nat)
    requires
        edges_within(edges, n),
    ensures
        forall|q: int| 0 <= q < incoming(edges, node).len() ==> #[trigger] incoming(edges, node)[q] < n,
    decreases edges.len(),
{
    if edges.len() > 0 {
        let front = edges.drop_last();
        assert forall|q: int| 0 <= q < front.len() implies (#[trigger] front[q]).0 < n && front[q].1 < n by {
            assert(front[q] == edges[q]);
        }
        lemma_incoming_bound(front, node, n);
        let rest = incoming(front, node);
        if edges.last().1 == node {
            assert forall|q: int| 0 <= q < incoming(edges, node).len() implies #[trigger] incoming(edges, node)[q] < n by {
                if q > 0 {
                    assert(incoming(edges, node)[q] == rest[q - 1]);
                }
            }
        }
    }
}

pub open spec fn steps_view(v: Seq<(usize, usize, bool)>) -> Seq<(nat, nat, bool)> {
    v.map_values(|t: (usize, usize, bool)| (t.0 as nat, t.1 as nat, t.2))
}

pub open spec fn no_node_seen(n: nat) -> Seq<bool> {
    Seq::new(n, |i: int| false)
}

impl RhoDag {
    /// The audit walk from the equilibrium node back through whatever
    /// feeds it: each step is a node, its depth, and whether the walk had
    /// been there before (a loop feeding on itself). `None` when the
    /// program has no equilibrium.
    pub fn audit_walk(&self) -> (r: Option<Vec<(usize, usize, bool)>>)
        requires
            dag_wf(self.view_of()),
        ensures
            match r {
                None => !self.view_of().map.contains_key(equilibrium_label()),
                Some(w) => self.view_of().map.contains_key(equilibrium_label()) && steps_view(w@) == walk(
                    self.view_of().edges,
                    self.view_of().map[equilibrium_label()],
                    0,
                    no_node_seen(self.view_of().nodes.len()),
                    self.view_of().nodes.len(),
                ).0,
            },
    {
        let eq = match node_of(&self.node_map, "EQUILIBRIUM(=)") {
            Some(i) => i,
            None => return None,
        };
        proof {
            assert(map_view(self.node_map@) == self.view_of().map);
            assert(self.view_of().map.contains_key(equilibrium_label()));
            assert(eq < graph_nodes(self.graph).len());
        }
        let n = self.node_count();
        let mut seen: Vec<bool> = Vec::new();
        let mut q: usize = 0;
        while q < n
            invariant
                q <= n,
                n == graph_nodes(self.graph).len(),
                seen@ == no_node_seen(q as nat),
                unseen(seen@) == q,
            decreases n - q,
        {
            proof {
                assert(seen@.push(false).drop_last() =~= seen@);
            }
            seen.push(false);
            assert(seen@ =~= no_node_seen(q as nat + 1));
            q = q + 1;
        }
        let mut out: Vec<(usize, usize, bool)> = Vec::new();
        proof {
            assert(steps_view(out@) + walk(graph_edges(self.graph), eq as nat, 0, seen@, n as nat).0 =~= walk(
                graph_edges(self.graph),
                eq as nat,
                0,
                seen@,
                n as nat,
            ).0);
        }
        trace_from(&self.graph, eq, 0, &mut seen, &mut out, Ghost(n as nat));
        Some(out)
    }

    /// How many nodes the graph has.
    pub fn node_count(&self) -> (r: usize)
        ensures
            r == graph_nodes(self.graph).len(),
    {
        graph_node_count(&self.graph)
    }
}

/// `Graph::node_count`: how many nodes were added.
#[verifier::external_body]
fn graph_node_count(g: &DiGraph<DagNode, String>) -> (r: usize)
    ensures
        r == graph_nodes(*g).len(),
{
    g.node_count()
}

} // verus!
