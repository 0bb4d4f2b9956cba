use rho_lang::ast::{BinaryOpKind, Expr, FlowTarget, Statement};
use rho_lang::circuit::ident;
use rho_lang::cli::name_file;
use rho_lang::dag::{extract_dependencies, RhoDag};
use rho_lang::expansion::{expand, Domain, Sym};
use rho_lang::fusion::fuse;
use rho_lang::llvm_mode::{compare_predicate, sanitize_ident, Mode, Sweep, VectorShiftEngine};
use rho_lang::numeric::Precision;
use rho_lang::parser::{parse_expr, parse_rho_program};
use rho_lang::python::{py_name, py_tuple};
use rho_lang::symbolic::{offset_tag, op_string, Cmp};
use rho_lang::tla::generate_tla_spec;

fn program(body: &str) -> rho_lang::ast::ToposBlock {
    parse_rho_program(&format!("{{\n{body}\n}}")).unwrap()
}

fn free_name(s: &Sym) -> String {
    match s {
        Sym::Free(n) => n.clone(),
        _ => panic!("not a free value"),
    }
}

#[test]
fn an_intermediate_read_once_folds_into_its_reader() {
    let block = program("INPUT:◯ □ 4 1\n(INPUT + 1.0) → A\n(A × 2.0) → OUTPUT\nOUTPUT → =");
    let (fused_block, names) = fuse(&block);
    assert_eq!(names, vec!["A".to_string()]);
    assert_eq!(fused_block.statements.len(), block.statements.len());
    assert_eq!(fused_block.lines, block.lines);
    match &fused_block.statements[2] {
        Statement::Flow { src: Expr::BinaryOp { op: BinaryOpKind::Mul, lhs, .. }, target: FlowTarget::Var(t) } => {
            assert_eq!(t, "OUTPUT");
            assert!(matches!(**lhs, Expr::BinaryOp { op: BinaryOpKind::Add, .. }));
        }
        other => panic!("unexpected statement {other:?}"),
    }
    // The intermediate's own flow stays, so the space is still written.
    assert_eq!(fused_block.statements[1], block.statements[1]);
}

#[test]
fn an_intermediate_read_twice_or_by_place_stays() {
    let twice = program("INPUT:◯ □ 4 1\n(INPUT + 1.0) → A\n(A × 2.0) → B\n(A + B) → OUTPUT\nOUTPUT → =");
    let (_, names) = fuse(&twice);
    assert!(!names.contains(&"A".to_string()));
    let shifted = program("INPUT:◯ □ 4 1\n(INPUT + 1.0) → A\n(▷A) → OUTPUT\nOUTPUT → =");
    let (same, names) = fuse(&shifted);
    assert!(names.is_empty());
    assert_eq!(same.statements, shifted.statements);
}

#[test]
fn the_tla_module_names_every_space_once() {
    let block = program("INPUT:◯ □ 4 1\n(INPUT + 1.0) → A\n(A × A) → A\nA → OUTPUT\nOUTPUT → =");
    let text = generate_tla_spec("rho_harmony", &block);
    let expected = [
        "---------------- MODULE rho_harmony ----------------",
        "EXTENDS Naturals, Sequences, FiniteSets, TLC",
        "",
        "VARIABLES INPUT, A, OUTPUT",
        "",
        "Init ==",
        "  /\\ INPUT = [i \\in 1..10 |-> 0] /\\",
        "  /\\ A = [i \\in 1..10 |-> 0] /\\",
        "  /\\ OUTPUT = [i \\in 1..10 |-> 0]",
        "",
        "\\* ShiftRight (▷): Shift elements right by 1 cell, fill left boundary with 0",
        "ShiftRight(seq) == [i \\in 1..Len(seq) |-> IF i = 1 THEN 0 ELSE seq[i-1]]",
        "",
        "\\* ShiftLeft (▽): Shift elements left by 1 cell, fill right boundary with 0",
        "ShiftLeft(seq) == [i \\in 1..Len(seq) |-> IF i = Len(seq) THEN 0 ELSE seq[i+1]]",
        "",
        "Next ==",
        "  /\\ UNCHANGED <<INPUT, A, OUTPUT>>",
        "",
        "Spec == Init /\\ [][Next]_<<INPUT, A, OUTPUT>>",
        "",
        "====================================================",
        "",
    ]
    .join("\n");
    assert_eq!(text, expected);
}

#[test]
fn the_dependency_graph_walks_back_from_the_equilibrium() {
    let block = program("&[0x7A4F]:INPUT:◯ □ 4 1\n(INPUT + 1.0) → A\n(A × A) → OUTPUT\nOUTPUT → =");
    let dag = RhoDag::build(&block).unwrap();
    assert_eq!(dag.node_count(), 4);
    assert_eq!(dag.graph[petgraph::graph::NodeIndex::new(0)].label, "&[0x7A4F]:INPUT");
    assert_eq!(dag.graph[petgraph::graph::NodeIndex::new(3)].label, "EQUILIBRIUM(=)");
    assert_eq!(dag.graph.edge_count(), 4);
    let walk = dag.audit_walk().unwrap();
    assert_eq!(walk, vec![(3, 0, false), (2, 1, false), (1, 2, false), (0, 3, false), (1, 2, true)]);
}

#[test]
fn a_program_without_an_equilibrium_has_no_walk() {
    let block = RhoDag::build(&rho_lang::ast::ToposBlock { statements: vec![], lines: vec![], origins: vec![] }).unwrap();
    assert!(block.audit_walk().is_none());
    assert_eq!(block.node_count(), 0);
}

#[test]
fn dependencies_skip_the_threshold() {
    let e = parse_expr("((A + 𝜏) × B)").unwrap();
    assert_eq!(extract_dependencies(&e), vec!["A".to_string(), "B".to_string()]);
}

#[test]
fn a_constraint_reads_through_earlier_flows() {
    let block = program("INPUT:◯ □ 4 1\n(INPUT / (INPUT + 1.0)) → OUTPUT\n! (OUTPUT >= 0)\nOUTPUT → =");
    let x = expand(&block);
    assert_eq!(x.divisions.len(), 1);
    match &x.divisions[0].1 {
        Sym::Add(a, b) => {
            assert_eq!(free_name(a), "INPUT@0");
            assert!(matches!(&**b, Sym::Const(t) if t == "1.0"));
        }
        _ => panic!("the denominator is a sum"),
    }
    assert_eq!(x.obligations.len(), 1);
    let ob = &x.obligations[0];
    assert_eq!(ob.cmp, Cmp::Gte);
    assert!(matches!(&ob.lhs, Sym::Div(n, _) if free_name(n) == "INPUT@0"));
    assert!(matches!(&ob.rhs, Sym::Const(t) if t == "0"));
    assert!(matches!(x.output, Some(Sym::Div(..))));
}

#[test]
fn a_repeated_shift_shares_one_boundary_flag() {
    let block = program("INPUT:◯ □ 2 3\n(▷INPUT - INPUT) → GX\n(GX × GX) → OUTPUT\n! (OUTPUT >= 0)\nOUTPUT → =");
    let x = expand(&block);
    let flag_of = |s: &Sym| match s {
        Sym::Sub(a, _) => match &**a {
            Sym::Boundary { flag, interior } => (flag.clone(), free_name(interior)),
            _ => panic!("a shift is a boundary choice"),
        },
        _ => panic!("a difference"),
    };
    match &x.obligations[0].lhs {
        Sym::Mul(a, b) => {
            assert_eq!(flag_of(a), ("edge_o0_s1_e3_p".to_string(), "INPUT@-1".to_string()));
            assert_eq!(flag_of(a), flag_of(b));
        }
        _ => panic!("a product"),
    }
}

#[test]
fn opposite_shifts_keep_distinct_boundaries() {
    let block = program("INPUT:◯ □ 8 1\n(▷INPUT) → A\n(▽INPUT) → B\n(A - B) → OUTPUT\nOUTPUT → =");
    let x = expand(&block);
    match x.output {
        Some(Sym::Sub(a, b)) => match (&*a, &*b) {
            (Sym::Boundary { flag: fa, .. }, Sym::Boundary { flag: fb, .. }) => {
                assert_eq!(fa, "edge_o0_s1_e8_p");
                assert_eq!(fb, "edge_o0_s1_e8_n");
            }
            _ => panic!("two boundaries"),
        },
        _ => panic!("a difference"),
    }
}

#[test]
fn log_and_sqrt_arguments_are_domains() {
    let block = program("INPUT:◯ □ 4 1\n(log INPUT) → A\n(sqrt A) → OUTPUT\nOUTPUT → =");
    let x = expand(&block);
    assert_eq!(x.domains.len(), 2);
    assert_eq!(x.domains[0].2, Domain::Positive);
    assert_eq!(x.domains[0].3, 3);
    assert_eq!(x.domains[1].2, Domain::NonNegative);
    assert!(matches!(&x.domains[1].1, Sym::Named { .. }));
    assert!(x.divisions.is_empty());
}

#[test]
fn names_become_identifiers() {
    assert_eq!(py_name("A·1"), "A_u00b7_1");
    assert_eq!(py_name("1x"), "_1x");
    assert_eq!(py_tuple(&[2, 3]), "(2, 3,)");
    assert_eq!(ident("a·b_c"), "a_b_c");
    assert_eq!(offset_tag(-3), "m3");
    assert_eq!(offset_tag(12), "12");
}

#[test]
fn sweeps_and_modes_spell_their_types() {
    assert_eq!(Sweep::AllScalar.describe(), " (scalar)");
    let split = Sweep::Split { vector_start: 2, vector_end: 10, width: 4, total: 12 };
    assert_eq!(split.describe(), " (scalar 0..2, 4-wide vector 2..10, scalar tail)");
    assert_eq!(Mode::Scalar(Precision::F32).ty(), "float");
    assert_eq!(Mode::Vector(4, Precision::F64).ty(), "<4 x double>");
    assert_eq!(Mode::Vector(4, Precision::F64).lanes(), 4);
    assert_eq!(
        VectorShiftEngine::emit_shift_right_ir("x", 4),
        "  ; Vector Shift Right (▷) for 4 elements (Clockless)\n%x_shifted = call <4 x double> @llvm.rho.shift_right.<4 x double>(<4 x double> %x)\n"
    );
}

#[test]
fn space_file_pairs_split_at_the_first_equals() {
    let items = vec!["A = a.bin".to_string(), "B=b=c".to_string()];
    assert_eq!(
        name_file(&items, "--input"),
        Ok(vec![("A".to_string(), "a.bin".to_string()), ("B".to_string(), "b=c".to_string())])
    );
    assert_eq!(
        name_file(&["Ab".to_string()], "--input"),
        Err("--input expects SPACE=FILE, got 'Ab'".to_string())
    );
}

#[test]
fn a_sweep_keeps_its_vector_window_inside_the_buffer() {
    assert_eq!(Sweep::plan(100, 1, 4).describe(), " (scalar 0..1, 4-wide vector 1..93, scalar tail)");
    assert_eq!(Sweep::plan(6, 1, 4).describe(), " (scalar)");
    assert_eq!(Sweep::plan(2, 0, 4).describe(), " (scalar)");
    assert_eq!(Sweep::plan(8, 0, 4).describe(), " (scalar 0..0, 4-wide vector 0..4, scalar tail)");
}

#[test]
fn identifiers_spell_what_the_ir_cannot() {
    assert_eq!(sanitize_ident("A·1"), "A_u00B71");
    assert_eq!(sanitize_ident("1x"), "s1x");
    assert_eq!(sanitize_ident("_a"), "_a");
    assert_eq!(sanitize_ident("·"), "_u00B7");
    assert_eq!(compare_predicate(&BinaryOpKind::Gte), Some("oge"));
    assert_eq!(compare_predicate(&BinaryOpKind::Eq), Some("oeq"));
    assert_eq!(compare_predicate(&BinaryOpKind::Add), None);
}

#[test]
fn a_whole_exponent_is_decided_by_spelling() {
    use_whole(&parse_expr("3.0").unwrap(), Some(3));
    use_whole(&parse_expr("64").unwrap(), Some(64));
    use_whole(&parse_expr("2.5").unwrap(), None);
    use_whole(&parse_expr("65").unwrap(), None);
    use_whole(&parse_expr("A").unwrap(), None);
}

fn use_whole(e: &Expr, expected: Option<i32>) {
    assert_eq!(rho_lang::ast::whole_exponent(e), expected);
}

#[test]
fn the_line_of_the_first_matching_statement() {
    let block = program("INPUT:◯ □ 4 1\n(INPUT + 1.0) → OUTPUT\n! (OUTPUT >= 0)\nOUTPUT → =");
    assert_eq!(block.line_where(|s| matches!(s, Statement::Constraint(_))), 4);
    assert_eq!(block.line_where(|s| matches!(s, Statement::Iterate { .. })), 0);
}

#[test]
fn a_comparison_reads_as_its_operator() {
    for op in [BinaryOpKind::Gt, BinaryOpKind::Lt, BinaryOpKind::Gte, BinaryOpKind::Lte, BinaryOpKind::Eq] {
        let c = Cmp::from_op(&op).unwrap();
        assert_eq!(c.to_string(), op_string(op));
    }
    assert_eq!(Cmp::from_op(&BinaryOpKind::Gte).unwrap().to_string(), ">=");
    assert_eq!(op_string(BinaryOpKind::Mul), "×");
    assert!(Cmp::from_op(&BinaryOpKind::Add).is_none());
}

#[test]
fn a_transpose_takes_exactly_the_permutations_of_its_axes() {
    assert_eq!(rho_lang::ast::transpose_axes(3, Some(&[2, 0, 1])), Some(vec![2, 0, 1]));
    assert_eq!(rho_lang::ast::transpose_axes(3, None), Some(vec![2, 1, 0]));
    assert_eq!(rho_lang::ast::transpose_axes(2, Some(&[0, 0])), None);
    assert_eq!(rho_lang::ast::transpose_axes(2, Some(&[0, 2])), None);
    assert_eq!(rho_lang::ast::transpose_axes(2, Some(&[1])), None);
}

#[test]
fn a_transpose_reads_each_source_cell_once() {
    assert_eq!(rho_lang::ast::transposed_source(&[3, 4], &[1, 0], 5), 9);
    let shape = [2usize, 3, 4];
    let perm = [2usize, 0, 1];
    let mut seen = vec![false; 24];
    for r in 0..24usize {
        let i = rho_lang::ast::transposed_source(&shape, &perm, r);
        assert!(i < 24);
        assert!(!seen[i]);
        seen[i] = true;
    }
    assert!(seen.iter().all(|&b| b));
}
