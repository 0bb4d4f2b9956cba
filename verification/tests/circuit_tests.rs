use rho_lang::ast::{BinaryOpKind, Expr, FlowTarget, FoldOp, SpaceDecl, Statement, ToposBlock};
use rho_lang::error::HarmonyDisruption;
use rho_lang::parser::parse_rho_program;
use rho_lang::sv::{emit, NumberBits};

fn program(body: &str) -> ToposBlock {
    parse_rho_program(&format!("{{\n{body}\n}}")).unwrap()
}

fn block_of(statements: Vec<Statement>) -> ToposBlock {
    let n = statements.len();
    ToposBlock { statements, lines: (1..=n).collect(), origins: vec![None; n] }
}

fn input(name: &str, dims: Vec<usize>) -> Statement {
    Statement::SpaceDef(SpaceDecl { name: name.to_string(), dimensions: dims })
}

fn var(name: &str) -> Box<Expr> {
    Box::new(Expr::Var(name.to_string()))
}

#[test]
fn a_shift_is_a_tap_one_cell_along_the_delay_line() {
    let block = program("INPUT:◯ □ 4\n(▷INPUT) → OUTPUT\nOUTPUT → =");
    let circuit = emit(&block, 0, &NumberBits::new()).unwrap();
    assert_eq!(circuit.latency, 6);
    assert_eq!(circuit.output_cells, 4);
    assert_eq!(circuit.inputs, vec![("INPUT".to_string(), 4)]);
    let m = &circuit.module;
    assert!(m.starts_with("// ρ kernel as a streaming pipeline"));
    assert!(m.contains("  input  real  in_INPUT,\n"));
    assert!(m.contains("  // ---- stage 0: -> OUTPUT (shape [4]), latency 4\n"));
    assert!(m.contains("  real c0_INPUT [0:2];  // INPUT delayed for this stage; centre tap 1\n"));
    assert!(m.contains("    for (int i = 1; i < 3; i++) c0_INPUT[i] <= c0_INPUT[i - 1];\n"));
    assert!(m.contains("    here = cyc - 3;\n"));
    assert!(m.contains("    pos[0] = (here < 0) ? 0 : ((here / 1) % 4);\n"));
    assert!(m.contains("    st0_OUTPUT <= ((pos[0] == 0) ? $bitstoreal(64'h0000000000000000) : c0_INPUT[2]);\n"));
    assert!(m.contains("    st1_OUTPUT <= c1_OUTPUT[0];\n"));
    assert!(m.contains("  assign out_OUTPUT = st1_OUTPUT;\n"));
    assert!(m.ends_with("  assign out_valid = (cyc >= 6) && (cyc < 10);\nendmodule\n"));
    let h = &circuit.harness;
    assert!(h.contains("  std::vector<double> in(4);\n"));
    assert!(h.contains("  for (long t = 0; out.size() < 4 && t < 18; t++) {\n"));
    assert!(h.contains("    m.in_INPUT = (t < 4) ? in[0 + t] : 0.0;\n"));
    assert!(h.ends_with("  return out.size() == 4 ? 0 : 5;\n}\n"));
}

#[test]
fn a_literal_is_written_by_the_bits_it_was_given() {
    let block = program("INPUT:◯ □ 2\n(INPUT + 1.0) → OUTPUT\nOUTPUT → =");
    let mut numbers = NumberBits::new();
    numbers.insert("1.0", 1.0f64.to_bits());
    let circuit = emit(&block, 0, &numbers).unwrap();
    assert!(circuit.module.contains("    st0_OUTPUT <= (c0_INPUT[0] + $bitstoreal(64'h3FF0000000000000));\n"));
    match emit(&block, 0, &NumberBits::new()) {
        Err(HarmonyDisruption::LoweringErr { detail, line }) => {
            assert_eq!(detail, "no bits were given for the literal `1.0`");
            assert_eq!(line, 3);
        }
        other => panic!("unexpected {other:?}"),
    }
}

#[test]
fn a_whole_power_is_repeated_products() {
    let block = block_of(vec![
        input("A", vec![3]),
        Statement::Flow {
            src: Expr::BinaryOp { op: BinaryOpKind::Pow, lhs: var("A"), rhs: Box::new(Expr::Number("2".to_string())) },
            target: FlowTarget::Equilibrium,
        },
    ]);
    let mut numbers = NumberBits::new();
    numbers.insert("2", 2.0f64.to_bits());
    let circuit = emit(&block, 0, &numbers).unwrap();
    assert!(circuit.module.contains(
        "    st0_OUTPUT <= (($bitstoreal(64'h3FF0000000000000) * c0_A[0]) * c0_A[0]);\n"
    ));
    assert_eq!(circuit.latency, 3);
}

#[test]
fn what_the_circuit_cannot_hold_is_refused_by_name() {
    let fold = block_of(vec![
        input("A", vec![3]),
        Statement::Flow {
            src: Expr::Reduce { op: FoldOp::Sum, axis: None, operand: var("A") },
            target: FlowTarget::Equilibrium,
        },
    ]);
    match emit(&fold, 0, &NumberBits::new()) {
        Err(HarmonyDisruption::LoweringErr { detail, line }) => {
            assert_eq!(detail, "a fold or scan is not yet in the SystemVerilog subset (--emit-sv)");
            assert_eq!(line, 2);
        }
        other => panic!("unexpected {other:?}"),
    }
    let nothing_out = block_of(vec![input("A", vec![3])]);
    match emit(&nothing_out, 0, &NumberBits::new()) {
        Err(HarmonyDisruption::LoweringErr { detail, line }) => {
            assert_eq!(detail, "a program with no `→ =` is not yet in the SystemVerilog subset (--emit-sv)");
            assert_eq!(line, 0);
        }
        other => panic!("unexpected {other:?}"),
    }
    let unwritten = block_of(vec![
        input("A", vec![3]),
        Statement::Flow { src: Expr::Var("B".to_string()), target: FlowTarget::Equilibrium },
    ]);
    match emit(&unwritten, 0, &NumberBits::new()) {
        Err(HarmonyDisruption::LoweringErr { detail, .. }) => {
            assert_eq!(detail, "a flow with no shape is not yet in the SystemVerilog subset (--emit-sv)");
        }
        other => panic!("unexpected {other:?}"),
    }
}

#[test]
fn a_broadcast_is_not_a_stage() {
    let block = block_of(vec![
        input("A", vec![3]),
        input("B", vec![1]),
        Statement::Flow {
            src: Expr::BinaryOp { op: BinaryOpKind::Add, lhs: var("A"), rhs: var("B") },
            target: FlowTarget::Equilibrium,
        },
    ]);
    match emit(&block, 0, &NumberBits::new()) {
        Err(HarmonyDisruption::LoweringErr { detail, line }) => {
            assert_eq!(
                detail,
                "a broadcast (`B` is Some([1]), the flow [3]) is not yet in the SystemVerilog subset (--emit-sv)"
            );
            assert_eq!(line, 3);
        }
        other => panic!("unexpected {other:?}"),
    }
}

#[test]
fn the_threshold_is_written_by_its_bits() {
    let block = block_of(vec![
        input("A", vec![2]),
        Statement::Flow {
            src: Expr::BinaryOp { op: BinaryOpKind::Max, lhs: var("A"), rhs: var("τ") },
            target: FlowTarget::Equilibrium,
        },
    ]);
    let circuit = emit(&block, 0.5f64.to_bits(), &NumberBits::new()).unwrap();
    assert!(circuit.module.contains("    st0_OUTPUT <= rho_extreme(c0_A[0], $bitstoreal(64'h3FE0000000000000), 1'b1);\n"));
}
