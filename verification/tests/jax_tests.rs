use rho_lang::ast::{BinaryOpKind, Expr, ShapeTable, ShiftDir};
use rho_lang::error::HarmonyDisruption;
use rho_lang::jax::{emit, lower, PyLiterals};
use rho_lang::numeric::Precision;
use rho_lang::parser::parse_rho_program;

fn var(name: &str) -> Box<Expr> {
    Box::new(Expr::Var(name.to_string()))
}

fn number(text: &str) -> Box<Expr> {
    Box::new(Expr::Number(text.to_string()))
}

fn table() -> ShapeTable {
    let mut t = ShapeTable::new();
    t.insert(&"A".to_string(), &[3, 4]);
    t.insert(&"B".to_string(), &[2, 3, 4]);
    t
}

fn spelled() -> PyLiterals {
    let mut p = PyLiterals::new();
    p.insert("1.0", "1.0");
    p.insert("3", "3.0");
    p
}

fn jax(e: &Expr) -> Result<String, HarmonyDisruption> {
    lower(e, 5, &table(), &"0.5".to_string(), &spelled())
}

#[test]
fn a_sum_adds_the_spelled_literal() {
    let e = Expr::BinaryOp { op: BinaryOpKind::Add, lhs: var("A"), rhs: number("1.0") };
    assert_eq!(jax(&e).unwrap(), "(A + _c(1.0))");
}

#[test]
fn a_whole_power_is_repeated_products_in_python() {
    let e = Expr::BinaryOp { op: BinaryOpKind::Pow, lhs: var("A"), rhs: number("3") };
    assert_eq!(jax(&e).unwrap(), "_ipow(A, 3)");
}

#[test]
fn a_comparison_masks_its_left_operand() {
    let e = Expr::BinaryOp { op: BinaryOpKind::Gt, lhs: var("A"), rhs: var("τ") };
    assert_eq!(jax(&e).unwrap(), "_mask(A > _c(0.5), A)");
}

#[test]
fn axis_operations_name_their_axis() {
    let shift = Expr::Shift { dir: ShiftDir::Positive, axis: Some(1), operand: var("A") };
    assert_eq!(jax(&shift).unwrap(), "_prev(A, 1)");
    let turn = Expr::Rotate { by: 2, axis: Some(0), operand: var("A") };
    assert_eq!(jax(&turn).unwrap(), "jnp.roll(A, -2, axis=0)");
    let back = Expr::Rotate { by: -1, axis: Some(0), operand: var("A") };
    assert_eq!(jax(&back).unwrap(), "jnp.roll(A, 1, axis=0)");
    let take = Expr::Take { count: -2, axis: Some(1), operand: var("A") };
    assert_eq!(jax(&take).unwrap(), "_take(A, 1, -2)");
}

#[test]
fn a_transpose_gives_numpy_the_inverse_axes() {
    let swap = Expr::Transpose { axes: Some(vec![1, 0]), operand: var("A") };
    assert_eq!(jax(&swap).unwrap(), "jnp.transpose(A, axes=(1, 0,))");
    let turn = Expr::Transpose { axes: Some(vec![1, 2, 0]), operand: var("B") };
    assert_eq!(jax(&turn).unwrap(), "jnp.transpose(B, axes=(2, 0, 1,))");
    let bad = Expr::Transpose { axes: Some(vec![0, 0]), operand: var("A") };
    assert_eq!(
        jax(&bad),
        Err(HarmonyDisruption::LoweringErr {
            detail: "a transpose that is not a permutation of the axes is not in the JAX subset (--emit-jax)".to_string(),
            line: 5,
        })
    );
}

#[test]
fn what_python_cannot_spell_is_refused() {
    assert_eq!(
        jax(&Expr::Number("2.5".to_string())),
        Err(HarmonyDisruption::LoweringErr { detail: "no Python spelling was given for the literal `2.5`".to_string(), line: 5 })
    );
    let shapeless = Expr::Reverse { axis: None, operand: number("1.0") };
    assert_eq!(
        jax(&shapeless),
        Err(HarmonyDisruption::LoweringErr {
            detail: "an expression with no shape is not in the JAX subset (--emit-jax)".to_string(),
            line: 5,
        })
    );
}

fn module(source: &str, cap: Option<usize>) -> Result<String, HarmonyDisruption> {
    let block = parse_rho_program(source).unwrap();
    emit(&block, &"0.001".to_string(), cap, Precision::F64, &spelled())
}

#[test]
fn a_module_defines_rho_over_its_declared_spaces() {
    let py = module("{\n    INPUT:◯ □ 4\n    (INPUT + 1.0) → OUTPUT\n    OUTPUT → =\n}", None).unwrap();
    assert!(py.starts_with("# ρ program as JAX. Generated by rhoc --emit-jax; the source is at the end.\nimport jax\nimport jax.numpy as jnp\nfrom jax import lax\njax.config.update('jax_enable_x64', True)\n\nDTYPE = jnp.float64\nSHAPES = {\n    \"INPUT\": (4,),\n}\n\n\ndef _c(v):\n"));
    assert!(py.contains("def rho(INPUT):\n    \"\"\"The program over its declared spaces, as jax arrays of DTYPE.\"\"\"\n    INPUT = jnp.asarray(INPUT, dtype=DTYPE).reshape((4,))\n    sweeps = 0\n    converged = True\n    OUTPUT = (INPUT + _c(1.0))\n    OUTPUT = OUTPUT\n    return {\n        \"OUTPUT\": OUTPUT,\n"), "{py}");
    assert!(py.ends_with("        'rho_sweeps': sweeps,\n        'rho_converged': converged,\n    }\n\nrho_jit = jax.jit(rho)\n\nINPUTS = [\"INPUT\"]\nOUTPUT = 'OUTPUT'\n"));
}

#[test]
fn a_program_that_iterates_needs_a_sweep_cap() {
    let source = "{\n    INPUT:◯ □ 4\n    INPUT → A\n    (A + 1.0) ⇒ A\n    A → =\n}";
    assert_eq!(
        module(source, None),
        Err(HarmonyDisruption::LoweringErr {
            detail: "this program iterates (⇒); say how many sweeps it may take with --max-iter".to_string(),
            line: 4,
        })
    );
    let py = module(source, Some(10)).unwrap();
    assert!(py.contains("    def _round1(state):\n        A, _k, _settled = state\n        _old = A\n        A = (A + _c(1.0))\n        _moved = jnp.max(jnp.abs(A - _old))\n        _settled = _moved <= _c(0.001)\n        return (A, _k + 1, _settled)\n"), "{py}");
    assert!(py.contains("        return jnp.logical_and(_k < 10, jnp.logical_not(_settled))\n"));
    assert!(py.contains("    A, = _state1[:1]\n    sweeps = sweeps + _state1[-2]\n    converged = jnp.logical_and(converged, _state1[-2] < 10)\n"));
}

#[test]
fn a_bound_space_is_an_argument_with_a_note() {
    let py = module("{\n    &[0x7A4F]:INPUT:◯ □ 4\n    (INPUT + 1.0) → OUTPUT\n    OUTPUT → =\n}", None).unwrap();
    assert!(py.contains("# INPUT is bound to address 0x7a4f for the compiled kernel; here it is an argument.\n"));
}
