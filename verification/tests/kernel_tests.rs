use rho_lang::ast::{BinaryOpKind, Expr, FlowTarget, FoldOp, ShiftDir, SpaceDecl, Statement, ToposBlock};
use rho_lang::parser::validate_space_declarations;
use rho_lang::error::HarmonyDisruption;
use rho_lang::llvm::{Buffers, LlvmCodeGen};
use rho_lang::llvm_mode::Mode;
use rho_lang::numeric::Precision;
use rho_lang::sv::NumberBits;

fn var(name: &str) -> Box<Expr> {
    Box::new(Expr::Var(name.to_string()))
}

fn number(text: &str) -> Box<Expr> {
    Box::new(Expr::Number(text.to_string()))
}

fn generator(shapes: &[(&str, Vec<usize>)]) -> LlvmCodeGen {
    let mut numbers = NumberBits::new();
    numbers.insert("1.0", 1.0f64.to_bits());
    numbers.insert("3", 3.0f64.to_bits());
    let mut g = LlvmCodeGen::new("kernel").with_numbers(numbers);
    for (name, dims) in shapes {
        g.set_shape(&name.to_string(), dims);
    }
    g.set_elements(4);
    g.set_line(7);
    g
}

fn buffers(names: &[&str]) -> Buffers {
    let mut b = Buffers::new("4");
    for n in names {
        b.place(n, &format!("%{n}"));
    }
    b
}

fn lower(g: &LlvmCodeGen, b: &Buffers, e: &Expr, mode: Mode, result: Vec<usize>) -> (Result<String, HarmonyDisruption>, String, usize) {
    let mut ir = String::new();
    let mut counter = 0usize;
    let r = g.emit_expr(e, &mut ir, b, &"%i".to_string(), &mut counter, mode, &result, &vec![]);
    (r, ir, counter)
}

#[test]
fn a_sum_reads_its_space_and_adds_the_literal() {
    let g = generator(&[("A", vec![4])]);
    let b = buffers(&["A"]);
    let e = Expr::BinaryOp { op: BinaryOpKind::Add, lhs: var("A"), rhs: number("1.0") };
    let (r, ir, counter) = lower(&g, &b, &e, Mode::Scalar(Precision::F64), vec![4]);
    assert_eq!(r.unwrap(), "%v3");
    assert_eq!(counter, 3);
    assert_eq!(
        ir,
        "  %v1 = getelementptr inbounds double, ptr %A, i64 %i\n  %v2 = load double, ptr %v1, align 8\n  %v3 = fadd double %v2, 0x3FF0000000000000\n"
    );
}

#[test]
fn a_scalar_shift_clamps_its_read_to_the_sweep() {
    let g = generator(&[("A", vec![4])]);
    let b = buffers(&["A"]);
    let e = Expr::Shift { dir: ShiftDir::Positive, axis: None, operand: var("A") };
    let (r, ir, _) = lower(&g, &b, &e, Mode::Scalar(Precision::F64), vec![4]);
    assert_eq!(r.unwrap(), "%v9");
    let expected = [
        "  ; ▷A along last axis (stride 1, extent 4)",
        "  %v1 = urem i64 %i, 4",
        "  %v2 = icmp eq i64 %v1, 0",
        "  %v3 = sub i64 %i, 1",
        "  %v4 = icmp uge i64 %v3, 4",
        "  %v5 = or i1 %v2, %v4",
        "  %v6 = select i1 %v5, i64 0, i64 %v3",
        "  ; boundary or past the sweep -> 0",
        "  %v7 = getelementptr inbounds double, ptr %A, i64 %v6",
        "  %v8 = load double, ptr %v7, align 8",
        "  %v9 = select i1 %v5, double 0.0, double %v8",
    ];
    assert_eq!(ir, expected.join("\n") + "\n");
}

#[test]
fn a_whole_power_is_repeated_products_in_the_kernel() {
    let g = generator(&[("A", vec![4])]);
    let b = buffers(&["A"]);
    let e = Expr::BinaryOp { op: BinaryOpKind::Pow, lhs: var("A"), rhs: number("3") };
    let (r, ir, counter) = lower(&g, &b, &e, Mode::Scalar(Precision::F64), vec![4]);
    assert_eq!(r.unwrap(), "%v3");
    assert_eq!(counter, 5);
    assert!(ir.ends_with("  %v4 = fmul double %v2, %v2\n  %v5 = fmul double %v4, %v2\n  %v3 = fadd double 0.0, %v5\n"));
}

#[test]
fn a_stretched_axis_adds_nothing_to_the_index() {
    let g = generator(&[("B", vec![1, 3])]);
    let b = buffers(&["B"]);
    let e = Expr::Var("B".to_string());
    let (r, ir, _) = lower(&g, &b, &e, Mode::Scalar(Precision::F64), vec![2, 3]);
    assert_eq!(r.unwrap(), "%v4");
    assert!(ir.starts_with("  %v1 = urem i64 %i, 3\n  %v2 = mul i64 %v1, 1\n"));
    assert!(ir.contains("getelementptr inbounds double, ptr %B, i64 %v2\n"));
}

#[test]
fn a_vector_literal_fills_every_lane() {
    let g = generator(&[]);
    let b = buffers(&[]);
    let (r, ir, _) = lower(&g, &b, &Expr::Number("1.0".to_string()), Mode::Vector(4, Precision::F64), vec![4]);
    assert_eq!(
        r.unwrap(),
        "<double 0x3FF0000000000000, double 0x3FF0000000000000, double 0x3FF0000000000000, double 0x3FF0000000000000>"
    );
    assert!(ir.is_empty());
}

#[test]
fn what_the_kernel_cannot_read_is_refused() {
    let g = generator(&[("A", vec![4])]);
    let b = buffers(&["A"]);
    match lower(&g, &b, &Expr::Var("B".to_string()), Mode::Scalar(Precision::F64), vec![4]).0 {
        Err(HarmonyDisruption::SpaceErr { space_name, line }) => {
            assert_eq!(space_name, "B");
            assert_eq!(line, 7);
        }
        other => panic!("unexpected {other:?}"),
    }
    let fold = Expr::Reduce { op: FoldOp::Sum, axis: None, operand: var("A") };
    match lower(&g, &b, &fold, Mode::Scalar(Precision::F64), vec![1]).0 {
        Err(HarmonyDisruption::LoweringErr { detail, .. }) => {
            assert_eq!(detail, "a fold was not precomputed before the sweep that reads it");
        }
        other => panic!("unexpected {other:?}"),
    }
    let greater = Expr::BinaryOp { op: BinaryOpKind::Max, lhs: var("A"), rhs: var("A") };
    match lower(&g, &b, &greater, Mode::Scalar(Precision::F64), vec![4]).0 {
        Err(HarmonyDisruption::LoweringErr { detail, .. }) => {
            assert_eq!(detail, "the greater, the lesser and the residue is not in the LLVM subset");
        }
        other => panic!("unexpected {other:?}"),
    }
}

#[test]
fn a_precomputed_fold_is_read_from_its_buffer() {
    let g = generator(&[("A", vec![2, 3])]);
    let mut b = buffers(&["A"]);
    let fold = Expr::Reduce { op: FoldOp::Sum, axis: Some(1), operand: var("A") };
    b.place_fold(&fold, "%fold0");
    let (r, ir, _) = lower(&g, &b, &fold, Mode::Scalar(Precision::F64), vec![2]);
    assert_eq!(r.unwrap(), "%v2");
    assert_eq!(ir, "  %v1 = getelementptr inbounds double, ptr %fold0, i64 %i\n  %v2 = load double, ptr %v1, align 8\n");
}

#[test]
fn a_fold_is_computed_into_its_own_buffer_before_the_sweep() {
    let g = generator(&[("A", vec![2, 3])]);
    let mut b = buffers(&["A"]);
    let fold = Expr::Reduce { op: FoldOp::Sum, axis: Some(1), operand: var("A") };
    let mut ir = String::new();
    let mut counter = 0usize;
    let end = g.emit_fold_prepass(&fold, &mut ir, &mut b, &"entry".to_string(), &mut counter).unwrap();
    assert_eq!(end, "fold1.end");
    assert_eq!(counter, 3);
    let expected = [
        "  ; [fold1_buf] 2 cells -> stack",
        "  %fold1_buf = alloca [2 x double], align 64",
        "  ; ◇+ (total) over axis 1 of [2, 3] -> 2 cells",
        "  br label %fold1.header",
        "",
        "fold1.header:",
        "  %fold1.j = phi i64 [ 0, %entry ], [ %fold1.j.next, %fold1.tail ]",
        "  %fold1.go = icmp ult i64 %fold1.j, 2",
        "  br i1 %fold1.go, label %fold1.body, label %fold1.end",
        "",
        "fold1.body:",
        "  %fold1.o = udiv i64 %fold1.j, 1",
        "  %fold1.t = urem i64 %fold1.j, 1",
        "  %fold1.block = mul i64 %fold1.o, 3",
        "  %fold1.base = add i64 %fold1.block, %fold1.t",
        "  br label %fold1.inner",
        "",
        "fold1.inner:",
        "  %fold1.m = phi i64 [ 0, %fold1.body ], [ %fold1.m.next, %fold1.step ]",
        "  %fold1.acc = phi double [ 0x0000000000000000, %fold1.body ], [ %fold1.acc.next, %fold1.step ]",
        "  %fold1.more = icmp ult i64 %fold1.m, 3",
        "  br i1 %fold1.more, label %fold1.step, label %fold1.tail",
        "",
        "fold1.step:",
        "  %fold1.off = mul i64 %fold1.m, 1",
        "  %fold1.at = add i64 %fold1.base, %fold1.off",
        "  %v2 = getelementptr inbounds double, ptr %A, i64 %fold1.at",
        "  %v3 = load double, ptr %v2, align 8",
        "  %fold1.acc.next = fadd double %fold1.acc, %v3",
        "  %fold1.m.next = add i64 %fold1.m, 1",
        "  br label %fold1.inner",
        "",
        "fold1.tail:",
        "  %fold1.slot = getelementptr inbounds double, ptr %fold1_buf, i64 %fold1.j",
        "  store double %fold1.acc, ptr %fold1.slot, align 8",
        "  %fold1.j.next = add i64 %fold1.j, 1",
        "  br label %fold1.header",
        "",
        "fold1.end:",
    ];
    assert_eq!(ir, expected.join("\n") + "\n");
    // The sweep then reads the fold from its buffer.
    let mut sweep = String::new();
    let value = g
        .emit_expr(&fold, &mut sweep, &b, &"%i".to_string(), &mut counter, Mode::Scalar(Precision::F64), &vec![2], &vec![])
        .unwrap();
    assert_eq!(value, "%v5");
    assert!(sweep.contains("ptr %fold1_buf, i64 %i\n"));
}

#[test]
fn flows_stop_at_the_first_equilibrium_and_each_reports_its_line() {
    let mut g = generator(&[("A", vec![4]), ("OUTPUT", vec![4])]).without_simd();
    let block = ToposBlock {
        statements: vec![
            Statement::Flow { src: *var("A"), target: FlowTarget::Equilibrium },
            Statement::Flow { src: *var("A"), target: FlowTarget::Var("NOWHERE".to_string()) },
        ],
        lines: vec![3, 4],
        origins: vec![None, None],
    };
    let mut b = buffers(&["A", "OUTPUT"]);
    let mut ir = String::new();
    let mut counter = 0usize;
    let end = g.emit_flows(&block, &mut ir, &mut b, &"entry".to_string(), &mut counter).unwrap();
    assert!(end.starts_with("f1"));
    assert!(ir.starts_with("  ; Flow 1: sweep 4 cells (scalar)\n"));
    assert!(ir.contains("store double"));
    assert!(!ir.contains("Flow 2"));

    let late = ToposBlock {
        statements: vec![Statement::Flow { src: *var("A"), target: FlowTarget::Var("NOWHERE".to_string()) }],
        lines: vec![9],
        origins: vec![None],
    };
    let mut ir = String::new();
    let mut counter = 0usize;
    let r = g.emit_flows(&late, &mut ir, &mut b, &"entry".to_string(), &mut counter);
    assert_eq!(r, Err(HarmonyDisruption::SpaceErr { space_name: "NOWHERE".to_string(), line: 9 }));
    assert_eq!(ir, "");
}

#[test]
fn a_space_may_be_read_only_once_declared_or_written() {
    let decl = Statement::SpaceDef(SpaceDecl { name: "A".to_string(), dimensions: vec![4] });
    let write_b = Statement::Flow { src: *var("A"), target: FlowTarget::Var("B".to_string()) };
    let read_b = Statement::Flow { src: *var("B"), target: FlowTarget::Var("C".to_string()) };
    let early = ToposBlock {
        statements: vec![decl.clone(), read_b.clone(), write_b.clone()],
        lines: vec![1, 2, 3],
        origins: vec![None, None, None],
    };
    assert_eq!(
        validate_space_declarations(&early),
        Err(HarmonyDisruption::SpaceErr { space_name: "B".to_string(), line: 2 })
    );
    let late = ToposBlock {
        statements: vec![decl, write_b, read_b],
        lines: vec![1, 2, 3],
        origins: vec![None, None, None],
    };
    assert_eq!(validate_space_declarations(&late), Ok(()));
}

fn module_of(source: &str, g: LlvmCodeGen) -> (String, LlvmCodeGen) {
    let block = rho_lang::parser::parse_rho_program(source).unwrap();
    let mut g = g;
    let ir = g.generate_llvm_ir(&block).unwrap();
    (ir, g)
}

fn numbered() -> LlvmCodeGen {
    let mut numbers = NumberBits::new();
    numbers.insert("1.0", 1.0f64.to_bits());
    LlvmCodeGen::new("kernel").with_numbers(numbers)
}

#[test]
fn a_module_declares_its_intrinsics_and_exports_its_metadata() {
    let (ir, g) = module_of("{\n    INPUT:◯ □ 4\n    (INPUT + 1.0) → OUTPUT\n    OUTPUT → =\n}", numbered());
    assert_eq!(g.element_count(), 4);
    assert!(ir.starts_with(
        "; ModuleID = 'kernel'\nsource_filename = \"rho_kernel.rho\"\n\ndeclare double @llvm.pow.f64(double, double)\ndeclare <4 x double> @llvm.pow.v4f64(<4 x double>, <4 x double>)\ndeclare double @llvm.exp.f64(double)\ndeclare <4 x double> @llvm.exp.v4f64(<4 x double>)\n"
    ));
    let json = "{\"precision\":\"f64\",\"elements\":4,\"spaces\":[{\"name\":\"INPUT\",\"shape\":[4],\"role\":\"input\"},{\"name\":\"OUTPUT\",\"shape\":[4],\"role\":\"output\"}],\"bindings\":[]}";
    let escaped = json.replace('"', "\\22");
    let global = format!("@.rho_meta_str = private unnamed_addr constant [{} x i8] c\"{}\\00\", align 1\n\n", json.len() + 1, escaped);
    assert!(ir.contains(&global), "{ir}");
    assert!(ir.contains("define void @rho_kernel_exec() #0 {\nentry:\n  ; Not every space this kernel reads has an & binding:\n  ;   [INPUT] is unbound\n  ; Use rho_kernel_exec_with_args, or compile with --bind NAME=0x...\n  ret void\n}\n\n"));
    assert!(ir.contains("define void @rho_kernel_exec_with_args(ptr %in_ptr, ptr %out_ptr) #0 {\n"));
    assert!(ir.contains("  %sweep = select i1 %b_short, i64 %n, i64 4\n"));
    assert!(ir.contains("  ; [INPUT] is spaces[0]\n  %INPUT_slot = getelementptr ptr, ptr %spaces, i64 0\n"));
    assert!(ir.contains("  %OUTPUT_eff = select i1 %OUTPUT_null, ptr %OUTPUT_own, ptr %OUTPUT_arg\n"));
    assert!(ir.contains("  br i1 %INPUT_null, label %spaces_fail, label %spaces_start\n\n"));
    assert!(ir.ends_with("define i64 @rho_kernel_element_count() #0 {\nentry:\n  ret i64 4\n}\n\nattributes #0 = { nounwind uwtable }\n"));
}

#[test]
fn a_bound_input_runs_in_place_at_its_address() {
    let (ir, _) = module_of("{\n    &[0x7A4F]:INPUT:◯ □ 4\n    (INPUT + 1.0) → OUTPUT\n    OUTPUT → =\n}", numbered());
    assert!(ir.contains("define void @rho_kernel_exec() #0 {\nentry:\n  ; Zero-copy binding for [INPUT] at 0x7A4F\n  %INPUT_ext = inttoptr i64 31311 to ptr\n"), "{ir}");
    assert!(ir.contains("\\22bindings\\22:[{\\22name\\22:\\22INPUT\\22,\\22address\\22:31311}]"));
}

#[test]
fn a_caller_binding_overrides_and_scalar_kernels_declare_no_vectors() {
    let g = numbered().without_simd().bind("INPUT", 4096);
    let (ir, _) = module_of("{\n    &[0x7A4F]:INPUT:◯ □ 4\n    (INPUT + 1.0) → OUTPUT\n    OUTPUT → =\n}", g);
    assert!(ir.contains("  ; Zero-copy binding for [INPUT] at 0x1000\n  %INPUT_ext = inttoptr i64 4096 to ptr\n"));
    assert!(!ir.contains("<4 x double>"));
}

#[test]
fn a_name_outside_ascii_is_escaped_in_the_metadata() {
    let (ir, _) = module_of("{\n    INPUT:◯ □ 4\n    (INPUT + 1.0) → △\n    △ → =\n}", numbered());
    assert!(ir.contains("\\22name\\22:\\22\\E2\\96\\B3\\22"), "{ir}");
    assert!(ir.contains("%_u25B3_slot"));
}
