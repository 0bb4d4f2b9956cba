use rho_lang::ast::{Expr, Statement};
use rho_lang::error::HarmonyDisruption;
use rho_lang::lexer::normalize_ascii_aliases;
use rho_lang::parser::{parse_expr, parse_rho_program};

#[test]
fn test_parse_teichmuller() {
    let source = r#"{
        &[0x7A4F]:INPUT:◯ □ 1024 1024 
        (▷INPUT - INPUT) → △
        (▽INPUT - INPUT) → ▽
        ((△ - ▽) / (△ + ▽)) ^ 2 → OUTPUT
        ! (OUTPUT >= 0)
        OUTPUT > 𝜏 → =
    }"#;

    let res = parse_rho_program(source);
    assert!(res.is_ok(), "Teichmuller script should parse successfully: {:?}", res.err());

    let block = res.unwrap();
    assert_eq!(block.statements.len(), 6);
}

#[test]
fn test_glyph_disruption_err() {
    let source = r#"{
        for i in 0..10 { }
        OUTPUT → =
    }"#;

    let res = parse_rho_program(source);
    assert!(res.is_err());
    match res.err().unwrap() {
        HarmonyDisruption::GlyphErr { symbol, .. } => {
            assert_eq!(symbol, "for");
        }
        err => panic!("Unexpected error: {:?}", err),
    }
}

#[test]
fn test_space_disruption_err() {
    let source = r#"{
        UNDECLARED_SPACE → OUTPUT
        OUTPUT → =
    }"#;

    let res = parse_rho_program(source);
    assert!(res.is_err());
    match res.err().unwrap() {
        HarmonyDisruption::SpaceErr { space_name, line } => {
            assert_eq!(space_name, "UNDECLARED_SPACE");
            assert_eq!(line, 2, "the diagnostic should point at the offending flow");
        }
        err => panic!("Unexpected error: {:?}", err),
    }
}

#[test]
fn test_flow_disruption_err() {
    let source = r#"{
        INPUT:◯ □ 10 10
        INPUT → OUTPUT
    }"#;

    let res = parse_rho_program(source);
    assert!(res.is_err());
    match res.err().unwrap() {
        HarmonyDisruption::FlowErr => {}
        err => panic!("Unexpected error: {:?}", err),
    }
}

#[test]
fn test_parse_ascii_aliases() {
    let source = r#"{
        @[0x7A4F]:INPUT:◯ □ 1024 1024 
        (>>INPUT - INPUT) -> △
        (<<INPUT - INPUT) -> ▽
        ((△ - ▽) / (△ + ▽)) ^ 2 -> OUTPUT
        ! (OUTPUT >= 0)
        OUTPUT > 𝜏 -> =
    }"#;

    let res = parse_rho_program(source);
    assert!(res.is_ok(), "ASCII alias script should parse successfully: {:?}", res.err());
}

#[test]
fn test_dimension_disruption_for_shape_mismatch() {
    let source = r#"{
        INPUT:◯ □ 2 2
        TEMP:◯ □ 3 3
        INPUT → TEMP
        TEMP → =
    }"#;

    let res = parse_rho_program(source);
    assert!(res.is_err());
    if let Err(e) = res {
        assert!(matches!(e, HarmonyDisruption::DimensionErr { .. }));
    }
}

#[test]
fn test_diagnostics_point_at_the_offending_line() {
    let source = "{\n    INPUT:◯ □ 4 1\n\n    /* a comment\n       over two lines */\n    (INPUT + 1.0) → A\n    (UNDECLARD + A) → OUTPUT\n    OUTPUT → =\n}";
    let err = parse_rho_program(source).unwrap_err();
    assert_eq!(err.line(), Some(7), "got {err:?}");

    let rendered = err.render(source);
    assert!(rendered.contains("7 |     (UNDECLARD + A) → OUTPUT"), "{rendered}");
    assert!(rendered.contains('^'), "{rendered}");
}

#[test]
fn test_shape_mismatch_names_its_line() {
    let source = "{\n    INPUT:◯ □ 2 2\n    TEMP:◯ □ 3 3\n    INPUT → TEMP\n    TEMP → =\n}";
    let err = parse_rho_program(source).unwrap_err();
    assert!(matches!(err, HarmonyDisruption::DimensionErr { .. }), "{err:?}");
    assert_eq!(err.line(), Some(4));
}

#[test]
fn test_statements_record_their_source_line() {
    let source = "{\n    INPUT:◯ □ 4 1\n\n    (INPUT + 1.0) → OUTPUT\n\n    OUTPUT → =\n}";
    let block = parse_rho_program(source).unwrap();
    assert_eq!(block.lines, vec![2, 4, 6]);
}

#[test]
fn test_a_non_associative_fold_is_rejected() {
    for glyph in ["◇-", "◇/"] {
        let source = format!(
            "{{\n        INPUT:◯ □ 4 1\n        {glyph} INPUT → OUTPUT\n        OUTPUT → =\n    }}"
        );
        assert!(parse_rho_program(&source).is_err(), "{glyph} should not parse as a fold");
    }
}

#[test]
fn test_shapes_that_cannot_broadcast_are_rejected() {
    for (a, b) in [("3 4", "5 4"), ("3 4", "4")] {
        let source = format!(
            "{{\n    A:◯ □ {a}\n    B:◯ □ {b}\n    (A + B) → OUTPUT\n    OUTPUT → =\n}}"
        );
        assert!(parse_rho_program(&source).is_err(), "shapes [{a}] and [{b}] should not broadcast");
    }
}

#[test]
fn test_a_non_associative_scan_is_rejected() {
    for glyph in ["◈-", "◈/"] {
        let source = format!(
            "{{\n        INPUT:◯ □ 4 1\n        {glyph} INPUT → OUTPUT\n        OUTPUT → =\n    }}"
        );
        assert!(parse_rho_program(&source).is_err(), "{glyph} should not parse");
    }
}

#[test]
fn test_a_function_name_cannot_also_be_a_space() {
    for name in ["exp", "log", "ind"] {
        let source = format!(
            "{{\n        {name}:◯ □ 4 1\n        {name} → OUTPUT\n        OUTPUT → =\n    }}"
        );
        assert!(parse_rho_program(&source).is_err(), "a space named {name}");
    }
    let source = r#"{
        exposure:◯ □ 4 1
        (exposure + 1.0) → OUTPUT
        OUTPUT → =
    }"#;
    assert!(parse_rho_program(source).is_ok());
}

#[test]
fn a_sign_after_an_operator_is_part_of_the_number() {
    let e = parse_expr("INPUT × -3.0").unwrap();
    match e {
        Expr::BinaryOp { lhs, rhs, .. } => {
            assert_eq!(*lhs, Expr::Var("INPUT".to_string()));
            assert_eq!(*rhs, Expr::Number("-3.0".to_string()));
        }
        other => panic!("{other:?}"),
    }
}

#[test]
fn a_definition_is_expanded_at_its_call() {
    let source = "double:{ X (X + X) }\n{\n    INPUT:◯ □ 4 1\n    double INPUT → OUTPUT\n    OUTPUT → =\n}";
    let block = parse_rho_program(source).unwrap();
    match &block.statements[1] {
        Statement::Flow { src, .. } => {
            assert!(matches!(src, Expr::BinaryOp { .. }), "{src:?}");
        }
        other => panic!("{other:?}"),
    }
    assert!(block.origins[1].is_some());
}

#[test]
fn every_documented_ascii_spelling_becomes_its_glyph() {
    let pairs = [
        ("->", "→"),
        ("=>", "⇒"),
        (">>", "▷"),
        ("<<", "▽"),
        (">.", "⌈"),
        ("<.", "⌊"),
        ("#", "⍳"),
        ("%", "⌽"),
        ("\\", "⍴"),
        ("'", "⍉"),
        ("^.", "↑"),
        ("_.", "↓"),
        ("@", "&"),
        ("<>", "◇"),
        ("<.>", "◈"),
        ("[]", "□"),
    ];
    for (ascii, glyph) in pairs {
        assert_eq!(normalize_ascii_aliases(ascii), glyph, "spelling {ascii}");
    }
}

#[test]
fn a_lone_backslash_is_reshape() {
    assert_eq!(normalize_ascii_aliases("2 3 \\ A"), "2 3 ⍴ A");
    assert!(!normalize_ascii_aliases("\\\\").contains('\\'));
}

#[test]
fn a_scan_is_not_read_as_a_fold() {
    assert_eq!(normalize_ascii_aliases("<.>+ INPUT -> OUTPUT"), "◈+ INPUT → OUTPUT");
}

#[test]
fn a_flow_into_a_space_of_another_shape_names_the_value_input() {
    let source = "{\n    A:◯ □ 2 2\n    TEMP:◯ □ 3 3\n    A → TEMP\n    TEMP → =\n}";
    let err = parse_rho_program(source).unwrap_err();
    match err {
        HarmonyDisruption::DimensionErr { space_a, shape_a, space_b, shape_b, line } => {
            assert_eq!(space_a, "INPUT");
            assert_eq!(shape_a, vec![2, 2]);
            assert_eq!(space_b, "TEMP");
            assert_eq!(shape_b, vec![3, 3]);
            assert_eq!(line, 4);
        },
        other => panic!("{other:?}"),
    }
}

#[test]
fn operands_that_cannot_broadcast_are_named_with_their_shapes() {
    let source = "{\n    A:◯ □ 3 4\n    B:◯ □ 5 4\n    (A + B) → OUTPUT\n    OUTPUT → =\n}";
    match parse_rho_program(source).unwrap_err() {
        HarmonyDisruption::DimensionErr { space_a, shape_a, space_b, shape_b, line } => {
            assert_eq!(space_a, "A");
            assert_eq!(shape_a, vec![3, 4]);
            assert_eq!(space_b, "B");
            assert_eq!(shape_b, vec![5, 4]);
            assert_eq!(line, 4);
        },
        other => panic!("{other:?}"),
    }
}
