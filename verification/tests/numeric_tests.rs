use rho_lang::ast::BuiltinOp;
use rho_lang::numeric::{Compare, Fixed, Precision};

type Q = Fixed<32, 16>;

/// A constant as the datapath takes it: the nearest step, half away from
/// zero; an infinity is the end of the range; a NaN is zero.
fn q(v: f64) -> Q {
    if v.is_nan() {
        return Fixed { raw: 0 };
    }
    if v == f64::INFINITY {
        return Fixed { raw: Q::max_raw() };
    }
    if v == f64::NEG_INFINITY {
        return Fixed { raw: Q::min_raw() };
    }
    Q::wrap((v * 65536.0).round() as i128)
}

fn as_real(x: Q) -> f64 {
    x.raw as f64 / 65536.0
}

#[test]
fn a_literal_rounds_to_the_nearest_step_and_wraps_to_the_width() {
    assert_eq!(q(1.0).raw, 1 << 16);
    assert_eq!(q(0.5).raw, 1 << 15);
    assert_eq!(q(1.0 / 131072.0).raw, 1);
    assert_eq!(q(-1.0 / 131072.0).raw, -1);
    assert_eq!(q(f64::NAN).raw, 0);
    assert_eq!(q(f64::INFINITY).raw, i32::MAX as i64);
    assert_eq!(q(f64::NEG_INFINITY).raw, i32::MIN as i64);
    assert_eq!(q(32768.0).raw, i32::MIN as i64);
    assert_eq!(as_real(q(1.5)), 1.5);
}

#[test]
fn products_floor_quotients_truncate_and_zero_divides_to_zero() {
    let (a, b) = (q(1.5), q(-2.25));
    assert_eq!(as_real(a.mul(&b)), -3.375);
    assert_eq!(as_real(a.add(&b)), -0.75);
    assert_eq!(as_real(a.sub(&b)), 3.75);
    assert_eq!(q(-1.0).div(&q(3.0)).raw, -21845);
    assert_eq!(Fixed::<32, 16> { raw: -1 }.mul(&q(0.5)).raw, -1);
    assert_eq!(q(1.0).div(&q(0.0)).raw, 0);
    assert_eq!(as_real(q(20000.0).add(&q(20000.0))), -25536.0);
}

#[test]
fn the_named_functions_a_datapath_has() {
    assert_eq!(as_real(q(-2.5).unary(BuiltinOp::Abs).unwrap()), 2.5);
    assert_eq!(as_real(q(-2.5).unary(BuiltinOp::Floor).unwrap()), -3.0);
    assert_eq!(as_real(q(-2.5).unary(BuiltinOp::Ceil).unwrap()), -2.0);
    assert_eq!(as_real(q(2.0).unary(BuiltinOp::Ceil).unwrap()), 2.0);
    assert_eq!(as_real(q(0.001).unary(BuiltinOp::Indicator).unwrap()), 1.0);
    assert_eq!(as_real(q(0.0).unary(BuiltinOp::Indicator).unwrap()), 0.0);
    let rolls: Vec<f64> = (0..64).map(|i| as_real(q(i as f64).unary(BuiltinOp::Roll).unwrap())).collect();
    assert!(rolls.iter().all(|r| (0.0..1.0).contains(r)));
    assert!(rolls.windows(2).any(|w| w[0] != w[1]));
    assert!(q(1.0).compare(&q(0.999), Compare::Gt));
    assert_eq!(as_real(q(1.5).whole_power(&q(3.0)).unwrap()), 3.375);
}

#[test]
fn functions_through_a_double_are_not_the_datapaths() {
    assert!(q(1.0).unary(BuiltinOp::Exp).is_none());
    assert!(q(1.0).unary(BuiltinOp::Sqrt).is_none());
}

#[test]
fn a_negative_whole_power_divides_one() {
    assert_eq!(as_real(q(2.0).whole_power(&q(-1.0)).unwrap()), 0.5);
    assert_eq!(as_real(q(2.0).whole_power(&q(0.0)).unwrap()), 1.0);
    assert_eq!(as_real(q(-2.0).whole_power(&q(3.0)).unwrap()), -8.0);
}

#[test]
fn a_fractional_or_large_exponent_has_no_whole_power() {
    assert!(q(2.0).whole_power(&q(0.5)).is_none());
    assert!(q(2.0).whole_power(&q(65.0)).is_none());
    assert!(q(2.0).whole_power(&q(-65.0)).is_none());
    assert!(q(1.0).whole_power(&q(64.0)).is_some());
}

#[test]
fn wrapping_is_periodic_in_the_width() {
    assert_eq!(Q::wrap(5).raw, 5);
    assert_eq!(Q::wrap(5 + (1i128 << 32)).raw, 5);
    assert_eq!(Q::wrap(-5 - (3i128 << 32)).raw, -5);
    assert_eq!(Q::wrap(Q::wrap(1i128 << 40).raw as i128).raw, Q::wrap(1i128 << 40).raw);
}

#[test]
fn subtraction_undoes_addition() {
    for (a, b) in [(1.5, -2.25), (30000.0, 20000.0), (-32768.0, -1.0)] {
        let (x, y) = (q(a), q(b));
        assert_eq!(x.add(&y).sub(&y), x);
    }
}

#[test]
fn floor_and_ceiling_bracket_the_value() {
    for v in [-2.5, -2.0, 0.25, 3.75] {
        let x = q(v);
        let f = x.floor();
        let c = x.ceil();
        assert!(f.raw <= x.raw && x.raw <= c.raw);
        assert_eq!(f.raw % 65536, 0);
        assert_eq!(c.raw % 65536, 0);
    }
}

#[test]
fn selection_and_comparison() {
    let (a, b) = (q(1.0), q(2.0));
    assert_eq!(Q::select(&true, &a, &b), a);
    assert_eq!(Q::select(&false, &a, &b), b);
    assert!(a.compare(&b, Compare::Lt));
    assert!(a.compare(&a, Compare::Eq));
    assert!(!a.compare(&b, Compare::Gte));
}

#[test]
fn precisions_name_their_types() {
    assert_eq!(Precision::default(), Precision::F64);
    assert_eq!(Precision::F64.name(), "f64");
    assert_eq!(Precision::F32.llvm_type(), "float");
    assert_eq!(Precision::F64.llvm_type(), "double");
    assert_eq!(Precision::F32.bytes(), 4);
    assert_eq!(Precision::F64.bytes(), 8);
}
