//! Number handling: the exact decimal grammar, rendering, rational and
//! complex arithmetic, and the answer cache.

use calculator::complex::Complex;
use calculator::context::{Context, GlobalContext};
use calculator::expr::{BinaryOperation, Expression};
use calculator::numtext::parse_decimal;
use calculator::rational::Rational;
use calculator::top::TopLevelExpression;
use calculator::values::Value;

fn lit(s: &str) -> Expression {
    Expression::Literal { content: s.to_string(), id: 0, new_literal: false }
}

fn binary(op: BinaryOperation, lhs: Expression, rhs: Expression) -> Expression {
    Expression::Binary { op, lhs: Box::new(lhs), rhs: Box::new(rhs), id: 0 }
}

fn num(v: i64) -> Value {
    Value::Number(Complex::from_int(v))
}

#[test]
fn integers_parse_exactly() {
    let r = parse_decimal("42").expect("an integer parses");
    assert_eq!(r, Rational::from_int(42));
}

#[test]
fn signed_integers_parse() {
    assert_eq!(parse_decimal("-5"), Some(Rational::from_int(-5)));
    assert_eq!(parse_decimal("+5"), Some(Rational::from_int(5)));
}

#[test]
fn decimals_parse_to_reduced_fractions() {
    let r = parse_decimal("3.25").expect("a decimal parses");
    assert_eq!(r.int_part(), 13);
    assert_eq!(r.den_part(), 4);
}

#[test]
fn trailing_zeros_do_not_change_the_value() {
    assert_eq!(parse_decimal("3.2500"), parse_decimal("3.25"));
    assert_eq!(parse_decimal("3.000"), Some(Rational::from_int(3)));
}

#[test]
fn dotted_forms_parse() {
    assert_eq!(parse_decimal(".5"), parse_decimal("0.5"));
    assert_eq!(parse_decimal("5."), Some(Rational::from_int(5)));
}

#[test]
fn malformed_numbers_do_not_parse() {
    assert_eq!(parse_decimal(""), None);
    assert_eq!(parse_decimal("."), None);
    assert_eq!(parse_decimal("1.2.3"), None);
    assert_eq!(parse_decimal("12a"), None);
    assert_eq!(parse_decimal("--1"), None);
}

#[test]
fn numbers_beyond_the_component_range_do_not_parse() {
    assert_eq!(parse_decimal("99999999999999999999"), None);
}

#[test]
fn rational_arithmetic_is_exact() {
    let a = parse_decimal("0.1").unwrap();
    let b = parse_decimal("0.2").unwrap();
    let sum = a.checked_add(&b).expect("no overflow");
    assert_eq!(sum, parse_decimal("0.3").unwrap());
}

#[test]
fn rational_overflow_is_reported() {
    let big = Rational::from_int(i64::MAX);
    let mul = big.checked_mul(&big);
    assert_eq!(mul, None);
}

#[test]
fn value_overflow_becomes_an_error_value() {
    let big = num(i64::MAX);
    let v = Value::mul(&big, &big);
    assert_eq!(v, Value::Error("arithmetic overflow".to_string()));
}

#[test]
fn complex_multiplication_is_exact() {
    let i = Complex { re: Rational::from_int(0), im: Rational::from_int(1) };
    let sq = i.mul(&i).expect("no overflow");
    assert_eq!(sq, Complex::from_int(-1));
}

#[test]
fn number_rendering() {
    assert_eq!(num(3).to_display_string(), "3");
    assert_eq!(num(-7).to_display_string(), "-7");
    let z = Value::Number(Complex { re: Rational::from_int(1), im: Rational::from_int(2) });
    assert_eq!(z.to_display_string(), "1+2i");
    let w = Value::Number(Complex { re: Rational::from_int(1), im: Rational::from_int(-2) });
    assert_eq!(w.to_display_string(), "1-2i");
}

#[test]
fn vector_rendering() {
    let v = Value::Vector(vec![num(1), num(2), num(3)]);
    assert_eq!(v.to_display_string(), "<1, 2, 3>");
}

#[test]
fn error_rendering() {
    let v = Value::Error("boom".to_string());
    assert_eq!(v.to_display_string(), "error: \"boom\"");
}

#[test]
fn boolean_and_lambda_rendering() {
    assert_eq!(Value::Boolean(true).to_display_string(), "true");
    let l = Value::Lambda("x".to_string(), lit("x"));
    assert_eq!(l.to_display_string(), "fn(x): <...>");
}

#[test]
fn rounding_is_half_away_from_zero() {
    let half = parse_decimal("0.5").unwrap();
    assert_eq!(half.round_to_int(), 1);
    let neg = parse_decimal("-0.5").unwrap();
    assert_eq!(neg.round_to_int(), -1);
    let low = parse_decimal("1.4").unwrap();
    assert_eq!(low.round_to_int(), 1);
}

#[test]
fn transcendental_scalars_report_exactness_limit() {
    let v = num(2).sin();
    assert_eq!(
        v,
        Value::Error("not supported in exact arithmetic".to_string())
    );
}

#[test]
fn transcendental_functions_pass_errors_through() {
    let e = Value::Error("inner".to_string());
    assert_eq!(e.cos(), Value::Error("inner".to_string()));
}

#[test]
fn transcendental_functions_map_over_vectors() {
    let v = Value::Vector(vec![Value::Error("one".to_string())]);
    assert_eq!(
        v.tan(),
        Value::Vector(vec![Value::Error("one".to_string())])
    );
}

#[test]
fn absolute_value_is_exact_on_reals() {
    assert_eq!(num(-4).abs(), num(4));
}

#[test]
fn cache_refresh_detects_edits_and_drops_the_answer() {
    let mut top = TopLevelExpression::new(lit("1"));
    assert!(top.refresh());
    top.store_answer(Value::Number(Complex::from_int(1)));
    assert!(!top.refresh());
    assert!(top.answer_cached.is_some());
    match &mut top.expression {
        Expression::Literal { content, .. } => {
            content.push('2');
        }
        _ => unreachable!(),
    }
    assert!(top.refresh());
    assert!(top.answer_cached.is_none());
}

#[test]
fn structural_hash_ignores_identifiers() {
    let a = Expression::Literal { content: "7".to_string(), id: 1, new_literal: false };
    let b = Expression::Literal { content: "7".to_string(), id: 99, new_literal: false };
    assert_eq!(a.structural_hash(), b.structural_hash());
}

#[test]
fn evaluating_a_decimal_literal_is_exact() {
    let mut ctx = Context::new();
    let mut global = GlobalContext::new();
    let e = binary(BinaryOperation::Add, lit("0.1"), lit("0.2"));
    let v = e.eval(&mut ctx, &mut global);
    assert_eq!(v.to_display_string(), "3/10");
}

#[test]
fn bin_op_store_returns_the_right_operand() {
    let mut ctx = Context::new();
    let mut global = GlobalContext::new();
    let v = Value::bin_op(BinaryOperation::Store, &num(1), &num(2), &mut ctx, &mut global, 8);
    assert_eq!(v, num(2));
}

#[test]
fn bin_op_invoke_calls_a_lambda_value() {
    let mut ctx = Context::new();
    let mut global = GlobalContext::new();
    let square = Value::Lambda(
        "x".to_string(),
        binary(BinaryOperation::Multiply, lit("x"), lit("x")),
    );
    let v = Value::bin_op(BinaryOperation::Invoke, &square, &num(6), &mut ctx, &mut global, 8);
    assert_eq!(v, num(36));
}

#[test]
fn evaluate_summation_entry_point_matches_the_evaluator() {
    let mut ctx = Context::new();
    let mut global = GlobalContext::new();
    let v = Expression::evaluate_summation(
        &lit("1"),
        &lit("4"),
        &lit("n"),
        &lit("n"),
        &mut ctx,
        &mut global,
        8,
    );
    assert_eq!(v, num(10));
}

#[test]
fn exponent_notation_parses_exactly() {
    assert_eq!(parse_decimal("1e3"), Some(Rational::from_int(1000)));
    assert_eq!(parse_decimal("5E2"), Some(Rational::from_int(500)));
    assert_eq!(parse_decimal("1.5e3"), Some(Rational::from_int(1500)));
    assert_eq!(parse_decimal("-2.5e1"), Some(Rational::from_int(-25)));
    assert_eq!(parse_decimal("1e+2"), Some(Rational::from_int(100)));
}

#[test]
fn negative_exponents_scale_down_exactly() {
    let r = parse_decimal("2e-3").expect("a scaled-down value parses");
    assert_eq!(r.int_part(), 1);
    assert_eq!(r.den_part(), 500);
    assert_eq!(parse_decimal("2500e-2"), Some(Rational::from_int(25)));
}

#[test]
fn malformed_exponents_do_not_parse() {
    assert_eq!(parse_decimal("1e"), None);
    assert_eq!(parse_decimal("1e+"), None);
    assert_eq!(parse_decimal("e3"), None);
    assert_eq!(parse_decimal("1e2x"), None);
    assert_eq!(parse_decimal("1e2.5"), None);
}

#[test]
fn exponents_outside_the_window_do_not_parse() {
    assert_eq!(parse_decimal("1e99"), None);
    assert_eq!(parse_decimal("1e-25"), None);
    assert_eq!(parse_decimal("1e99999999999999999999"), None);
}

#[test]
fn zero_swallows_any_exponent() {
    assert_eq!(parse_decimal("0e300"), Some(Rational::from_int(0)));
    assert_eq!(parse_decimal("0.00e99999999999999999999"), Some(Rational::from_int(0)));
}

#[test]
fn evaluating_an_exponent_literal_is_exact() {
    let mut ctx = Context::new();
    let mut global = GlobalContext::new();
    let v = lit("1e3").eval(&mut ctx, &mut global);
    assert_eq!(v, num(1000));
}
