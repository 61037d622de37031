//! Evaluator behavior: arithmetic round trips, storage, vectors,
//! summation, lambda invocation.

use calculator::complex::Complex;
use calculator::context::{Context, GlobalContext};
use calculator::expr::{BinaryOperation, Expression, UnaryOperation};
use calculator::values::{ComparisonResult, Value};

fn lit(s: &str) -> Expression {
    Expression::Literal { content: s.to_string(), id: 0, new_literal: false }
}

fn binary(op: BinaryOperation, lhs: Expression, rhs: Expression) -> Expression {
    Expression::Binary { op, lhs: Box::new(lhs), rhs: Box::new(rhs), id: 0 }
}

fn num(v: i64) -> Value {
    Value::Number(Complex::from_int(v))
}

fn eval(e: &Expression, ctx: &mut Context, global: &mut GlobalContext) -> Value {
    e.eval(ctx, global)
}

#[test]
fn literal_three_evaluates_to_number_three() {
    let mut ctx = Context::new();
    let mut global = GlobalContext::new();
    let v = eval(&lit("3"), &mut ctx, &mut global);
    assert_eq!(v, num(3));
}

#[test]
fn two_plus_three_evaluates_to_five() {
    let mut ctx = Context::new();
    let mut global = GlobalContext::new();
    let e = binary(BinaryOperation::Add, lit("2"), lit("3"));
    assert_eq!(eval(&e, &mut ctx, &mut global), num(5));
}

#[test]
fn store_binds_and_returns_right_value() {
    let mut ctx = Context::new();
    let mut global = GlobalContext::new();
    let e = binary(BinaryOperation::Store, lit("x"), lit("7"));
    let stored = eval(&e, &mut ctx, &mut global);
    assert_eq!(stored, num(7));
    let resolved = eval(&lit("x"), &mut ctx, &mut global);
    assert_eq!(resolved, num(7));
}

#[test]
fn store_with_sigil_uses_global_frame() {
    let mut ctx = Context::new();
    let mut global = GlobalContext::new();
    let e = binary(BinaryOperation::Store, lit("@g"), lit("9"));
    assert_eq!(eval(&e, &mut ctx, &mut global), num(9));
    let mut ctx2 = Context::new();
    assert_eq!(eval(&lit("@g"), &mut ctx2, &mut global), num(9));
}

#[test]
fn unresolved_name_is_an_error() {
    let mut ctx = Context::new();
    let mut global = GlobalContext::new();
    let v = eval(&lit("nope"), &mut ctx, &mut global);
    assert_eq!(v, Value::Error("unable to resolve value `nope`".to_string()));
}

#[test]
fn default_context_binds_imaginary_unit() {
    let mut ctx = Context::default();
    let mut global = GlobalContext::new();
    let v = eval(&lit("i"), &mut ctx, &mut global);
    assert_eq!(v.to_display_string(), "0+1i");
}

#[test]
fn vector_addition_matched_length_is_elementwise() {
    let a = Value::Vector(vec![num(1), num(2)]);
    let b = Value::Vector(vec![num(10), num(20)]);
    let sum = Value::add(&a, &b);
    assert_eq!(sum, Value::Vector(vec![num(11), num(22)]));
}

#[test]
fn vector_addition_mismatched_length_is_error() {
    let a = Value::Vector(vec![num(1), num(2)]);
    let b = Value::Vector(vec![num(10)]);
    let sum = Value::add(&a, &b);
    assert_eq!(
        sum,
        Value::Error("vectors must have same length to be added".to_string())
    );
}

#[test]
fn summation_one_to_three_is_six() {
    let mut ctx = Context::new();
    let mut global = GlobalContext::new();
    let e = Expression::Summation {
        minimum: Box::new(lit("1")),
        maximum: Box::new(lit("3")),
        variable: Box::new(lit("k")),
        expression: Box::new(lit("k")),
    };
    assert_eq!(eval(&e, &mut ctx, &mut global), num(6));
}

#[test]
fn summation_min_not_below_max_is_error() {
    let mut ctx = Context::new();
    let mut global = GlobalContext::new();
    let e = Expression::Summation {
        minimum: Box::new(lit("3")),
        maximum: Box::new(lit("3")),
        variable: Box::new(lit("k")),
        expression: Box::new(lit("k")),
    };
    assert_eq!(
        eval(&e, &mut ctx, &mut global),
        Value::Error("summation maximum can not be larger than minimum".to_string())
    );
}

#[test]
fn summation_complex_bound_is_error() {
    let mut ctx = Context::default();
    let mut global = GlobalContext::new();
    let e = Expression::Summation {
        minimum: Box::new(lit("i")),
        maximum: Box::new(lit("3")),
        variable: Box::new(lit("k")),
        expression: Box::new(lit("k")),
    };
    assert_eq!(
        eval(&e, &mut ctx, &mut global),
        Value::Error("summation minimum can not be complex".to_string())
    );
}

#[test]
fn summation_restores_prior_binding_of_loop_variable() {
    let mut ctx = Context::new();
    let mut global = GlobalContext::new();
    eval(
        &binary(BinaryOperation::Store, lit("k"), lit("42")),
        &mut ctx,
        &mut global,
    );
    let e = Expression::Summation {
        minimum: Box::new(lit("1")),
        maximum: Box::new(lit("3")),
        variable: Box::new(lit("k")),
        expression: Box::new(lit("k")),
    };
    assert_eq!(eval(&e, &mut ctx, &mut global), num(6));
    assert_eq!(eval(&lit("k"), &mut ctx, &mut global), num(42));
}

#[test]
fn invoking_square_lambda_on_five_yields_twenty_five() {
    let mut ctx = Context::new();
    let mut global = GlobalContext::new();
    let square = Expression::Lambda {
        variable: Box::new(lit("x")),
        expr: Box::new(binary(BinaryOperation::Multiply, lit("x"), lit("x"))),
    };
    let call = binary(BinaryOperation::Invoke, square, lit("5"));
    assert_eq!(eval(&call, &mut ctx, &mut global), num(25));
}

#[test]
fn invoking_a_non_lambda_is_an_error() {
    let mut ctx = Context::new();
    let mut global = GlobalContext::new();
    let call = binary(BinaryOperation::Invoke, lit("3"), lit("5"));
    assert_eq!(
        eval(&call, &mut ctx, &mut global),
        Value::Error("left-side must be a function".to_string())
    );
}

#[test]
fn lambda_body_sees_callers_scope_at_invocation_time() {
    let mut ctx = Context::new();
    let mut global = GlobalContext::new();
    // the body's free variable resolves against the caller's frame stack
    let add_free = Expression::Lambda {
        variable: Box::new(lit("x")),
        expr: Box::new(binary(BinaryOperation::Add, lit("x"), lit("y"))),
    };
    eval(
        &binary(BinaryOperation::Store, lit("y"), lit("10")),
        &mut ctx,
        &mut global,
    );
    let call = binary(BinaryOperation::Invoke, add_free, lit("5"));
    assert_eq!(eval(&call, &mut ctx, &mut global), num(15));
}

#[test]
fn division_yields_exact_rationals() {
    let mut ctx = Context::new();
    let mut global = GlobalContext::new();
    let e = binary(BinaryOperation::Divide, lit("7"), lit("2"));
    let v = eval(&e, &mut ctx, &mut global);
    assert_eq!(v.to_display_string(), "7/2");
}

#[test]
fn division_by_zero_is_an_error() {
    let mut ctx = Context::new();
    let mut global = GlobalContext::new();
    let e = binary(BinaryOperation::Divide, lit("1"), lit("0"));
    assert_eq!(
        eval(&e, &mut ctx, &mut global),
        Value::Error("division by zero".to_string())
    );
}

#[test]
fn integer_power_is_exact() {
    let mut ctx = Context::new();
    let mut global = GlobalContext::new();
    let e = binary(BinaryOperation::Power, lit("2"), lit("10"));
    assert_eq!(eval(&e, &mut ctx, &mut global), num(1024));
}

#[test]
fn negative_power_inverts() {
    let mut ctx = Context::new();
    let mut global = GlobalContext::new();
    let e = binary(BinaryOperation::Power, lit("2"), lit("-3"));
    let v = eval(&e, &mut ctx, &mut global);
    assert_eq!(v.to_display_string(), "1/8");
}

#[test]
fn root_takes_degree_on_the_left() {
    let mut ctx = Context::new();
    let mut global = GlobalContext::new();
    // degree one: the value itself
    let e = binary(BinaryOperation::Root, lit("1"), lit("9"));
    assert_eq!(eval(&e, &mut ctx, &mut global), num(9));
}

#[test]
fn negate_multiplies_by_minus_one_minus_i() {
    let mut ctx = Context::new();
    let mut global = GlobalContext::new();
    let e = Expression::Unary {
        operation: UnaryOperation::Negate,
        expr: Box::new(lit("5")),
        id: 0,
    };
    let v = eval(&e, &mut ctx, &mut global);
    assert_eq!(v.to_display_string(), "-5-5i");
}

#[test]
fn comparison_on_real_parts() {
    let mut ctx = Context::new();
    let mut global = GlobalContext::new();
    let gt = binary(BinaryOperation::GreaterThan, lit("3"), lit("2"));
    assert_eq!(eval(&gt, &mut ctx, &mut global), Value::Boolean(true));
    let le = binary(BinaryOperation::LessThanOrEqual, lit("3"), lit("2"));
    assert_eq!(eval(&le, &mut ctx, &mut global), Value::Boolean(false));
    let eq = binary(BinaryOperation::Equal, lit("2"), lit("2"));
    assert_eq!(eval(&eq, &mut ctx, &mut global), Value::Boolean(true));
    let bad = binary(BinaryOperation::Equal, lit("2"), lit("2="));
    let v = eval(&bad, &mut ctx, &mut global);
    match v {
        Value::Error(_) => {}
        other => panic!("expected an error, got {:?}", other),
    }
}

#[test]
fn recursion_budget_turns_into_error_value() {
    let mut ctx = Context::new();
    let mut global = GlobalContext::new();
    // f = fn(x): f(x); calling f would recurse forever without the budget
    let self_call = binary(BinaryOperation::Invoke, lit("f"), lit("x"));
    let f = Expression::Lambda { variable: Box::new(lit("x")), expr: Box::new(self_call) };
    let fval = eval(&f, &mut ctx, &mut global);
    // bind the lambda under its own name, then invoke it
    match fval {
        Value::Lambda(_, _) => {}
        other => panic!("expected a lambda value, got {:?}", other),
    }
    let store = binary(
        BinaryOperation::Store,
        lit("f"),
        Expression::Lambda {
            variable: Box::new(lit("x")),
            expr: Box::new(binary(BinaryOperation::Invoke, lit("f"), lit("x"))),
        },
    );
    eval(&store, &mut ctx, &mut global);
    let call = binary(BinaryOperation::Invoke, lit("f"), lit("1"));
    assert_eq!(
        eval(&call, &mut ctx, &mut global),
        Value::Error("recursion depth exceeded".to_string())
    );
}

#[test]
fn vector_expression_evaluates_elementwise_in_order() {
    let mut ctx = Context::new();
    let mut global = GlobalContext::new();
    let e = Expression::Vector {
        exprs: vec![
            lit("1"),
            binary(BinaryOperation::Add, lit("2"), lit("3")),
        ],
        id: 0,
    };
    let v = eval(&e, &mut ctx, &mut global);
    assert_eq!(v, Value::Vector(vec![num(1), num(5)]));
}

#[test]
fn parenthesis_and_graph_wrappers_pass_the_inner_value_through() {
    let mut ctx = Context::new();
    let mut global = GlobalContext::new();
    let p = Expression::Parenthesis { expr: Box::new(lit("8")), id: 0, unbox_to_binop: false };
    assert_eq!(eval(&p, &mut ctx, &mut global), num(8));
    let g = Expression::GraphExpression { expr: Box::new(lit("9")) };
    assert_eq!(eval(&g, &mut ctx, &mut global), num(9));
}

#[test]
fn store_inside_a_subtree_is_visible_to_later_operands() {
    let mut ctx = Context::new();
    let mut global = GlobalContext::new();
    // (x = 4) + x evaluates the store first, left to right
    let e = binary(
        BinaryOperation::Add,
        binary(BinaryOperation::Store, lit("x"), lit("4")),
        lit("x"),
    );
    assert_eq!(eval(&e, &mut ctx, &mut global), num(8));
}

#[test]
fn vector_power_matched_length_is_elementwise() {
    let a = Value::Vector(vec![num(2), num(3)]);
    let b = Value::Vector(vec![num(3), num(2)]);
    assert_eq!(Value::pow(&a, &b), Value::Vector(vec![num(8), num(9)]));
}

#[test]
fn vector_power_mismatched_length_is_error() {
    let a = Value::Vector(vec![num(2), num(3)]);
    let b = Value::Vector(vec![num(3)]);
    assert_eq!(
        Value::pow(&a, &b),
        Value::Error("vectors must have same length to be exponentiated".to_string())
    );
}

#[test]
fn vector_root_matched_length_is_elementwise() {
    // degree one roots: each value itself
    let degrees = Value::Vector(vec![num(1), num(1)]);
    let values = Value::Vector(vec![num(4), num(9)]);
    assert_eq!(
        Value::root(&degrees, &values),
        Value::Vector(vec![num(4), num(9)])
    );
}

#[test]
fn vector_root_mismatched_length_is_error() {
    let degrees = Value::Vector(vec![num(1)]);
    let values = Value::Vector(vec![num(4), num(9)]);
    assert_eq!(
        Value::root(&degrees, &values),
        Value::Error("vectors must have same length to be rooted".to_string())
    );
}

#[test]
fn vector_comparison_matched_length_is_elementwise() {
    let a = Value::Vector(vec![num(3), num(1)]);
    let b = Value::Vector(vec![num(2), num(2)]);
    assert_eq!(
        Value::compare(&a, &b, ComparisonResult::GreaterThan),
        Value::Vector(vec![Value::Boolean(true), Value::Boolean(false)])
    );
}

#[test]
fn vector_comparison_mismatched_length_is_error() {
    let a = Value::Vector(vec![num(3)]);
    let b = Value::Vector(vec![num(2), num(2)]);
    assert_eq!(
        Value::compare(&a, &b, ComparisonResult::Equal),
        Value::Error("vectors must have same length to be compared".to_string())
    );
}
