//! Mutation engine and normalizer behavior: trigger rules, emptiness
//! collapse, idempotence, and precedence rotation.

use calculator::expr::{BinaryOperation, Expression, UnaryOperation};
use calculator::idx::IdGen;
use calculator::ooo::Precedence;

fn lit(s: &str) -> Expression {
    Expression::Literal { content: s.to_string(), id: 0, new_literal: false }
}

fn binary(op: BinaryOperation, lhs: Expression, rhs: Expression) -> Expression {
    Expression::Binary { op, lhs: Box::new(lhs), rhs: Box::new(rhs), id: 0 }
}

#[test]
fn plus_suffix_builds_addition_node() {
    let mut gen = IdGen::new();
    let mut e = lit("2+");
    e.update(&mut gen);
    match &e {
        Expression::Binary { op: BinaryOperation::Add, lhs, rhs, .. } => {
            match (&**lhs, &**rhs) {
                (
                    Expression::Literal { content: l, .. },
                    Expression::Literal { content: r, .. },
                ) => {
                    assert_eq!(l, "2");
                    assert_eq!(r, "");
                }
                other => panic!("unexpected children {:?}", other),
            }
        }
        other => panic!("expected an addition node, got {:?}", other),
    }
}

#[test]
fn lone_negation_builds_unary_negate() {
    let mut gen = IdGen::new();
    let mut e = lit("-");
    e.update(&mut gen);
    match &e {
        Expression::Unary { operation: UnaryOperation::Negate, expr, .. } => match &**expr {
            Expression::Literal { content, .. } => assert_eq!(content, "?"),
            other => panic!("unexpected operand {:?}", other),
        },
        other => panic!("expected a negation node, got {:?}", other),
    }
}

#[test]
fn trailing_minus_after_text_builds_subtraction() {
    let mut gen = IdGen::new();
    let mut e = lit("5-");
    e.update(&mut gen);
    assert!(matches!(
        e,
        Expression::Binary { op: BinaryOperation::Sub, .. }
    ));
}

#[test]
fn sin_prefix_builds_unary_sine() {
    let mut gen = IdGen::new();
    let mut e = lit("sin");
    e.update(&mut gen);
    assert!(matches!(
        e,
        Expression::Unary { operation: UnaryOperation::Sin, .. }
    ));
}

#[test]
fn asin_prefix_builds_inverse_sine() {
    let mut gen = IdGen::new();
    let mut e = lit("asin");
    e.update(&mut gen);
    assert!(matches!(
        e,
        Expression::Unary { operation: UnaryOperation::InverseSin, .. }
    ));
}

#[test]
fn open_bracket_builds_vector() {
    let mut gen = IdGen::new();
    let mut e = lit("[");
    e.update(&mut gen);
    match &e {
        Expression::Vector { exprs, .. } => assert!(exprs.is_empty()),
        other => panic!("expected a vector node, got {:?}", other),
    }
}

#[test]
fn graph_prefix_builds_graph_wrapper() {
    let mut gen = IdGen::new();
    let mut e = lit("graph");
    e.update(&mut gen);
    assert!(matches!(e, Expression::GraphExpression { .. }));
}

#[test]
fn sum_suffix_builds_summation_with_four_placeholders() {
    let mut gen = IdGen::new();
    let mut e = lit("sum");
    e.update(&mut gen);
    assert!(matches!(e, Expression::Summation { .. }));
}

#[test]
fn fn_prefix_builds_lambda() {
    let mut gen = IdGen::new();
    let mut e = lit("fn");
    e.update(&mut gen);
    assert!(matches!(e, Expression::Lambda { .. }));
}

#[test]
fn lone_parenthesis_builds_parenthesis_node() {
    let mut gen = IdGen::new();
    let mut e = lit("(");
    e.update(&mut gen);
    assert!(matches!(e, Expression::Parenthesis { .. }));
}

#[test]
fn call_shape_builds_invoke_node() {
    let mut gen = IdGen::new();
    let mut e = lit("f(");
    e.update(&mut gen);
    assert!(matches!(
        e,
        Expression::Binary { op: BinaryOperation::Invoke, .. }
    ));
}

#[test]
fn root_suffix_builds_root_node() {
    let mut gen = IdGen::new();
    let mut e = lit("2rt");
    e.update(&mut gen);
    match &e {
        Expression::Binary { op: BinaryOperation::Root, lhs, .. } => match &**lhs {
            Expression::Literal { content, .. } => assert_eq!(content, "2"),
            other => panic!("unexpected left child {:?}", other),
        },
        other => panic!("expected a root node, got {:?}", other),
    }
}

#[test]
fn greek_names_become_glyphs() {
    let mut gen = IdGen::new();
    let mut e = lit("2pi");
    e.update(&mut gen);
    match &e {
        Expression::Literal { content, .. } => assert_eq!(content, "2π"),
        other => panic!("expected a literal, got {:?}", other),
    }
}

#[test]
fn leading_focus_marker_is_stripped() {
    let mut gen = IdGen::new();
    let mut e = lit("?5");
    e.update(&mut gen);
    match &e {
        Expression::Literal { content, .. } => assert_eq!(content, "5"),
        other => panic!("expected a literal, got {:?}", other),
    }
}

#[test]
fn lone_focus_marker_is_kept() {
    let mut gen = IdGen::new();
    let mut e = lit("?");
    e.update(&mut gen);
    match &e {
        Expression::Literal { content, .. } => assert_eq!(content, "?"),
        other => panic!("expected a literal, got {:?}", other),
    }
}

#[test]
fn binary_with_two_empty_literals_collapses() {
    let mut gen = IdGen::new();
    let mut e = binary(BinaryOperation::Add, lit(""), lit(""));
    e.update(&mut gen);
    match &e {
        Expression::Literal { content, .. } => assert_eq!(content, ""),
        other => panic!("expected a collapse to an empty literal, got {:?}", other),
    }
}

#[test]
fn unary_with_empty_operand_collapses() {
    let mut gen = IdGen::new();
    let mut e = Expression::Unary {
        operation: UnaryOperation::Sin,
        expr: Box::new(lit("")),
        id: 0,
    };
    e.update(&mut gen);
    assert!(matches!(e, Expression::Literal { .. }));
}

#[test]
fn summation_with_four_empty_literals_collapses() {
    let mut gen = IdGen::new();
    let mut e = Expression::Summation {
        minimum: Box::new(lit("")),
        maximum: Box::new(lit("")),
        variable: Box::new(lit("")),
        expression: Box::new(lit("")),
    };
    e.update(&mut gen);
    assert!(matches!(e, Expression::Literal { .. }));
}

#[test]
fn lambda_with_two_empty_literals_collapses() {
    let mut gen = IdGen::new();
    let mut e = Expression::Lambda { variable: Box::new(lit("")), expr: Box::new(lit("")) };
    e.update(&mut gen);
    assert!(matches!(e, Expression::Literal { .. }));
}

#[test]
fn pending_unwrap_becomes_left_operand_of_addition() {
    let mut gen = IdGen::new();
    let mut e = Expression::Parenthesis {
        expr: Box::new(lit("4")),
        id: 0,
        unbox_to_binop: true,
    };
    e.update(&mut gen);
    match &e {
        Expression::Binary { op: BinaryOperation::Add, lhs, .. } => match &**lhs {
            Expression::Parenthesis { unbox_to_binop, .. } => assert!(!unbox_to_binop),
            other => panic!("unexpected left child {:?}", other),
        },
        other => panic!("expected a wrapping addition, got {:?}", other),
    }
}

#[test]
fn mutation_is_idempotent_on_settled_output() {
    let mut gen = IdGen::new();
    let mut e = binary(
        BinaryOperation::Add,
        lit("2x"),
        binary(BinaryOperation::Multiply, lit("3"), lit("y")),
    );
    e.update(&mut gen);
    let once = e.structural_hash();
    e.update(&mut gen);
    let twice = e.structural_hash();
    assert_eq!(once, twice);
}

#[test]
fn mutation_of_plus_trigger_is_idempotent_in_shape() {
    let mut gen = IdGen::new();
    let mut e = lit("2+");
    e.update(&mut gen);
    let once = e.structural_hash();
    e.update(&mut gen);
    assert_eq!(e.structural_hash(), once);
}

#[test]
fn rotation_pulls_weaker_right_operator_to_the_root() {
    // a*(b+c), as typed left to right, becomes (a*b)+c
    let mut gen = IdGen::new();
    let mut e = binary(
        BinaryOperation::Multiply,
        lit("a"),
        binary(BinaryOperation::Add, lit("b"), lit("c")),
    );
    e.enforce_ooo(&mut gen);
    match &e {
        Expression::Binary { op: BinaryOperation::Add, lhs, rhs, .. } => {
            assert!(matches!(
                &**lhs,
                Expression::Binary { op: BinaryOperation::Multiply, .. }
            ));
            assert!(matches!(&**rhs, Expression::Literal { .. }));
        }
        other => panic!("expected the addition at the root, got {:?}", other),
    }
}

#[test]
fn no_rotation_when_right_side_binds_deeper() {
    // a+(b*c) stays as it is: the right child already binds its operands
    let mut gen = IdGen::new();
    let mut e = binary(
        BinaryOperation::Add,
        lit("a"),
        binary(BinaryOperation::Multiply, lit("b"), lit("c")),
    );
    e.enforce_ooo(&mut gen);
    assert!(matches!(
        e,
        Expression::Binary { op: BinaryOperation::Add, .. }
    ));
}

#[test]
fn parenthesis_is_a_rotation_barrier() {
    let mut gen = IdGen::new();
    let inner = binary(BinaryOperation::Add, lit("b"), lit("c"));
    let mut e = binary(
        BinaryOperation::Multiply,
        lit("a"),
        Expression::Parenthesis { expr: Box::new(inner), id: 0, unbox_to_binop: false },
    );
    e.enforce_ooo(&mut gen);
    assert!(matches!(
        e,
        Expression::Binary { op: BinaryOperation::Multiply, .. }
    ));
}

#[test]
fn precedence_classes_match_the_design() {
    assert_eq!(lit("x").precedence(), Precedence::Value);
    let add = binary(BinaryOperation::Add, lit("a"), lit("b"));
    assert_eq!(add.precedence(), Precedence::Term);
    let mul = binary(BinaryOperation::Multiply, lit("a"), lit("b"));
    assert_eq!(mul.precedence(), Precedence::Factor);
    let inv = binary(BinaryOperation::Invoke, lit("a"), lit("b"));
    assert_eq!(inv.precedence(), Precedence::Lambda);
    let store = binary(BinaryOperation::Store, lit("a"), lit("b"));
    assert_eq!(store.precedence(), Precedence::Storage);
}

#[test]
fn build_binop_strips_the_trigger_from_the_left_child() {
    let mut gen = IdGen::new();
    let mut e = lit("12*");
    e.build_binop(BinaryOperation::Multiply, "*", &mut gen);
    match &e {
        Expression::Binary { op: BinaryOperation::Multiply, lhs, .. } => match &**lhs {
            Expression::Literal { content, .. } => assert_eq!(content, "12"),
            other => panic!("unexpected left child {:?}", other),
        },
        other => panic!("expected a multiplication, got {:?}", other),
    }
}

#[test]
fn build_unop_wraps_a_focus_target() {
    let mut gen = IdGen::new();
    let mut e = lit("cos");
    e.build_unop(UnaryOperation::Cos, &mut gen);
    assert!(matches!(
        e,
        Expression::Unary { operation: UnaryOperation::Cos, .. }
    ));
}

#[test]
fn operation_symbols_render() {
    assert_eq!(UnaryOperation::Sin.to_string(), "sin");
    assert_eq!(UnaryOperation::InverseHyperbolicTan.to_string(), "tanh^-1");
    assert_eq!(BinaryOperation::Divide.to_string(), "÷");
    assert_eq!(BinaryOperation::Root.to_string(), "√");
    assert_eq!(BinaryOperation::Equal.to_string(), "==");
}

#[test]
fn identifier_generator_is_monotonic() {
    let mut gen = IdGen::new();
    let a = gen.new_id();
    let b = gen.new_id();
    let c = gen.new_id();
    assert!(a < b && b < c);
}

#[test]
fn update_recurses_into_vector_elements() {
    let mut gen = IdGen::new();
    let mut e = Expression::Vector { exprs: vec![lit("1+"), lit("cos")], id: 0 };
    e.update(&mut gen);
    match &e {
        Expression::Vector { exprs, .. } => {
            assert!(matches!(
                exprs[0],
                Expression::Binary { op: BinaryOperation::Add, .. }
            ));
            assert!(matches!(
                exprs[1],
                Expression::Unary { operation: UnaryOperation::Cos, .. }
            ));
        }
        other => panic!("expected a vector, got {:?}", other),
    }
}

#[test]
fn root_word_suffix_builds_root_node() {
    let mut gen = IdGen::new();
    let mut e = lit("2root");
    e.update(&mut gen);
    match &e {
        Expression::Binary { op: BinaryOperation::Root, lhs, .. } => match &**lhs {
            Expression::Literal { content, .. } => assert_eq!(content, "2"),
            other => panic!("unexpected left child {:?}", other),
        },
        other => panic!("expected a root node, got {:?}", other),
    }
}

#[test]
fn store_suffix_builds_store_node() {
    let mut gen = IdGen::new();
    let mut e = lit("x=");
    e.update(&mut gen);
    assert!(matches!(
        e,
        Expression::Binary { op: BinaryOperation::Store, .. }
    ));
}

#[test]
fn normalizer_recurses_into_lambda_bodies() {
    // a lambda body b*(c+d), typed left to right, is rotated to (b*c)+d
    let mut gen = IdGen::new();
    let mut e = Expression::Lambda {
        variable: Box::new(lit("x")),
        expr: Box::new(binary(
            BinaryOperation::Multiply,
            lit("b"),
            binary(BinaryOperation::Add, lit("c"), lit("d")),
        )),
    };
    e.enforce_ooo(&mut gen);
    match &e {
        Expression::Lambda { expr, .. } => {
            assert!(matches!(
                &**expr,
                Expression::Binary { op: BinaryOperation::Add, .. }
            ));
        }
        other => panic!("expected the lambda to survive, got {:?}", other),
    }
}

#[test]
fn settled_literal_keeps_its_identifier_across_passes() {
    let mut gen = IdGen::new();
    let mut e = Expression::Literal { content: "abc".to_string(), id: 7, new_literal: false };
    e.update(&mut gen);
    match &e {
        Expression::Literal { id, .. } => assert_eq!(*id, 7),
        other => panic!("expected the literal to survive, got {:?}", other),
    }
}
