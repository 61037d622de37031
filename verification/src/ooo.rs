//! The order-of-operations normalizer. After every mutation the tree is
//! re-associated: a binary node whose right child binds at least as
//! strongly is rotated left, so that text typed left to right, which the
//! mutation engine builds as a right-leaning tree, regains the shape its
//! operator precedences ask for. Parentheses, graph wrappers, summations
//! and lambdas are barriers: recursion enters them, rotation never
//! crosses them.

use vstd::prelude::*;
use crate::expr::{BinaryOperation, Expression, ExprView, expr_view};
use crate::idx::IdGen;

verus! {

/// Binding strength classes, weakest first.
#[derive(Clone, Copy, Debug, PartialEq, PartialOrd)]
pub enum Precedence {
    Value,
    Parenthesis,
    Storage,
    Unary,
    Exponent,
    Factor,
    Term,
    Comparison,
    And,
    Or,
    Summation,
    Lambda,
}

/// The numeric rank of a precedence class.
pub open spec fn spec_rank(p: Precedence) -> nat {
    match p {
        Precedence::Value => 0,
        Precedence::Parenthesis => 1,
        Precedence::Storage => 2,
        Precedence::Unary => 3,
        Precedence::Exponent => 4,
        Precedence::Factor => 5,
        Precedence::Term => 6,
        Precedence::Comparison => 7,
        Precedence::And => 8,
        Precedence::Or => 9,
        Precedence::Summation => 10,
        Precedence::Lambda => 11,
    }
}

impl Precedence {
    /// The numeric rank, for comparing binding strengths.
    pub fn rank(&self) -> (r: u8)
        ensures
            r as nat == spec_rank(*self),
    {
        match self {
            Precedence::Value => 0,
            Precedence::Parenthesis => 1,
            Precedence::Storage => 2,
            Precedence::Unary => 3,
            Precedence::Exponent => 4,
            Precedence::Factor => 5,
            Precedence::Term => 6,
            Precedence::Comparison => 7,
            Precedence::And => 8,
            Precedence::Or => 9,
            Precedence::Summation => 10,
            Precedence::Lambda => 11,
        }
    }
}

/// The precedence class of a binary operation.
pub open spec fn spec_binop_precedence(op: BinaryOperation) -> Precedence {
    match op {
        BinaryOperation::Add => Precedence::Term,
        BinaryOperation::Sub => Precedence::Term,
        BinaryOperation::Multiply => Precedence::Factor,
        BinaryOperation::Divide => Precedence::Factor,
        BinaryOperation::Power => Precedence::Exponent,
        BinaryOperation::Root => Precedence::Exponent,
        BinaryOperation::Invoke => Precedence::Lambda,
        BinaryOperation::Store => Precedence::Storage,
        BinaryOperation::GreaterThan => Precedence::Comparison,
        BinaryOperation::LessThan => Precedence::Comparison,
        BinaryOperation::GreaterThanOrEqual => Precedence::Comparison,
        BinaryOperation::LessThanOrEqual => Precedence::Comparison,
        BinaryOperation::Equal => Precedence::Comparison,
    }
}

/// The precedence class of a node: literals, vectors, summations and
/// lambdas sit at the value level and are never rotated; parentheses and
/// graph wrappers are barriers.
pub open spec fn spec_precedence(e: ExprView) -> Precedence {
    match e {
        ExprView::Unary { .. } => Precedence::Unary,
        ExprView::Binary { op, .. } => spec_binop_precedence(op),
        ExprView::Vector { .. } => Precedence::Value,
        ExprView::Literal { .. } => Precedence::Value,
        ExprView::Parenthesis { .. } => Precedence::Parenthesis,
        ExprView::GraphExpression { .. } => Precedence::Parenthesis,
        ExprView::Summation { .. } => Precedence::Value,
        ExprView::Lambda { .. } => Precedence::Value,
    }
}

impl Expression {
    /// The precedence class of this node.
    pub fn precedence(&self) -> (r: Precedence)
        ensures
            r == spec_precedence(self@),
    {
        match self {
            Expression::Unary { .. } => Precedence::Unary,
            Expression::Binary { op, .. } => match op {
                BinaryOperation::Add => Precedence::Term,
                BinaryOperation::Sub => Precedence::Term,
                BinaryOperation::Multiply => Precedence::Factor,
                BinaryOperation::Divide => Precedence::Factor,
                BinaryOperation::Power => Precedence::Exponent,
                BinaryOperation::Root => Precedence::Exponent,
                BinaryOperation::Invoke => Precedence::Lambda,
                BinaryOperation::Store => Precedence::Storage,
                BinaryOperation::GreaterThan => Precedence::Comparison,
                BinaryOperation::LessThan => Precedence::Comparison,
                BinaryOperation::GreaterThanOrEqual => Precedence::Comparison,
                BinaryOperation::LessThanOrEqual => Precedence::Comparison,
                BinaryOperation::Equal => Precedence::Comparison,
            },
            Expression::Vector { .. } => Precedence::Value,
            Expression::Literal { .. } => Precedence::Value,
            Expression::Parenthesis { .. } => Precedence::Parenthesis,
            Expression::GraphExpression { .. } => Precedence::Parenthesis,
            Expression::Summation { .. } => Precedence::Value,
            Expression::Lambda { .. } => Precedence::Value,
        }
    }
}

/// One normalization pass. Children are normalized first; then a binary
/// node whose right child was itself binary, and whose right child's
/// binding strength before the pass was not strictly weaker than the
/// node's own, rotates left: the right child's operator becomes the root,
/// and a new node `op(lhs, right.lhs)` becomes its left operand. Unary,
/// parenthesis and graph nodes recurse; a summation recurses into its
/// body and bounds, a lambda into its parameter and body; literals and
/// vectors stay as they are.
pub open spec fn spec_enforce(e: ExprView) -> ExprView
    decreases e,
{
    match e {
        ExprView::Binary { op, lhs, rhs } => {
            let rp = spec_rank(spec_precedence(*rhs));
            let sp = spec_rank(spec_precedence(e));
            let l = spec_enforce(*lhs);
            let r = spec_enforce(*rhs);
            match r {
                ExprView::Binary { op: rop, lhs: rl, rhs: rr } => {
                    if rp < sp {
                        ExprView::Binary {
                            op,
                            lhs: Box::new(l),
                            rhs: Box::new(ExprView::Binary { op: rop, lhs: rl, rhs: rr }),
                        }
                    } else {
                        ExprView::Binary {
                            op: rop,
                            lhs: Box::new(ExprView::Binary { op, lhs: Box::new(l), rhs: rl }),
                            rhs: rr,
                        }
                    }
                },
                _ => ExprView::Binary { op, lhs: Box::new(l), rhs: Box::new(r) },
            }
        },
        ExprView::Unary { operation, expr } => ExprView::Unary {
            operation,
            expr: Box::new(spec_enforce(*expr)),
        },
        ExprView::GraphExpression { expr } => ExprView::GraphExpression {
            expr: Box::new(spec_enforce(*expr)),
        },
        ExprView::Parenthesis { expr, unbox_to_binop } => ExprView::Parenthesis {
            expr: Box::new(spec_enforce(*expr)),
            unbox_to_binop,
        },
        ExprView::Summation { minimum, maximum, variable, expression } => ExprView::Summation {
            minimum: Box::new(spec_enforce(*minimum)),
            maximum: Box::new(spec_enforce(*maximum)),
            variable,
            expression: Box::new(spec_enforce(*expression)),
        },
        ExprView::Lambda { variable, expr } => ExprView::Lambda {
            variable: Box::new(spec_enforce(*variable)),
            expr: Box::new(spec_enforce(*expr)),
        },
        _ => e,
    }
}

/// A tree and its view always share their head constructor.
proof fn lemma_view_is_binary(e: Expression)
    ensures
        (expr_view(e) is Binary) == (e is Binary),
{
    match e {
        Expression::Binary { .. } => {},
        _ => {},
    }
}

impl Expression {
    /// Normalizes an owned tree, handing out identifiers for the nodes a
    /// rotation creates.
    fn enforce_node(e: Expression, gen: &mut IdGen) -> (r: Expression)
        ensures
            r@ == spec_enforce(e@),
        decreases e,
    {
        let ghost e0 = e;
        let sp = e.precedence().rank();
        match e {
            Expression::Binary { op, lhs, rhs, id } => {
                let ghost lv = (*lhs)@;
                let ghost rv = (*rhs)@;
                proof {
                    assert(e0@ == (ExprView::Binary { op, lhs: Box::new(lv), rhs: Box::new(rv) }));
                }
                let rp = rhs.precedence().rank();
                let l = Self::enforce_node(*lhs, gen);
                let r = Self::enforce_node(*rhs, gen);
                proof {
                    assert(l@ == spec_enforce(lv));
                    assert(r@ == spec_enforce(rv));
                    lemma_view_is_binary(r);
                }
                let ghost target = spec_enforce(e0@);
                match r {
                    Expression::Binary { op: rop, lhs: rl, rhs: rr, id: rid } => {
                        if rp < sp {
                            let out = Expression::Binary {
                                op,
                                lhs: Box::new(l),
                                rhs: Box::new(
                                    Expression::Binary { op: rop, lhs: rl, rhs: rr, id: rid },
                                ),
                                id,
                            };
                            proof {
                                assert(out@ == target);
                            }
                            out
                        } else {
                            let inner_id = gen.new_id();
                            let outer_id = gen.new_id();
                            let out = Expression::Binary {
                                op: rop,
                                lhs: Box::new(
                                    Expression::Binary {
                                        op,
                                        lhs: Box::new(l),
                                        rhs: rl,
                                        id: inner_id,
                                    },
                                ),
                                rhs: rr,
                                id: outer_id,
                            };
                            proof {
                                reveal_with_fuel(expr_view, 3);
                                assert(out@ == target);
                            }
                            out
                        }
                    },
                    other => {
                        let out = Expression::Binary {
                            op,
                            lhs: Box::new(l),
                            rhs: Box::new(other),
                            id,
                        };
                        proof {
                            assert(out@ == target);
                        }
                        out
                    },
                }
            },
            Expression::Unary { operation, expr, id } => Expression::Unary {
                operation,
                expr: Box::new(Self::enforce_node(*expr, gen)),
                id,
            },
            Expression::GraphExpression { expr } => Expression::GraphExpression {
                expr: Box::new(Self::enforce_node(*expr, gen)),
            },
            Expression::Parenthesis { expr, id, unbox_to_binop } => Expression::Parenthesis {
                expr: Box::new(Self::enforce_node(*expr, gen)),
                id,
                unbox_to_binop,
            },
            Expression::Summation { minimum, maximum, variable, expression } => {
                let ne = Self::enforce_node(*expression, gen);
                let nmax = Self::enforce_node(*maximum, gen);
                let nmin = Self::enforce_node(*minimum, gen);
                Expression::Summation {
                    minimum: Box::new(nmin),
                    maximum: Box::new(nmax),
                    variable,
                    expression: Box::new(ne),
                }
            },
            Expression::Lambda { variable, expr } => Expression::Lambda {
                variable: Box::new(Self::enforce_node(*variable, gen)),
                expr: Box::new(Self::enforce_node(*expr, gen)),
            },
            other => other,
        }
    }

    /// Restores the order-of-operations invariant after a mutation.
    pub fn enforce_ooo(&mut self, gen: &mut IdGen)
        ensures
            final(self)@ == spec_enforce(old(self)@),
    {
        let mut tmp = Expression::Literal { content: String::new(), id: 0, new_literal: false };
        core::mem::swap(self, &mut tmp);
        let done = Self::enforce_node(tmp, gen);
        *self = done;
    }
}

} // verus!
