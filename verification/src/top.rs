//! The answer cache behind a tracked top-level expression. Each tracked
//! tree carries a structural fingerprint; when a refresh finds the
//! fingerprint changed, the cached answer is dropped and the caller knows
//! to recompute it. The fingerprint is a pure function of the tree's
//! mathematical view, so two structurally equal trees always agree on it.
//! The surrounding program owns the locking and the background tasks that
//! recompute answers; this module makes the invalidation decisions.

use vstd::prelude::*;
use crate::expr::{Expression, ExprView, expr_view};
use crate::values::Value;

verus! {

/// One mixing step of the fingerprint: fold a word into the accumulator.
pub open spec fn spec_mix(h: u64, x: u64) -> u64 {
    (((h ^ x) as nat * 1099511628211) % 0x1_0000_0000_0000_0000) as u64
}

fn mix(h: u64, x: u64) -> (r: u64)
    ensures
        r == spec_mix(h, x),
{
    (h ^ x).wrapping_mul(1099511628211)
}

/// The fingerprint of a character sequence.
pub open spec fn spec_hash_chars(h: u64, s: Seq<char>) -> u64
    decreases s,
{
    if s.len() == 0 {
        h
    } else {
        spec_mix(spec_hash_chars(h, s.drop_last()), s.last() as u64)
    }
}

/// The numeric tag of a node variant.
pub open spec fn spec_variant_tag(e: ExprView) -> u64 {
    match e {
        ExprView::Unary { .. } => 1,
        ExprView::Binary { .. } => 2,
        ExprView::Vector { .. } => 3,
        ExprView::Literal { .. } => 4,
        ExprView::Parenthesis { .. } => 5,
        ExprView::GraphExpression { .. } => 6,
        ExprView::Summation { .. } => 7,
        ExprView::Lambda { .. } => 8,
    }
}

/// The structural fingerprint of a tree view: variant tags, operator
/// ordinals and literal text folded left to right.
pub open spec fn spec_hash_expr(h: u64, e: ExprView) -> u64
    decreases e, 0nat,
    via spec_hash_expr_decreases
{
    let h0 = spec_mix(h, spec_variant_tag(e));
    match e {
        ExprView::Unary { operation, expr } => spec_hash_expr(
            spec_mix(h0, crate::top::spec_unop_ordinal(operation)),
            *expr,
        ),
        ExprView::Binary { op, lhs, rhs } => spec_hash_expr(
            spec_hash_expr(spec_mix(h0, crate::top::spec_binop_ordinal(op)), *lhs),
            *rhs,
        ),
        ExprView::Vector { exprs } => spec_hash_exprs(h0, exprs),
        ExprView::Literal { content, .. } => spec_hash_chars(h0, content),
        ExprView::Parenthesis { expr, .. } => spec_hash_expr(h0, *expr),
        ExprView::GraphExpression { expr } => spec_hash_expr(h0, *expr),
        ExprView::Summation { minimum, maximum, variable, expression } => spec_hash_expr(
            spec_hash_expr(spec_hash_expr(spec_hash_expr(h0, *minimum), *maximum), *variable),
            *expression,
        ),
        ExprView::Lambda { variable, expr } => spec_hash_expr(spec_hash_expr(h0, *variable), *expr),
    }
}

#[via_fn]
proof fn spec_hash_expr_decreases(h: u64, e: ExprView) {
    match e {
        ExprView::Vector { exprs } => {
            assert(decreases_to!(e => exprs));
        },
        _ => {},
    }
}

/// The fingerprint of a sequence of trees.
pub open spec fn spec_hash_exprs(h: u64, s: Seq<ExprView>) -> u64
    decreases s, 1nat,
    via spec_hash_exprs_decreases
{
    if s.len() == 0 {
        h
    } else {
        spec_hash_expr(spec_hash_exprs(h, s.drop_last()), s.last())
    }
}

#[via_fn]
proof fn spec_hash_exprs_decreases(h: u64, s: Seq<ExprView>) {
    if s.len() > 0 {
        vstd::seq::axiom_seq_subrange_decreases(s, 0, s.len() - 1);
        assert(s.drop_last() == s.subrange(0, s.len() - 1));
        assert(decreases_to!(s => s[s.len() - 1]));
    }
}

/// The ordinal of a unary operation, for hashing.
pub open spec fn spec_unop_ordinal(op: crate::expr::UnaryOperation) -> u64 {
    match op {
        crate::expr::UnaryOperation::Negate => 0,
        crate::expr::UnaryOperation::Sin => 1,
        crate::expr::UnaryOperation::Cos => 2,
        crate::expr::UnaryOperation::Tan => 3,
        crate::expr::UnaryOperation::InverseSin => 4,
        crate::expr::UnaryOperation::InverseCos => 5,
        crate::expr::UnaryOperation::InverseTan => 6,
        crate::expr::UnaryOperation::HyperbolicSin => 7,
        crate::expr::UnaryOperation::HyperbolicCos => 8,
        crate::expr::UnaryOperation::HyperbolicTan => 9,
        crate::expr::UnaryOperation::InverseHyperbolicSin => 10,
        crate::expr::UnaryOperation::InverseHyperbolicCos => 11,
        crate::expr::UnaryOperation::InverseHyperbolicTan => 12,
    }
}

/// The ordinal of a binary operation, for hashing.
pub open spec fn spec_binop_ordinal(op: crate::expr::BinaryOperation) -> u64 {
    match op {
        crate::expr::BinaryOperation::Add => 0,
        crate::expr::BinaryOperation::Sub => 1,
        crate::expr::BinaryOperation::Multiply => 2,
        crate::expr::BinaryOperation::Divide => 3,
        crate::expr::BinaryOperation::Power => 4,
        crate::expr::BinaryOperation::Root => 5,
        crate::expr::BinaryOperation::Store => 6,
        crate::expr::BinaryOperation::Invoke => 7,
        crate::expr::BinaryOperation::GreaterThan => 8,
        crate::expr::BinaryOperation::LessThan => 9,
        crate::expr::BinaryOperation::GreaterThanOrEqual => 10,
        crate::expr::BinaryOperation::LessThanOrEqual => 11,
        crate::expr::BinaryOperation::Equal => 12,
    }
}

fn unop_ordinal(op: crate::expr::UnaryOperation) -> (r: u64)
    ensures
        r == spec_unop_ordinal(op),
{
    match op {
        crate::expr::UnaryOperation::Negate => 0,
        crate::expr::UnaryOperation::Sin => 1,
        crate::expr::UnaryOperation::Cos => 2,
        crate::expr::UnaryOperation::Tan => 3,
        crate::expr::UnaryOperation::InverseSin => 4,
        crate::expr::UnaryOperation::InverseCos => 5,
        crate::expr::UnaryOperation::InverseTan => 6,
        crate::expr::UnaryOperation::HyperbolicSin => 7,
        crate::expr::UnaryOperation::HyperbolicCos => 8,
        crate::expr::UnaryOperation::HyperbolicTan => 9,
        crate::expr::UnaryOperation::InverseHyperbolicSin => 10,
        crate::expr::UnaryOperation::InverseHyperbolicCos => 11,
        crate::expr::UnaryOperation::InverseHyperbolicTan => 12,
    }
}

fn binop_ordinal(op: crate::expr::BinaryOperation) -> (r: u64)
    ensures
        r == spec_binop_ordinal(op),
{
    match op {
        crate::expr::BinaryOperation::Add => 0,
        crate::expr::BinaryOperation::Sub => 1,
        crate::expr::BinaryOperation::Multiply => 2,
        crate::expr::BinaryOperation::Divide => 3,
        crate::expr::BinaryOperation::Power => 4,
        crate::expr::BinaryOperation::Root => 5,
        crate::expr::BinaryOperation::Store => 6,
        crate::expr::BinaryOperation::Invoke => 7,
        crate::expr::BinaryOperation::GreaterThan => 8,
        crate::expr::BinaryOperation::LessThan => 9,
        crate::expr::BinaryOperation::GreaterThanOrEqual => 10,
        crate::expr::BinaryOperation::LessThanOrEqual => 11,
        crate::expr::BinaryOperation::Equal => 12,
    }
}

impl Expression {
    /// The structural fingerprint of this tree: equal for structurally
    /// equal trees, whatever their node identifiers.
    #[verifier::loop_isolation(false)]
    pub fn structural_hash_from(&self, h: u64) -> (r: u64)
        ensures
            r == spec_hash_expr(h, self@),
        decreases *self,
    {
        match self {
            Expression::Unary { operation, expr, .. } => {
                let h0 = mix(mix(h, 1), unop_ordinal(*operation));
                expr.structural_hash_from(h0)
            },
            Expression::Binary { op, lhs, rhs, .. } => {
                let h0 = mix(mix(h, 2), binop_ordinal(*op));
                let hl = lhs.structural_hash_from(h0);
                rhs.structural_hash_from(hl)
            },
            Expression::Vector { exprs, .. } => {
                let mut acc = mix(h, 3);
                let mut i: usize = 0;
                proof {
                    crate::expr::lemma_exprs_view_index(exprs@);
                    assert(crate::expr::exprs_view(exprs@).subrange(0, 0)
                        =~= Seq::<ExprView>::empty());
                }
                while i < exprs.len()
                    invariant
                        i <= exprs@.len(),
                        acc == spec_hash_exprs(
                            spec_mix(h, 3),
                            crate::expr::exprs_view(exprs@).subrange(0, i as int),
                        ),
                    decreases exprs@.len() - i,
                {
                    proof {
                        let ghost whole = *self;
                        assert(decreases_to!(whole => *exprs));
                        assert(decreases_to!(*exprs => exprs@));
                        assert(decreases_to!(exprs@ => exprs@[i as int]));
                    }
                    let n = exprs[i].structural_hash_from(acc);
                    acc = n;
                    i = i + 1;
                    proof {
                        let ghost vs = crate::expr::exprs_view(exprs@);
                        assert(vs.subrange(0, i as int).drop_last() =~= vs.subrange(0, i - 1));
                        assert(vs.subrange(0, i as int).last() == vs[i - 1]);
                        assert(vs[i - 1] == expr_view(exprs@[i - 1]));
                    }
                }
                proof {
                    assert(crate::expr::exprs_view(exprs@).subrange(
                        0,
                        exprs@.len() as int,
                    ) =~= crate::expr::exprs_view(exprs@));
                }
                acc
            },
            Expression::Literal { content, .. } => {
                let h0 = mix(h, 4);
                let chars = crate::strings::str_to_chars(content.as_str());
                let mut acc = h0;
                let mut i: usize = 0;
                proof {
                    assert(content@.subrange(0, 0) =~= Seq::<char>::empty());
                }
                while i < chars.len()
                    invariant
                        i <= chars@.len(),
                        chars@ == content@,
                        acc == spec_hash_chars(spec_mix(h, 4), content@.subrange(0, i as int)),
                    decreases chars@.len() - i,
                {
                    let c = chars[i];
                    acc = mix(acc, c as u64);
                    i = i + 1;
                    proof {
                        assert(content@.subrange(0, i as int).drop_last() =~= content@.subrange(
                            0,
                            i - 1,
                        ));
                        assert(content@.subrange(0, i as int).last() == content@[i - 1]);
                    }
                }
                proof {
                    assert(content@.subrange(0, content@.len() as int) =~= content@);
                }
                acc
            },
            Expression::Parenthesis { expr, .. } => {
                let h0 = mix(h, 5);
                expr.structural_hash_from(h0)
            },
            Expression::GraphExpression { expr } => {
                let h0 = mix(h, 6);
                expr.structural_hash_from(h0)
            },
            Expression::Summation { minimum, maximum, variable, expression } => {
                let h0 = mix(h, 7);
                let h1 = minimum.structural_hash_from(h0);
                let h2 = maximum.structural_hash_from(h1);
                let h3 = variable.structural_hash_from(h2);
                expression.structural_hash_from(h3)
            },
            Expression::Lambda { variable, expr } => {
                let h0 = mix(h, 8);
                let h1 = variable.structural_hash_from(h0);
                expr.structural_hash_from(h1)
            },
        }
    }

    /// The structural fingerprint, from the standard seed.
    pub fn structural_hash(&self) -> (r: u64)
        ensures
            r == spec_hash_expr(14695981039346656037, self@),
    {
        self.structural_hash_from(14695981039346656037)
    }
}

/// A tracked top-level expression: the tree, the fingerprint it had when
/// its answer was last computed, and the cached answer. The fingerprint
/// starts at the maximum value, which marks the cache as never filled.
pub struct TopLevelExpression {
    pub expression: Expression,
    pub expression_hash: u64,
    pub answer_cached: Option<Value>,
}

impl TopLevelExpression {
    /// Tracks a tree, with nothing cached yet.
    pub fn new(expression: Expression) -> (r: TopLevelExpression)
        ensures
            r.expression@ == expression@,
            r.expression_hash == u64::MAX,
            r.answer_cached is None,
    {
        TopLevelExpression { expression, expression_hash: u64::MAX, answer_cached: None }
    }

    /// Recomputes the fingerprint; when it differs from the stored one,
    /// the stale answer is dropped, the fingerprint stored, and the
    /// caller told to schedule a recomputation.
    pub fn refresh(&mut self) -> (changed: bool)
        ensures
            changed == (spec_hash_expr(14695981039346656037, old(self).expression@) != old(
                self,
            ).expression_hash),
            final(self).expression@ == old(self).expression@,
            final(self).expression_hash == spec_hash_expr(
                14695981039346656037,
                old(self).expression@,
            ),
            !changed ==> final(self).answer_cached == old(self).answer_cached,
            changed ==> final(self).answer_cached is None,
    {
        let h = self.expression.structural_hash();
        if h != self.expression_hash {
            self.expression_hash = h;
            self.answer_cached = None;
            true
        } else {
            false
        }
    }

    /// Stores a freshly computed answer.
    pub fn store_answer(&mut self, answer: Value)
        ensures
            final(self).answer_cached is Some && final(self).answer_cached->0@ == answer@,
            final(self).expression@ == old(self).expression@,
            final(self).expression_hash == old(self).expression_hash,
    {
        self.answer_cached = Some(answer);
    }
}

} // verus!
