//! The mutation engine: the calculator's incremental parser. After every
//! edit the tree is renormalized; a literal whose text has grown a trigger
//! shape is rewritten into the structured node that shape announces, and a
//! composite node whose relevant literal children are all empty collapses
//! back to one empty literal, letting the user delete their way to a blank
//! slate. Parsing happens continuously, one edit at a time, never as a
//! batch pass over finished input.

use vstd::prelude::*;
use crate::expr::{
    BinaryOperation, Expression, ExprView, UnaryOperation, expr_view, exprs_view,
    lemma_exprs_view_index, is_empty_literal,
};
use crate::idx::IdGen;
use crate::strings::{
    spec_starts_with, spec_ends_with, spec_replace, starts_with, ends_with, replace, str_to_chars,
    chars_to_string,
};

verus! {

/// A fresh literal carrying the given text.
pub open spec fn fresh_lit(s: Seq<char>) -> ExprView {
    ExprView::Literal { content: s, new_literal: true }
}

/// The spelled-out Greek letter names replaced by their glyphs, in order.
pub open spec fn spec_subst(c: Seq<char>) -> Seq<char> {
    let c1 = spec_replace(c, "pi"@, "π"@);
    let c2 = spec_replace(c1, "theta"@, "θ"@);
    let c3 = spec_replace(c2, "alpha"@, "α"@);
    let c4 = spec_replace(c3, "beta"@, "β"@);
    let c5 = spec_replace(c4, "gamma"@, "γ"@);
    let c6 = spec_replace(c5, "delta"@, "Δ"@);
    let c7 = spec_replace(c6, "phi"@, "φ"@);
    let c8 = spec_replace(c7, "psi"@, "ψ"@);
    spec_replace(c8, "omega"@, "ω"@)
}

/// The binary node a trigger suffix builds: the left child keeps the text
/// with every occurrence of the trigger removed, the right child is a
/// fresh empty literal awaiting input.
pub open spec fn spec_build_binop(op: BinaryOperation, pat: Seq<char>, c: Seq<char>) -> ExprView {
    ExprView::Binary {
        op,
        lhs: Box::new(
            ExprView::Literal { content: spec_replace(c, pat, Seq::empty()), new_literal: false },
        ),
        rhs: Box::new(fresh_lit(Seq::empty())),
    }
}

/// The unary node a trigger prefix builds, over a focus-target literal.
pub open spec fn spec_build_unop(op: UnaryOperation) -> ExprView {
    ExprView::Unary { operation: op, expr: Box::new(fresh_lit("?"@)) }
}

/// The rewriting of one literal, as an ordered match on its text; the
/// first matching trigger wins, and text without a trigger undergoes
/// symbol substitution and the stripping of a leading focus marker.
pub open spec fn spec_literal_update(c: Seq<char>, fresh: bool) -> ExprView {
    if spec_ends_with(c, "+"@) {
        spec_build_binop(BinaryOperation::Add, "+"@, c)
    } else if spec_ends_with(c, "-"@) {
        if spec_starts_with(c, "-"@) {
            spec_build_unop(UnaryOperation::Negate)
        } else {
            spec_build_binop(BinaryOperation::Sub, "-"@, c)
        }
    } else if spec_ends_with(c, "*"@) {
        spec_build_binop(BinaryOperation::Multiply, "*"@, c)
    } else if spec_ends_with(c, "/"@) {
        spec_build_binop(BinaryOperation::Divide, "/"@, c)
    } else if spec_ends_with(c, "^"@) {
        spec_build_binop(BinaryOperation::Power, "^"@, c)
    } else if spec_ends_with(c, "="@) {
        spec_build_binop(BinaryOperation::Store, "="@, c)
    } else if spec_ends_with(c, "rt"@) {
        spec_build_binop(BinaryOperation::Root, "rt"@, c)
    } else if spec_ends_with(c, "root"@) {
        spec_build_binop(BinaryOperation::Root, "root"@, c)
    } else if spec_starts_with(c, "("@) && spec_ends_with(c, "("@) {
        ExprView::Parenthesis { expr: Box::new(fresh_lit("?"@)), unbox_to_binop: false }
    } else if spec_starts_with(c, "["@) {
        ExprView::Vector { exprs: Seq::empty() }
    } else if spec_starts_with(c, "graph"@) {
        ExprView::GraphExpression { expr: Box::new(fresh_lit(Seq::empty())) }
    } else if spec_ends_with(c, "sum"@) {
        ExprView::Summation {
            minimum: Box::new(fresh_lit("?"@)),
            maximum: Box::new(fresh_lit("?"@)),
            variable: Box::new(fresh_lit("?"@)),
            expression: Box::new(fresh_lit("?"@)),
        }
    } else if spec_starts_with(c, "fn"@) {
        ExprView::Lambda {
            variable: Box::new(fresh_lit("x"@)),
            expr: Box::new(fresh_lit("x"@)),
        }
    } else if spec_ends_with(c, "("@) {
        spec_build_binop(BinaryOperation::Invoke, "("@, c)
    } else if spec_starts_with(c, "sin"@) {
        spec_build_unop(UnaryOperation::Sin)
    } else if spec_starts_with(c, "cos"@) {
        spec_build_unop(UnaryOperation::Cos)
    } else if spec_starts_with(c, "tan"@) {
        spec_build_unop(UnaryOperation::Tan)
    } else if spec_starts_with(c, "asin"@) {
        spec_build_unop(UnaryOperation::InverseSin)
    } else if spec_starts_with(c, "acos"@) {
        spec_build_unop(UnaryOperation::InverseCos)
    } else if spec_starts_with(c, "atan"@) {
        spec_build_unop(UnaryOperation::InverseTan)
    } else {
        let c2 = spec_subst(c);
        let c3 = if spec_starts_with(c2, "?"@) && c2 != "?"@ {
            c2.skip(1)
        } else {
            c2
        };
        ExprView::Literal { content: c3, new_literal: fresh }
    }
}

/// One mutation pass over a tree: literals rewrite by their trigger
/// shapes, children are renormalized, and composite nodes whose relevant
/// literal children all come out empty collapse to one empty literal. A
/// parenthesis whose one-shot unwrap flag is set becomes the left operand
/// of a fresh addition, the flag cleared.
pub open spec fn spec_update(e: ExprView) -> ExprView
    decreases e,
    via spec_update_decreases
{
    match e {
        ExprView::Binary { op, lhs, rhs } => {
            let l = spec_update(*lhs);
            let r = spec_update(*rhs);
            if is_empty_literal(l) && is_empty_literal(r) {
                fresh_lit(Seq::empty())
            } else {
                ExprView::Binary { op, lhs: Box::new(l), rhs: Box::new(r) }
            }
        },
        ExprView::Unary { operation, expr } => {
            let x = spec_update(*expr);
            if is_empty_literal(x) {
                fresh_lit(Seq::empty())
            } else {
                ExprView::Unary { operation, expr: Box::new(x) }
            }
        },
        ExprView::Literal { content, new_literal } => spec_literal_update(content, new_literal),
        ExprView::Vector { exprs } => ExprView::Vector { exprs: spec_update_seq(exprs) },
        ExprView::Parenthesis { expr, unbox_to_binop } => {
            let x = spec_update(*expr);
            if unbox_to_binop {
                ExprView::Binary {
                    op: BinaryOperation::Add,
                    lhs: Box::new(
                        ExprView::Parenthesis { expr: Box::new(x), unbox_to_binop: false },
                    ),
                    rhs: Box::new(fresh_lit("?"@)),
                }
            } else {
                ExprView::Parenthesis { expr: Box::new(x), unbox_to_binop: false }
            }
        },
        ExprView::GraphExpression { expr } => ExprView::GraphExpression {
            expr: Box::new(spec_update(*expr)),
        },
        ExprView::Summation { minimum, maximum, variable, expression } => {
            let nmin = spec_update(*minimum);
            let nmax = spec_update(*maximum);
            let nvar = spec_update(*variable);
            let nbody = spec_update(*expression);
            if is_empty_literal(nmin) && is_empty_literal(nmax) && is_empty_literal(nvar)
                && is_empty_literal(nbody) {
                fresh_lit(Seq::empty())
            } else {
                ExprView::Summation {
                    minimum: Box::new(nmin),
                    maximum: Box::new(nmax),
                    variable: Box::new(nvar),
                    expression: Box::new(nbody),
                }
            }
        },
        ExprView::Lambda { variable, expr } => {
            let nvar = spec_update(*variable);
            let nbody = spec_update(*expr);
            if is_empty_literal(nvar) && is_empty_literal(nbody) {
                fresh_lit(Seq::empty())
            } else {
                ExprView::Lambda { variable: Box::new(nvar), expr: Box::new(nbody) }
            }
        },
    }
}

#[via_fn]
proof fn spec_update_decreases(e: ExprView) {
    match e {
        ExprView::Vector { exprs } => {
            assert(decreases_to!(e => exprs));
        },
        _ => {},
    }
}

/// One mutation pass over each element.
pub open spec fn spec_update_seq(s: Seq<ExprView>) -> Seq<ExprView>
    decreases s,
    via spec_update_seq_decreases
{
    if s.len() == 0 {
        Seq::empty()
    } else {
        spec_update_seq(s.drop_last()).push(spec_update(s.last()))
    }
}

#[via_fn]
proof fn spec_update_seq_decreases(s: Seq<ExprView>) {
    if s.len() > 0 {
        vstd::seq::axiom_seq_subrange_decreases(s, 0, s.len() - 1);
        assert(s.drop_last() == s.subrange(0, s.len() - 1));
        assert(decreases_to!(s => s[s.len() - 1]));
    }
}

/// Elementwise mutation, by index.
pub proof fn lemma_update_seq_index(s: Seq<ExprView>)
    ensures
        spec_update_seq(s).len() == s.len(),
        forall|i: int| 0 <= i < s.len() ==> spec_update_seq(s)[i] == spec_update(#[trigger] s[i]),
    decreases s,
{
    if s.len() > 0 {
        vstd::seq::axiom_seq_subrange_decreases(s, 0, s.len() - 1);
        assert(s.drop_last() == s.subrange(0, s.len() - 1));
        lemma_update_seq_index(s.drop_last());
        assert(forall|i: int| 0 <= i < s.len() - 1 ==> #[trigger] s[i] == s.drop_last()[i]);
    }
}

impl Expression {
    /// A fresh focus-target literal.
    fn focus_literal(gen: &mut IdGen) -> (r: Expression)
        ensures
            r@ == fresh_lit("?"@),
    {
        Expression::Literal { content: "?".to_owned(), id: gen.new_id(), new_literal: true }
    }

    /// Builds the binary node a trigger suffix announces, out of a
    /// literal's text.
    fn mk_binop(op: BinaryOperation, pat: &str, content: &String, gen: &mut IdGen) -> (r:
        Expression)
        ensures
            r@ == spec_build_binop(op, pat@, content@),
    {
        proof {
            reveal_with_fuel(expr_view, 3);
        }
        let stripped = replace(content.as_str(), pat, "");
        proof {
            reveal_strlit("");
            assert(""@ =~= Seq::<char>::empty());
        }
        let lhs = Expression::Literal { content: stripped, id: gen.new_id(), new_literal: false };
        let rhs = Expression::Literal { content: String::new(), id: gen.new_id(), new_literal: true };
        Expression::Binary { op, lhs: Box::new(lhs), rhs: Box::new(rhs), id: gen.new_id() }
    }

    /// Rewrites this node, which must be a literal, into the binary node
    /// the trigger suffix announces. The mutation engine only ever calls
    /// this on the literal it has just dispatched on; that the node is a
    /// literal is a verified precondition, not a runtime failure.
    pub fn build_binop(&mut self, op: BinaryOperation, pat: &str, gen: &mut IdGen)
        requires
            *old(self) is Literal,
        ensures
            final(self)@ == spec_build_binop(op, pat@, lit_content(old(self)@)),
    {
        let content = match self {
            Expression::Literal { content, .. } => content.clone(),
            _ => {
                proof {
                    assert(false);
                }
                String::new()
            },
        };
        *self = Self::mk_binop(op, pat, &content, gen);
    }

    /// Rewrites this node, which must be a literal, into the unary node a
    /// trigger prefix announces, over a fresh focus-target literal. As
    /// with `build_binop`, the engine only ever calls this on the literal
    /// it has just dispatched on, and that is a verified precondition.
    pub fn build_unop(&mut self, op: UnaryOperation, gen: &mut IdGen)
        requires
            *old(self) is Literal,
        ensures
            final(self)@ == spec_build_unop(op),
    {
        let inner = Self::focus_literal(gen);
        *self = Expression::Unary { operation: op, expr: Box::new(inner), id: gen.new_id() };
    }

    /// Rewrites one literal's text by the ordered trigger rules. The
    /// rules stand in the order the engine has always applied them; where
    /// triggers overlap, the earlier rule wins (`fn(` becomes a lambda,
    /// not an invocation, and only text that both starts and ends with a
    /// parenthesis becomes a parenthesis node). A literal that matches no
    /// trigger survives the pass and keeps its identifier `id`; every
    /// rewritten shape is built from fresh identifiers.
    fn literal_update(content: &String, fresh: bool, id: u64, gen: &mut IdGen) -> (r: Expression)
        ensures
            r@ == spec_literal_update(content@, fresh),
    {
        proof {
            reveal_with_fuel(expr_view, 3);
        }
        let c = content.as_str();
        if ends_with(c, "+") {
            Self::mk_binop(BinaryOperation::Add, "+", content, gen)
        } else if ends_with(c, "-") {
            if starts_with(c, "-") {
                let inner = Self::focus_literal(gen);
                Expression::Unary {
                    operation: UnaryOperation::Negate,
                    expr: Box::new(inner),
                    id: gen.new_id(),
                }
            } else {
                Self::mk_binop(BinaryOperation::Sub, "-", content, gen)
            }
        } else if ends_with(c, "*") {
            Self::mk_binop(BinaryOperation::Multiply, "*", content, gen)
        } else if ends_with(c, "/") {
            Self::mk_binop(BinaryOperation::Divide, "/", content, gen)
        } else if ends_with(c, "^") {
            Self::mk_binop(BinaryOperation::Power, "^", content, gen)
        } else if ends_with(c, "=") {
            Self::mk_binop(BinaryOperation::Store, "=", content, gen)
        } else if ends_with(c, "rt") {
            Self::mk_binop(BinaryOperation::Root, "rt", content, gen)
        } else if ends_with(c, "root") {
            Self::mk_binop(BinaryOperation::Root, "root", content, gen)
        } else if starts_with(c, "(") && ends_with(c, "(") {
            let inner = Self::focus_literal(gen);
            Expression::Parenthesis {
                expr: Box::new(inner),
                id: gen.new_id(),
                unbox_to_binop: false,
            }
        } else if starts_with(c, "[") {
            Expression::Vector { exprs: Vec::new(), id: gen.new_id() }
        } else if starts_with(c, "graph") {
            let inner = Expression::empty_literal(gen);
            Expression::GraphExpression { expr: Box::new(inner) }
        } else if ends_with(c, "sum") {
            let minimum = Self::focus_literal(gen);
            let maximum = Self::focus_literal(gen);
            let variable = Self::focus_literal(gen);
            let expression = Self::focus_literal(gen);
            Expression::Summation {
                minimum: Box::new(minimum),
                maximum: Box::new(maximum),
                variable: Box::new(variable),
                expression: Box::new(expression),
            }
        } else if starts_with(c, "fn") {
            let variable = Expression::Literal {
                content: "x".to_owned(),
                id: gen.new_id(),
                new_literal: true,
            };
            let body = Expression::Literal {
                content: "x".to_owned(),
                id: gen.new_id(),
                new_literal: true,
            };
            Expression::Lambda { variable: Box::new(variable), expr: Box::new(body) }
        } else if ends_with(c, "(") {
            Self::mk_binop(BinaryOperation::Invoke, "(", content, gen)
        } else if starts_with(c, "sin") {
            let inner = Self::focus_literal(gen);
            Expression::Unary { operation: UnaryOperation::Sin, expr: Box::new(inner), id: gen.new_id() }
        } else if starts_with(c, "cos") {
            let inner = Self::focus_literal(gen);
            Expression::Unary { operation: UnaryOperation::Cos, expr: Box::new(inner), id: gen.new_id() }
        } else if starts_with(c, "tan") {
            let inner = Self::focus_literal(gen);
            Expression::Unary { operation: UnaryOperation::Tan, expr: Box::new(inner), id: gen.new_id() }
        } else if starts_with(c, "asin") {
            let inner = Self::focus_literal(gen);
            Expression::Unary {
                operation: UnaryOperation::InverseSin,
                expr: Box::new(inner),
                id: gen.new_id(),
            }
        } else if starts_with(c, "acos") {
            let inner = Self::focus_literal(gen);
            Expression::Unary {
                operation: UnaryOperation::InverseCos,
                expr: Box::new(inner),
                id: gen.new_id(),
            }
        } else if starts_with(c, "atan") {
            let inner = Self::focus_literal(gen);
            Expression::Unary {
                operation: UnaryOperation::InverseTan,
                expr: Box::new(inner),
                id: gen.new_id(),
            }
        } else {
            let c1 = replace(c, "pi", "π");
            let c2 = replace(c1.as_str(), "theta", "θ");
            let c3 = replace(c2.as_str(), "alpha", "α");
            let c4 = replace(c3.as_str(), "beta", "β");
            let c5 = replace(c4.as_str(), "gamma", "γ");
            let c6 = replace(c5.as_str(), "delta", "Δ");
            let c7 = replace(c6.as_str(), "phi", "φ");
            let c8 = replace(c7.as_str(), "psi", "ψ");
            let c9 = replace(c8.as_str(), "omega", "ω");
            let marker = "?".to_owned();
            let strip = starts_with(c9.as_str(), "?") && !c9.eq(&marker);
            let out = if strip {
                proof {
                    reveal_strlit("?");
                }
                let mut chars = str_to_chars(c9.as_str());
                chars.remove(0);
                proof {
                    assert(chars@ =~= c9@.skip(1));
                }
                chars_to_string(&chars)
            } else {
                c9
            };
            Expression::Literal { content: out, id, new_literal: fresh }
        }
    }

    /// One mutation pass over an owned tree.
    #[verifier::loop_isolation(false)]
    fn update_node(e: Expression, gen: &mut IdGen) -> (r: Expression)
        ensures
            r@ == spec_update(e@),
        decreases e,
    {
        let ghost e0 = e;
        proof {
            reveal_with_fuel(expr_view, 3);
        }
        match e {
            Expression::Binary { op, lhs, rhs, id } => {
                let l = Self::update_node(*lhs, gen);
                let r = Self::update_node(*rhs, gen);
                if l.is_empty_lit() && r.is_empty_lit() {
                    Expression::empty_literal(gen)
                } else {
                    Expression::Binary { op, lhs: Box::new(l), rhs: Box::new(r), id }
                }
            },
            Expression::Unary { operation, expr, id } => {
                let x = Self::update_node(*expr, gen);
                if x.is_empty_lit() {
                    Expression::empty_literal(gen)
                } else {
                    Expression::Unary { operation, expr: Box::new(x), id }
                }
            },
            Expression::Literal { content, id, new_literal } => {
                Self::literal_update(&content, new_literal, id, gen)
            },
            Expression::Vector { exprs, id } => {
                let ghost v0 = exprs;
                let mut rest = exprs;
                let mut out: Vec<Expression> = Vec::new();
                while rest.len() > 0
                    invariant
                        out@.len() + rest@.len() == v0@.len(),
                        rest@ == v0@.skip(out@.len() as int),
                        forall|j: int| 0 <= j < out@.len() ==> expr_view(#[trigger] out@[j])
                            == spec_update(expr_view(v0@[j])),
                    decreases rest@.len(),
                {
                    let ghost i = out@.len() as int;
                    let x = rest.remove(0);
                    proof {
                        assert(x == v0@[i]);
                        assert(rest@ =~= v0@.skip(i + 1));
                        assert(decreases_to!(e0 => v0));
                        assert(decreases_to!(v0 => v0@));
                        assert(decreases_to!(v0@ => v0@[i]));
                    }
                    let y = Self::update_node(x, gen);
                    out.push(y);
                }
                proof {
                    lemma_exprs_view_index(v0@);
                    lemma_exprs_view_index(out@);
                    lemma_update_seq_index(exprs_view(v0@));
                    assert forall|j: int| 0 <= j < v0@.len() implies exprs_view(out@)[j]
                        == spec_update_seq(exprs_view(v0@))[j] by {
                        assert(exprs_view(out@)[j] == expr_view(out@[j]));
                        assert(exprs_view(v0@)[j] == expr_view(v0@[j]));
                    }
                    assert(exprs_view(out@) =~= spec_update_seq(exprs_view(v0@)));
                }
                Expression::Vector { exprs: out, id }
            },
            Expression::Parenthesis { expr, id, unbox_to_binop } => {
                let x = Self::update_node(*expr, gen);
                if unbox_to_binop {
                    let rhs = Self::focus_literal(gen);
                    Expression::Binary {
                        op: BinaryOperation::Add,
                        lhs: Box::new(
                            Expression::Parenthesis {
                                expr: Box::new(x),
                                id,
                                unbox_to_binop: false,
                            },
                        ),
                        rhs: Box::new(rhs),
                        id: gen.new_id(),
                    }
                } else {
                    Expression::Parenthesis { expr: Box::new(x), id, unbox_to_binop: false }
                }
            },
            Expression::GraphExpression { expr } => {
                let x = Self::update_node(*expr, gen);
                Expression::GraphExpression { expr: Box::new(x) }
            },
            Expression::Summation { minimum, maximum, variable, expression } => {
                let nmin = Self::update_node(*minimum, gen);
                let nmax = Self::update_node(*maximum, gen);
                let nvar = Self::update_node(*variable, gen);
                let nbody = Self::update_node(*expression, gen);
                if nmin.is_empty_lit() && nmax.is_empty_lit() && nvar.is_empty_lit()
                    && nbody.is_empty_lit() {
                    Expression::empty_literal(gen)
                } else {
                    Expression::Summation {
                        minimum: Box::new(nmin),
                        maximum: Box::new(nmax),
                        variable: Box::new(nvar),
                        expression: Box::new(nbody),
                    }
                }
            },
            Expression::Lambda { variable, expr } => {
                let nvar = Self::update_node(*variable, gen);
                let nbody = Self::update_node(*expr, gen);
                if nvar.is_empty_lit() && nbody.is_empty_lit() {
                    Expression::empty_literal(gen)
                } else {
                    Expression::Lambda { variable: Box::new(nvar), expr: Box::new(nbody) }
                }
            },
        }
    }

    /// Applies one mutation pass to this tree, in place.
    pub fn update(&mut self, gen: &mut IdGen)
        ensures
            final(self)@ == spec_update(old(self)@),
    {
        let mut tmp = Expression::Literal { content: String::new(), id: 0, new_literal: false };
        core::mem::swap(self, &mut tmp);
        let done = Self::update_node(tmp, gen);
        *self = done;
    }
}

/// The text of a literal view; empty for any other node.
pub open spec fn lit_content(v: ExprView) -> Seq<char> {
    match v {
        ExprView::Literal { content, .. } => content,
        _ => Seq::empty(),
    }
}

// ---------------------------------------------------------------------------
// Laws of the mutation engine
// ---------------------------------------------------------------------------

/// No trigger rule fires on this literal text, and substitution and
/// marker stripping leave it unchanged.
pub open spec fn literal_settled(c: Seq<char>) -> bool {
    &&& !spec_ends_with(c, "+"@)
    &&& !spec_ends_with(c, "-"@)
    &&& !spec_ends_with(c, "*"@)
    &&& !spec_ends_with(c, "/"@)
    &&& !spec_ends_with(c, "^"@)
    &&& !spec_ends_with(c, "="@)
    &&& !spec_ends_with(c, "rt"@)
    &&& !spec_ends_with(c, "root"@)
    &&& !spec_ends_with(c, "("@)
    &&& !spec_starts_with(c, "["@)
    &&& !spec_starts_with(c, "graph"@)
    &&& !spec_ends_with(c, "sum"@)
    &&& !spec_starts_with(c, "fn"@)
    &&& !spec_starts_with(c, "sin"@)
    &&& !spec_starts_with(c, "cos"@)
    &&& !spec_starts_with(c, "tan"@)
    &&& !spec_starts_with(c, "asin"@)
    &&& !spec_starts_with(c, "acos"@)
    &&& !spec_starts_with(c, "atan"@)
    &&& spec_subst(c) == c
    &&& !(spec_starts_with(c, "?"@) && c != "?"@)
}

/// The tree is settled: no literal triggers a rule, no unwrap flag is
/// set, and no composite node is due to collapse.
pub open spec fn settled(e: ExprView) -> bool
    decreases e,
    via settled_decreases
{
    match e {
        ExprView::Literal { content, .. } => literal_settled(content),
        ExprView::Unary { expr, .. } => settled(*expr) && !is_empty_literal(*expr),
        ExprView::Binary { lhs, rhs, .. } => settled(*lhs) && settled(*rhs) && !(is_empty_literal(
            *lhs,
        ) && is_empty_literal(*rhs)),
        ExprView::Vector { exprs } => settled_seq(exprs),
        ExprView::Parenthesis { expr, unbox_to_binop } => !unbox_to_binop && settled(*expr),
        ExprView::GraphExpression { expr } => settled(*expr),
        ExprView::Summation { minimum, maximum, variable, expression } => settled(*minimum)
            && settled(*maximum) && settled(*variable) && settled(*expression) && !(
        is_empty_literal(*minimum) && is_empty_literal(*maximum) && is_empty_literal(*variable)
            && is_empty_literal(*expression)),
        ExprView::Lambda { variable, expr } => settled(*variable) && settled(*expr) && !(
        is_empty_literal(*variable) && is_empty_literal(*expr)),
    }
}

#[via_fn]
proof fn settled_decreases(e: ExprView) {
    match e {
        ExprView::Vector { exprs } => {
            assert(decreases_to!(e => exprs));
        },
        _ => {},
    }
}

/// Every element is settled.
pub open spec fn settled_seq(s: Seq<ExprView>) -> bool
    decreases s,
    via settled_seq_decreases
{
    s.len() == 0 || (settled_seq(s.drop_last()) && settled(s.last()))
}

#[via_fn]
proof fn settled_seq_decreases(s: Seq<ExprView>) {
    if s.len() > 0 {
        vstd::seq::axiom_seq_subrange_decreases(s, 0, s.len() - 1);
        assert(s.drop_last() == s.subrange(0, s.len() - 1));
        assert(decreases_to!(s => s[s.len() - 1]));
    }
}

/// A settled tree is a fixed point of mutation.
pub proof fn lemma_settled_fixpoint(e: ExprView)
    requires
        settled(e),
    ensures
        spec_update(e) == e,
    decreases e,
{
    match e {
        ExprView::Literal { content, new_literal } => {},
        ExprView::Unary { expr, .. } => {
            lemma_settled_fixpoint(*expr);
        },
        ExprView::Binary { lhs, rhs, .. } => {
            lemma_settled_fixpoint(*lhs);
            lemma_settled_fixpoint(*rhs);
        },
        ExprView::Vector { exprs } => {
            assert(decreases_to!(e => exprs));
            lemma_settled_seq_fixpoint(exprs);
        },
        ExprView::Parenthesis { expr, .. } => {
            lemma_settled_fixpoint(*expr);
        },
        ExprView::GraphExpression { expr } => {
            lemma_settled_fixpoint(*expr);
        },
        ExprView::Summation { minimum, maximum, variable, expression } => {
            lemma_settled_fixpoint(*minimum);
            lemma_settled_fixpoint(*maximum);
            lemma_settled_fixpoint(*variable);
            lemma_settled_fixpoint(*expression);
        },
        ExprView::Lambda { variable, expr } => {
            lemma_settled_fixpoint(*variable);
            lemma_settled_fixpoint(*expr);
        },
    }
}

proof fn lemma_settled_seq_fixpoint(s: Seq<ExprView>)
    requires
        settled_seq(s),
    ensures
        spec_update_seq(s) == s,
    decreases s,
{
    if s.len() > 0 {
        vstd::seq::axiom_seq_subrange_decreases(s, 0, s.len() - 1);
        assert(s.drop_last() == s.subrange(0, s.len() - 1));
        lemma_settled_seq_fixpoint(s.drop_last());
        assert(decreases_to!(s => s[s.len() - 1]));
        lemma_settled_fixpoint(s.last());
        assert(spec_update_seq(s) =~= s);
    }
}

/// Mutation is idempotent: when one pass leaves a settled tree, a second
/// pass returns that tree unchanged. A pass whose output still holds a
/// trigger, such as the invocation node built from `sin(`, whose left
/// child `sin` still announces a unary rule, is renormalized further by
/// later passes instead.
pub proof fn lemma_update_idempotent(e: ExprView)
    requires
        settled(spec_update(e)),
    ensures
        spec_update(spec_update(e)) == spec_update(e),
{
    lemma_settled_fixpoint(spec_update(e));
}

proof fn lemma_trigger_literal_lens()
    ensures
        "+"@.len() == 1,
        "-"@.len() == 1,
        "*"@.len() == 1,
        "/"@.len() == 1,
        "^"@.len() == 1,
        "="@.len() == 1,
        "rt"@.len() == 2,
        "root"@.len() == 4,
        "("@.len() == 1,
        "["@.len() == 1,
        "graph"@.len() == 5,
        "sum"@.len() == 3,
        "fn"@.len() == 2,
        "sin"@.len() == 3,
        "cos"@.len() == 3,
        "tan"@.len() == 3,
        "asin"@.len() == 4,
        "acos"@.len() == 4,
        "atan"@.len() == 4,
        "?"@.len() == 1,
{
    reveal_strlit("+");
    reveal_strlit("-");
    reveal_strlit("*");
    reveal_strlit("/");
    reveal_strlit("^");
    reveal_strlit("=");
    reveal_strlit("rt");
    reveal_strlit("root");
    reveal_strlit("(");
    reveal_strlit("[");
    reveal_strlit("graph");
    reveal_strlit("sum");
    reveal_strlit("fn");
    reveal_strlit("sin");
    reveal_strlit("cos");
    reveal_strlit("tan");
    reveal_strlit("asin");
    reveal_strlit("acos");
    reveal_strlit("atan");
    reveal_strlit("?");
}

/// Empty text triggers no rule at all.
pub proof fn lemma_empty_literal_settled()
    ensures
        literal_settled(Seq::<char>::empty()),
{
    lemma_trigger_literal_lens();
}

/// Mutating a node whose view is an empty literal yields an empty
/// literal again.
pub proof fn lemma_update_of_empty(v: ExprView)
    requires
        is_empty_literal(v),
    ensures
        is_empty_literal(spec_update(v)),
{
    match v {
        ExprView::Literal { content, new_literal } => {
            assert(content =~= Seq::<char>::empty());
            lemma_empty_literal_settled();
        },
        _ => {},
    }
}

/// A composite node is due to collapse: every literal child relevant to
/// its shape is empty.
pub open spec fn collapses(e: ExprView) -> bool {
    ||| (e matches ExprView::Binary { lhs, rhs, .. } && is_empty_literal(*lhs)
        && is_empty_literal(*rhs))
    ||| (e matches ExprView::Unary { expr, .. } && is_empty_literal(*expr))
    ||| (e matches ExprView::Summation { minimum, maximum, variable, expression } &&
        is_empty_literal(*minimum) && is_empty_literal(*maximum) && is_empty_literal(*variable)
        && is_empty_literal(*expression))
    ||| (e matches ExprView::Lambda { variable, expr } && is_empty_literal(*variable)
        && is_empty_literal(*expr))
}

/// Emptiness collapse: a binary, unary, summation or lambda node whose
/// relevant literal children are all empty mutates to a single empty
/// literal.
pub proof fn lemma_update_collapses_empty(e: ExprView)
    requires
        collapses(e),
    ensures
        spec_update(e) == fresh_lit(Seq::<char>::empty()),
{
    match e {
        ExprView::Binary { lhs, rhs, .. } => {
            lemma_update_of_empty(*lhs);
            lemma_update_of_empty(*rhs);
        },
        ExprView::Unary { expr, .. } => {
            lemma_update_of_empty(*expr);
        },
        ExprView::Summation { minimum, maximum, variable, expression } => {
            lemma_update_of_empty(*minimum);
            lemma_update_of_empty(*maximum);
            lemma_update_of_empty(*variable);
            lemma_update_of_empty(*expression);
        },
        ExprView::Lambda { variable, expr } => {
            lemma_update_of_empty(*variable);
            lemma_update_of_empty(*expr);
        },
        _ => {},
    }
}

} // verus!
