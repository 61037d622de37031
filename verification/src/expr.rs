//! The expression tree: the shared vocabulary of the mutation engine, the
//! precedence normalizer and the evaluator. Every node except the wrapper
//! variants carries an identifier handed out at construction; identifiers
//! give external collaborators a stable identity for widgets and carry no
//! meaning for evaluation, so the mathematical view of a tree drops them.

use vstd::prelude::*;

verus! {

/// The unary operations: negation and the trigonometric family.
#[derive(Clone, Copy, Debug, PartialEq, Eq, Structural)]
pub enum UnaryOperation {
    Negate,
    Sin,
    Cos,
    Tan,
    InverseSin,
    InverseCos,
    InverseTan,
    HyperbolicSin,
    HyperbolicCos,
    HyperbolicTan,
    InverseHyperbolicSin,
    InverseHyperbolicCos,
    InverseHyperbolicTan,
}

/// The binary operations: arithmetic, storage, invocation, comparisons.
#[derive(Clone, Copy, Debug, PartialEq, Eq, Structural)]
pub enum BinaryOperation {
    Add,
    Sub,
    Multiply,
    Divide,
    Power,
    Root,
    Store,
    Invoke,
    GreaterThan,
    LessThan,
    GreaterThanOrEqual,
    LessThanOrEqual,
    Equal,
}

/// A node of the expression tree. `Literal` holds raw, possibly-incomplete
/// user text and is the only variant a collaborator mutates directly;
/// every other variant owns its children exclusively.
#[derive(Debug, PartialEq)]
pub enum Expression {
    Unary { operation: UnaryOperation, expr: Box<Expression>, id: u64 },
    Binary { op: BinaryOperation, lhs: Box<Expression>, rhs: Box<Expression>, id: u64 },
    Vector { exprs: Vec<Expression>, id: u64 },
    Literal { content: String, id: u64, new_literal: bool },
    Parenthesis { expr: Box<Expression>, id: u64, unbox_to_binop: bool },
    GraphExpression { expr: Box<Expression> },
    Summation {
        minimum: Box<Expression>,
        maximum: Box<Expression>,
        variable: Box<Expression>,
        expression: Box<Expression>,
    },
    Lambda { variable: Box<Expression>, expr: Box<Expression> },
}

/// The mathematical view of a tree: the same shape with text as character
/// sequences and without node identifiers.
pub enum ExprView {
    Unary { operation: UnaryOperation, expr: Box<ExprView> },
    Binary { op: BinaryOperation, lhs: Box<ExprView>, rhs: Box<ExprView> },
    Vector { exprs: Seq<ExprView> },
    Literal { content: Seq<char>, new_literal: bool },
    Parenthesis { expr: Box<ExprView>, unbox_to_binop: bool },
    GraphExpression { expr: Box<ExprView> },
    Summation {
        minimum: Box<ExprView>,
        maximum: Box<ExprView>,
        variable: Box<ExprView>,
        expression: Box<ExprView>,
    },
    Lambda { variable: Box<ExprView>, expr: Box<ExprView> },
}

/// The views of a sequence of trees, elementwise.
pub open spec fn exprs_view(s: Seq<Expression>) -> Seq<ExprView>
    decreases s,
    via exprs_view_decreases
{
    if s.len() == 0 {
        Seq::empty()
    } else {
        exprs_view(s.drop_last()).push(expr_view(s.last()))
    }
}

#[via_fn]
proof fn exprs_view_decreases(s: Seq<Expression>) {
    if s.len() > 0 {
        vstd::seq::axiom_seq_subrange_decreases(s, 0, s.len() - 1);
        assert(s.drop_last() == s.subrange(0, s.len() - 1));
        assert(decreases_to!(s => s[s.len() - 1]));
    }
}

/// The view of a tree, structurally.
pub open spec fn expr_view(e: Expression) -> ExprView
    decreases e,
    via expr_view_decreases
{
    match e {
        Expression::Unary { operation, expr, id } => ExprView::Unary {
            operation,
            expr: Box::new(expr_view(*expr)),
        },
        Expression::Binary { op, lhs, rhs, id } => ExprView::Binary {
            op,
            lhs: Box::new(expr_view(*lhs)),
            rhs: Box::new(expr_view(*rhs)),
        },
        Expression::Vector { exprs, id } => ExprView::Vector { exprs: exprs_view(exprs@) },
        Expression::Literal { content, id, new_literal } => ExprView::Literal {
            content: content@,
            new_literal,
        },
        Expression::Parenthesis { expr, id, unbox_to_binop } => ExprView::Parenthesis {
            expr: Box::new(expr_view(*expr)),
            unbox_to_binop,
        },
        Expression::GraphExpression { expr } => ExprView::GraphExpression {
            expr: Box::new(expr_view(*expr)),
        },
        Expression::Summation { minimum, maximum, variable, expression } => ExprView::Summation {
            minimum: Box::new(expr_view(*minimum)),
            maximum: Box::new(expr_view(*maximum)),
            variable: Box::new(expr_view(*variable)),
            expression: Box::new(expr_view(*expression)),
        },
        Expression::Lambda { variable, expr } => ExprView::Lambda {
            variable: Box::new(expr_view(*variable)),
            expr: Box::new(expr_view(*expr)),
        },
    }
}

#[via_fn]
proof fn expr_view_decreases(e: Expression) {
    match e {
        Expression::Vector { exprs, id } => {
            assert(decreases_to!(e => exprs));
            assert(decreases_to!(exprs => exprs@));
        },
        _ => {},
    }
}

/// The element views of a sequence of trees, by index.
pub proof fn lemma_exprs_view_index(s: Seq<Expression>)
    ensures
        exprs_view(s).len() == s.len(),
        forall|i: int| 0 <= i < s.len() ==> exprs_view(s)[i] == expr_view(#[trigger] s[i]),
    decreases s,
{
    if s.len() > 0 {
        vstd::seq::axiom_seq_subrange_decreases(s, 0, s.len() - 1);
        assert(s.drop_last() == s.subrange(0, s.len() - 1));
        lemma_exprs_view_index(s.drop_last());
        assert(forall|i: int| 0 <= i < s.len() - 1 ==> #[trigger] s[i] == s.drop_last()[i]);
    }
}

/// A tree and its view share their head constructor.
pub proof fn lemma_view_variant(e: Expression)
    ensures
        (expr_view(e) is Literal) == (e is Literal),
        (expr_view(e) is Binary) == (e is Binary),
        (expr_view(e) is Unary) == (e is Unary),
        (expr_view(e) is Vector) == (e is Vector),
        (expr_view(e) is Parenthesis) == (e is Parenthesis),
        (expr_view(e) is GraphExpression) == (e is GraphExpression),
        (expr_view(e) is Summation) == (e is Summation),
        (expr_view(e) is Lambda) == (e is Lambda),
{
    match e {
        Expression::Literal { .. } => {},
        Expression::Binary { .. } => {},
        _ => {},
    }
}

impl View for Expression {
    type V = ExprView;

    open spec fn view(&self) -> ExprView {
        expr_view(*self)
    }
}

/// The view is a literal with empty text.
pub open spec fn is_empty_literal(v: ExprView) -> bool {
    v matches ExprView::Literal { content, .. } && content.len() == 0
}

impl Expression {
    /// A fresh empty literal, the placeholder every collapse leaves behind.
    pub fn empty_literal(gen: &mut crate::idx::IdGen) -> (r: Expression)
        ensures
            r@ == (ExprView::Literal { content: Seq::<char>::empty(), new_literal: true }),
    {
        Expression::Literal { content: String::new(), id: gen.new_id(), new_literal: true }
    }

    /// A deep copy of the tree, identifiers included.
    #[verifier::loop_isolation(false)]
    pub fn duplicate(&self) -> (r: Expression)
        ensures
            r@ == self@,
        decreases *self,
    {
        match self {
            Expression::Unary { operation, expr, id } => Expression::Unary {
                operation: *operation,
                expr: Box::new(expr.duplicate()),
                id: *id,
            },
            Expression::Binary { op, lhs, rhs, id } => Expression::Binary {
                op: *op,
                lhs: Box::new(lhs.duplicate()),
                rhs: Box::new(rhs.duplicate()),
                id: *id,
            },
            Expression::Vector { exprs, id } => {
                let mut out: Vec<Expression> = Vec::new();
                let mut i: usize = 0;
                proof {
                    lemma_exprs_view_index(exprs@);
                    lemma_exprs_view_index(out@);
                }
                while i < exprs.len()
                    invariant
                        i <= exprs@.len(),
                        out@.len() == i,
                        forall|j: int| 0 <= j < i ==> expr_view(#[trigger] out@[j]) == expr_view(
                            exprs@[j],
                        ),
                    decreases exprs@.len() - i,
                {
                    proof {
                        let ghost whole = Expression::Vector { exprs: *exprs, id: *id };
                        assert(*self == whole);
                        assert(decreases_to!(whole => *exprs));
                        assert(decreases_to!(*exprs => exprs@));
                        assert(decreases_to!(exprs@ => exprs@[i as int]));
                    }
                    let d = exprs[i].duplicate();
                    out.push(d);
                    i = i + 1;
                }
                proof {
                    lemma_exprs_view_index(exprs@);
                    lemma_exprs_view_index(out@);
                    assert forall|j: int| 0 <= j < exprs@.len() implies exprs_view(out@)[j]
                        == exprs_view(exprs@)[j] by {
                        assert(exprs_view(out@)[j] == expr_view(out@[j]));
                        assert(exprs_view(exprs@)[j] == expr_view(exprs@[j]));
                        assert(expr_view(out@[j]) == expr_view(exprs@[j]));
                    }
                    assert(exprs_view(out@) =~= exprs_view(exprs@));
                }
                Expression::Vector { exprs: out, id: *id }
            },
            Expression::Literal { content, id, new_literal } => Expression::Literal {
                content: content.clone(),
                id: *id,
                new_literal: *new_literal,
            },
            Expression::Parenthesis { expr, id, unbox_to_binop } => Expression::Parenthesis {
                expr: Box::new(expr.duplicate()),
                id: *id,
                unbox_to_binop: *unbox_to_binop,
            },
            Expression::GraphExpression { expr } => Expression::GraphExpression {
                expr: Box::new(expr.duplicate()),
            },
            Expression::Summation { minimum, maximum, variable, expression } => {
                Expression::Summation {
                    minimum: Box::new(minimum.duplicate()),
                    maximum: Box::new(maximum.duplicate()),
                    variable: Box::new(variable.duplicate()),
                    expression: Box::new(expression.duplicate()),
                }
            },
            Expression::Lambda { variable, expr } => Expression::Lambda {
                variable: Box::new(variable.duplicate()),
                expr: Box::new(expr.duplicate()),
            },
        }
    }

    /// The node is a literal holding empty text.
    pub fn is_empty_lit(&self) -> (r: bool)
        ensures
            r == is_empty_literal(self@),
    {
        match self {
            Expression::Literal { content, .. } => content.as_str().unicode_len() == 0,
            _ => false,
        }
    }
}

impl UnaryOperation {
    /// The display symbol of the operation.
    pub open spec fn spec_symbol(self) -> Seq<char> {
        match self {
            UnaryOperation::Negate => "-"@,
            UnaryOperation::Sin => "sin"@,
            UnaryOperation::Cos => "cos"@,
            UnaryOperation::Tan => "tan"@,
            UnaryOperation::InverseSin => "sin^-1"@,
            UnaryOperation::InverseCos => "cos^-1"@,
            UnaryOperation::InverseTan => "tan^-1"@,
            UnaryOperation::HyperbolicSin => "sinh"@,
            UnaryOperation::HyperbolicCos => "cosh"@,
            UnaryOperation::HyperbolicTan => "tanh"@,
            UnaryOperation::InverseHyperbolicSin => "sinh^-1"@,
            UnaryOperation::InverseHyperbolicCos => "cosh^-1"@,
            UnaryOperation::InverseHyperbolicTan => "tanh^-1"@,
        }
    }

    /// Renders the operation's display symbol.
    pub fn to_string(&self) -> (r: String)
        ensures
            r@ == self.spec_symbol(),
    {
        match self {
            UnaryOperation::Negate => "-".to_owned(),
            UnaryOperation::Sin => "sin".to_owned(),
            UnaryOperation::Cos => "cos".to_owned(),
            UnaryOperation::Tan => "tan".to_owned(),
            UnaryOperation::InverseSin => "sin^-1".to_owned(),
            UnaryOperation::InverseCos => "cos^-1".to_owned(),
            UnaryOperation::InverseTan => "tan^-1".to_owned(),
            UnaryOperation::HyperbolicSin => "sinh".to_owned(),
            UnaryOperation::HyperbolicCos => "cosh".to_owned(),
            UnaryOperation::HyperbolicTan => "tanh".to_owned(),
            UnaryOperation::InverseHyperbolicSin => "sinh^-1".to_owned(),
            UnaryOperation::InverseHyperbolicCos => "cosh^-1".to_owned(),
            UnaryOperation::InverseHyperbolicTan => "tanh^-1".to_owned(),
        }
    }
}

impl BinaryOperation {
    /// The display symbol of the operation.
    pub open spec fn spec_symbol(self) -> Seq<char> {
        match self {
            BinaryOperation::Add => "+"@,
            BinaryOperation::Sub => "-"@,
            BinaryOperation::Multiply => "*"@,
            BinaryOperation::Divide => "÷"@,
            BinaryOperation::Power => "^"@,
            BinaryOperation::Root => "√"@,
            BinaryOperation::Store => "="@,
            BinaryOperation::Invoke => "("@,
            BinaryOperation::GreaterThan => ">"@,
            BinaryOperation::LessThan => "<"@,
            BinaryOperation::GreaterThanOrEqual => ">="@,
            BinaryOperation::LessThanOrEqual => "<="@,
            BinaryOperation::Equal => "=="@,
        }
    }

    /// Renders the operation's display symbol.
    pub fn to_string(&self) -> (r: String)
        ensures
            r@ == self.spec_symbol(),
    {
        match self {
            BinaryOperation::Add => "+".to_owned(),
            BinaryOperation::Sub => "-".to_owned(),
            BinaryOperation::Multiply => "*".to_owned(),
            BinaryOperation::Divide => "÷".to_owned(),
            BinaryOperation::Power => "^".to_owned(),
            BinaryOperation::Root => "√".to_owned(),
            BinaryOperation::Store => "=".to_owned(),
            BinaryOperation::Invoke => "(".to_owned(),
            BinaryOperation::GreaterThan => ">".to_owned(),
            BinaryOperation::LessThan => "<".to_owned(),
            BinaryOperation::GreaterThanOrEqual => ">=".to_owned(),
            BinaryOperation::LessThanOrEqual => "<=".to_owned(),
            BinaryOperation::Equal => "==".to_owned(),
        }
    }
}

} // verus!

