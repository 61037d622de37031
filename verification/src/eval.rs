//! The evaluator: a recursive tree-walking interpreter from expression
//! and scope to value. Literals parse as exact numbers or resolve as
//! variables, sigil-prefixed names against the global frame; storage binds
//! names; invocation pushes one frame around a lambda body, whose free
//! variables resolve against the caller's scope at invocation time; a
//! summation rebinds its loop variable in the current frame and restores
//! it afterwards. Recursion through lambda invocation is bounded by an
//! explicit depth budget, so evaluation always terminates; exhausting the
//! budget is an error value, never a crash.

use vstd::prelude::*;
use crate::expr::{BinaryOperation, Expression, ExprView};
use crate::context::{Context, GlobalContext, spec_stack_resolve};
use crate::values::{
    Value, ValueView, val_vw_wf, value_view, values_view, lemma_values_view_index,
    lemma_vals_vw_wf_index, spec_val_arith, spec_val_pow, spec_val_root, spec_val_compare,
    spec_val_unary, spec_val_map, ArithOp, MapOp, ComparisonResult,
};
use crate::numtext::spec_parse_decimal;
use crate::strings::{spec_starts_with, starts_with, concat_strings};
use crate::complex::Complex;

verus! {

/// The bindings of one frame, viewed.
pub type BindingsV = Map<Seq<char>, ValueView>;

/// The frame stack, viewed; bottom frame first.
pub type StackV = Seq<BindingsV>;

/// The outcome of an evaluation: the value, and the scope and global
/// frame after any bindings the evaluation made.
pub struct EvalOut {
    pub value: ValueView,
    pub stack: StackV,
    pub globals: BindingsV,
}

/// A binding added to the topmost frame.
pub open spec fn set_last(stack: StackV, name: Seq<char>, v: ValueView) -> StackV {
    stack.update(stack.len() - 1, stack.last().insert(name, v))
}

/// A binding removed from the topmost frame.
pub open spec fn remove_last(stack: StackV, name: Seq<char>) -> StackV {
    stack.update(stack.len() - 1, stack.last().remove(name))
}

/// The error text for a name that resolves nowhere.
pub open spec fn unresolved_msg(name: Seq<char>) -> Seq<char> {
    "unable to resolve value `"@ + name + "`"@
}

/// What a literal evaluates to: an exact number if its text parses, else
/// the variable it names, sigil-prefixed names against the global frame.
pub open spec fn spec_eval_literal(content: Seq<char>, stack: StackV, globals: BindingsV)
    -> ValueView {
    match spec_parse_decimal(content) {
        Some(p) => ValueView::Number((p, (0int, 1int))),
        None => {
            if spec_starts_with(content, "@"@) {
                if globals.contains_key(content) {
                    globals[content]
                } else {
                    ValueView::Error(unresolved_msg(content))
                }
            } else {
                match spec_stack_resolve(stack, content) {
                    Some(v) => v,
                    None => ValueView::Error(unresolved_msg(content)),
                }
            }
        },
    }
}

/// The value-level dispatch of a non-storage, non-invocation operator.
pub open spec fn spec_apply_binop(op: BinaryOperation, a: ValueView, b: ValueView) -> ValueView {
    match op {
        BinaryOperation::Add => spec_val_arith(ArithOp::Add, a, b),
        BinaryOperation::Sub => spec_val_arith(ArithOp::Sub, a, b),
        BinaryOperation::Multiply => spec_val_arith(ArithOp::Mul, a, b),
        BinaryOperation::Divide => spec_val_arith(ArithOp::Div, a, b),
        BinaryOperation::Power => spec_val_pow(a, b),
        BinaryOperation::Root => spec_val_root(a, b),
        BinaryOperation::GreaterThan => spec_val_compare(a, b, ComparisonResult::GreaterThan),
        BinaryOperation::LessThan => spec_val_compare(a, b, ComparisonResult::LessThan),
        BinaryOperation::GreaterThanOrEqual => spec_val_compare(
            a,
            b,
            ComparisonResult::GreaterThanOrEqual,
        ),
        BinaryOperation::LessThanOrEqual => spec_val_compare(
            a,
            b,
            ComparisonResult::LessThanOrEqual,
        ),
        BinaryOperation::Equal => spec_val_compare(a, b, ComparisonResult::Equal),
        BinaryOperation::Store => b,
        BinaryOperation::Invoke => b,
    }
}

/// What storing into a target does to the environments: a literal target
/// binds its name, sigil-prefixed names globally, others bind nothing.
pub open spec fn spec_apply_store(l: ExprView, rv: ValueView, stack: StackV, globals: BindingsV)
    -> EvalOut {
    match l {
        ExprView::Literal { content, .. } => {
            if spec_starts_with(content, "@"@) {
                EvalOut { value: rv, stack, globals: globals.insert(content, rv) }
            } else {
                EvalOut { value: rv, stack: set_last(stack, content, rv), globals }
            }
        },
        _ => EvalOut { value: rv, stack, globals },
    }
}

/// The number of loop steps a summation from `i` to `max` still takes.
pub open spec fn sum_steps(i: int, max: int) -> nat {
    if i > max {
        0
    } else {
        (max - i + 1) as nat
    }
}

/// Evaluation of a tree against a scope, a global frame and a recursion
/// budget. The result carries the value and the updated environments.
pub open spec fn spec_eval(e: ExprView, stack: StackV, globals: BindingsV, fuel: nat) -> EvalOut
    decreases fuel, e, 0nat, 0nat,
    via spec_eval_decreases
{
    match e {
        ExprView::Literal { content, .. } => EvalOut {
            value: spec_eval_literal(content, stack, globals),
            stack,
            globals,
        },
        ExprView::Unary { operation, expr } => {
            let o = spec_eval(*expr, stack, globals, fuel);
            EvalOut { value: spec_val_unary(operation, o.value), stack: o.stack, globals: o.globals }
        },
        ExprView::Binary { op, lhs, rhs } => {
            if op == BinaryOperation::Store {
                let o = spec_eval(*rhs, stack, globals, fuel);
                spec_apply_store(*lhs, o.value, o.stack, o.globals)
            } else if op == BinaryOperation::Invoke {
                let a = spec_eval(*lhs, stack, globals, fuel);
                let b = spec_eval(*rhs, a.stack, a.globals, fuel);
                match a.value {
                    ValueView::Lambda(p, body) => {
                        if fuel == 0 {
                            EvalOut {
                                value: ValueView::Error("recursion depth exceeded"@),
                                stack: b.stack,
                                globals: b.globals,
                            }
                        } else {
                            let inner = b.stack.push(
                                Map::<Seq<char>, ValueView>::empty().insert(p, b.value),
                            );
                            let o = spec_eval(body, inner, b.globals, (fuel - 1) as nat);
                            EvalOut {
                                value: o.value,
                                stack: o.stack.drop_last(),
                                globals: o.globals,
                            }
                        }
                    },
                    _ => EvalOut {
                        value: ValueView::Error("left-side must be a function"@),
                        stack: b.stack,
                        globals: b.globals,
                    },
                }
            } else {
                let a = spec_eval(*lhs, stack, globals, fuel);
                let b = spec_eval(*rhs, a.stack, a.globals, fuel);
                EvalOut {
                    value: spec_apply_binop(op, a.value, b.value),
                    stack: b.stack,
                    globals: b.globals,
                }
            }
        },
        ExprView::Parenthesis { expr, .. } => spec_eval(*expr, stack, globals, fuel),
        ExprView::GraphExpression { expr } => spec_eval(*expr, stack, globals, fuel),
        ExprView::Vector { exprs } => {
            let o = spec_eval_list(exprs, stack, globals, fuel);
            EvalOut { value: ValueView::Vector(o.0), stack: o.1, globals: o.2 }
        },
        ExprView::Lambda { variable, expr } => {
            match *variable {
                ExprView::Literal { content, .. } => EvalOut {
                    value: ValueView::Lambda(content, *expr),
                    stack,
                    globals,
                },
                _ => EvalOut {
                    value: ValueView::Error("variable must be a literal"@),
                    stack,
                    globals,
                },
            }
        },
        ExprView::Summation { minimum, maximum, variable, expression } => {
            match *variable {
                ExprView::Literal { content, .. } => {
                    let a = spec_eval(*minimum, stack, globals, fuel);
                    let minv = spec_val_map(MapOp::Round, a.value);
                    let b = spec_eval(*maximum, a.stack, a.globals, fuel);
                    let maxv = spec_val_map(MapOp::Round, b.value);
                    spec_summation_core(
                        minv,
                        maxv,
                        content,
                        *expression,
                        b.stack,
                        b.globals,
                        fuel,
                    )
                },
                _ => EvalOut {
                    value: ValueView::Error("variables must be a literal"@),
                    stack,
                    globals,
                },
            }
        },
    }
}

#[via_fn]
proof fn spec_eval_decreases(e: ExprView, stack: StackV, globals: BindingsV, fuel: nat) {
    match e {
        ExprView::Vector { exprs } => {
            assert(decreases_to!(e => exprs));
        },
        ExprView::Summation { minimum, maximum, variable, expression } => {
            assert(decreases_to!(e => expression));
        },
        _ => {},
    }
}

/// The checks and the loop of a summation, after its bounds have been
/// evaluated and rounded: both bounds must be real numbers, the minimum
/// strictly below the maximum; the loop variable's prior binding is saved
/// around the loop and restored, or cleared where there was none.
pub open spec fn spec_summation_core(
    minv: ValueView,
    maxv: ValueView,
    var: Seq<char>,
    body: ExprView,
    stack: StackV,
    globals: BindingsV,
    fuel: nat,
) -> EvalOut
    decreases fuel, body, 2nat, 0nat,
{
    match minv {
        ValueView::Number(minc) => {
            match maxv {
                ValueView::Number(maxc) => {
                    if (minc.1).0 != 0 {
                        EvalOut {
                            value: ValueView::Error("summation minimum can not be complex"@),
                            stack,
                            globals,
                        }
                    } else if (maxc.1).0 != 0 {
                        EvalOut {
                            value: ValueView::Error("summation maximum can not be complex"@),
                            stack,
                            globals,
                        }
                    } else if (minc.0).0 * (maxc.0).1 >= (maxc.0).0 * (minc.0).1 {
                        EvalOut {
                            value: ValueView::Error(
                                "summation maximum can not be larger than minimum"@,
                            ),
                            stack,
                            globals,
                        }
                    } else {
                        let old_binding = spec_stack_resolve(stack, var);
                        let zero = ValueView::Number((((0int, 1int), (0int, 1int))));
                        let o = spec_sum_loop(
                            body,
                            var,
                            (minc.0).0,
                            (maxc.0).0,
                            zero,
                            stack,
                            globals,
                            fuel,
                        );
                        let restored = match old_binding {
                            Some(ov) => set_last(o.stack, var, ov),
                            None => remove_last(o.stack, var),
                        };
                        EvalOut { value: o.value, stack: restored, globals: o.globals }
                    }
                },
                _ => EvalOut {
                    value: ValueView::Error("maximum of summation must be a number"@),
                    stack,
                    globals,
                },
            }
        },
        _ => EvalOut {
            value: ValueView::Error("minimum of summation must be a number"@),
            stack,
            globals,
        },
    }
}

/// The summation loop: for each integer from `i` to `max` inclusive, the
/// loop variable is rebound in the topmost frame, the body evaluated, and
/// the result accumulated by addition.
pub open spec fn spec_sum_loop(
    body: ExprView,
    var: Seq<char>,
    i: int,
    max: int,
    acc: ValueView,
    stack: StackV,
    globals: BindingsV,
    fuel: nat,
) -> EvalOut
    decreases fuel, body, 1nat, sum_steps(i, max),
{
    if i > max {
        EvalOut { value: acc, stack, globals }
    } else {
        let bound = set_last(stack, var, ValueView::Number((((i, 1int), (0int, 1int)))));
        let o = spec_eval(body, bound, globals, fuel);
        let acc2 = spec_val_arith(ArithOp::Add, acc, o.value);
        spec_sum_loop(body, var, i + 1, max, acc2, o.stack, o.globals, fuel)
    }
}

/// The combination of two evaluated operands by a binary operation, as
/// the evaluator performs it: storage hands the right value back,
/// invocation calls a lambda value in a fresh frame, and every other
/// operation is its value-algebra function.
pub open spec fn spec_bin_op(
    op: BinaryOperation,
    a: ValueView,
    b: ValueView,
    stack: StackV,
    globals: BindingsV,
    fuel: nat,
) -> EvalOut {
    if op == BinaryOperation::Invoke {
        match a {
            ValueView::Lambda(p, body) => {
                if fuel == 0 {
                    EvalOut {
                        value: ValueView::Error("recursion depth exceeded"@),
                        stack,
                        globals,
                    }
                } else {
                    let inner = stack.push(Map::<Seq<char>, ValueView>::empty().insert(p, b));
                    let o = spec_eval(body, inner, globals, (fuel - 1) as nat);
                    EvalOut { value: o.value, stack: o.stack.drop_last(), globals: o.globals }
                }
            },
            _ => EvalOut {
                value: ValueView::Error("left-side must be a function"@),
                stack,
                globals,
            },
        }
    } else {
        EvalOut { value: spec_apply_binop(op, a, b), stack, globals }
    }
}

/// Sequential evaluation of a list of trees, left to right, threading the
/// environments through.
pub open spec fn spec_eval_list(s: Seq<ExprView>, stack: StackV, globals: BindingsV, fuel: nat)
    -> (Seq<ValueView>, StackV, BindingsV)
    decreases fuel, s, 0nat, 0nat,
    via spec_eval_list_decreases
{
    if s.len() == 0 {
        (Seq::empty(), stack, globals)
    } else {
        let o = spec_eval_list(s.drop_last(), stack, globals, fuel);
        let last = spec_eval(s.last(), o.1, o.2, fuel);
        (o.0.push(last.value), last.stack, last.globals)
    }
}

#[via_fn]
proof fn spec_eval_list_decreases(s: Seq<ExprView>, stack: StackV, globals: BindingsV, fuel: nat) {
    if s.len() > 0 {
        vstd::seq::axiom_seq_subrange_decreases(s, 0, s.len() - 1);
        assert(s.drop_last() == s.subrange(0, s.len() - 1));
        assert(decreases_to!(s => s[s.len() - 1]));
    }
}

/// Every value a well-formed evaluation hands back is well-formed, and
/// the frame stack keeps its length. This is the shape of every exec
/// contract below.
pub open spec fn eval_post(
    o: EvalOut,
    r: ValueView,
    stack: StackV,
    globals: BindingsV,
) -> bool {
    r == o.value && stack == o.stack && globals == o.globals
}

/// The semantics of the standalone summation entry point: the bounds are
/// evaluated and rounded, then the checks and the loop run.
pub open spec fn spec_evaluate_summation(
    minimum: ExprView,
    maximum: ExprView,
    variable: ExprView,
    body: ExprView,
    stack: StackV,
    globals: BindingsV,
    fuel: nat,
) -> EvalOut {
    match variable {
        ExprView::Literal { content, .. } => {
            let a = spec_eval(minimum, stack, globals, fuel);
            let minv = spec_val_map(MapOp::Round, a.value);
            let b = spec_eval(maximum, a.stack, a.globals, fuel);
            let maxv = spec_val_map(MapOp::Round, b.value);
            spec_summation_core(minv, maxv, content, body, b.stack, b.globals, fuel)
        },
        _ => EvalOut {
            value: ValueView::Error("variables must be a literal"@),
            stack,
            globals,
        },
    }
}

/// The depth budget the plain evaluation entry point uses.
pub const EVAL_BUDGET: u64 = 64;

impl Expression {
    /// The error value naming an unresolved variable.
    fn unresolved_value(name: &String) -> (r: Value)
        ensures
            r@ == (ValueView::Error(unresolved_msg(name@))),
    {
        let a = concat_strings("unable to resolve value `", name.as_str());
        let b = concat_strings(a.as_str(), "`");
        proof {
            assert(b@ =~= unresolved_msg(name@));
        }
        Value::Error(b)
    }

    /// Evaluates a literal's text against the environments.
    fn eval_literal_node(content: &String, ctx: &Context, global: &GlobalContext) -> (r: Value)
        requires
            ctx.wf(),
            global.wf(),
        ensures
            r@ == spec_eval_literal(content@, ctx@, global@),
            val_vw_wf(r@),
    {
        match crate::numtext::parse_decimal(content.as_str()) {
            Some(rat) => Value::Number(Complex::from_rational(rat)),
            None => {
                if starts_with(content.as_str(), "@") {
                    match global.resolve_variable(content) {
                        Some(v) => v,
                        None => Self::unresolved_value(content),
                    }
                } else {
                    match ctx.resolve_variable(content) {
                        Some(v) => v,
                        None => Self::unresolved_value(content),
                    }
                }
            },
        }
    }

    /// Performs the binding a storage operation makes, handing the stored
    /// value back.
    fn apply_store(
        lhs: &Expression,
        right: Value,
        ctx: &mut Context,
        global: &mut GlobalContext,
    ) -> (r: Value)
        requires
            old(ctx).wf(),
            old(global).wf(),
            val_vw_wf(right@),
        ensures
            eval_post(
                spec_apply_store(lhs@, right@, old(ctx)@, old(global)@),
                r@,
                final(ctx)@,
                final(global)@,
            ),
            final(ctx).wf(),
            final(global).wf(),
            val_vw_wf(r@),
            final(ctx).frames@.len() == old(ctx).frames@.len(),
    {
        proof {
            crate::expr::lemma_view_variant(*lhs);
        }
        match lhs {
            Expression::Literal { content, .. } => {
                if starts_with(content.as_str(), "@") {
                    global.set_variable(content.clone(), right.duplicate());
                } else {
                    ctx.set_variable(content.clone(), right.duplicate());
                }
            },
            _ => {},
        }
        right
    }

    /// Calls a lambda value: one fresh frame around the body, the
    /// parameter bound to the argument, popped afterwards.
    fn invoke_lambda(
        p: String,
        body: Expression,
        arg: Value,
        ctx: &mut Context,
        global: &mut GlobalContext,
        fuel: u64,
    ) -> (r: Value)
        requires
            old(ctx).wf(),
            old(global).wf(),
            val_vw_wf(arg@),
        ensures
            ({
                let inner = old(ctx)@.push(
                    Map::<Seq<char>, ValueView>::empty().insert(p@, arg@),
                );
                let o = spec_eval(body@, inner, old(global)@, fuel as nat);
                r@ == o.value && final(ctx)@ == o.stack.drop_last() && final(global)@ == o.globals
            }),
            final(ctx).wf(),
            final(global).wf(),
            val_vw_wf(r@),
            final(ctx).frames@.len() == old(ctx).frames@.len(),
        decreases fuel, body, 1nat, 1nat,
    {
        let ghost spre = ctx@;
        let ghost bv = arg@;
        let ghost pv = p@;
        ctx.push_frame();
        ctx.set_variable(p, arg);
        proof {
            assert(ctx@ =~= spre.push(Map::<Seq<char>, ValueView>::empty().insert(pv, bv)));
        }
        let out = body.eval_with_fuel(ctx, global, fuel);
        ctx.pop_frame();
        out
    }

    /// Evaluates a vector's elements in order, threading the environments.
    #[verifier::loop_isolation(false)]
    #[verifier::rlimit(60)]
    fn eval_vector(
        exprs: &Vec<Expression>,
        ctx: &mut Context,
        global: &mut GlobalContext,
        fuel: u64,
    ) -> (r: Value)
        requires
            old(ctx).wf(),
            old(global).wf(),
        ensures
            ({
                let o = spec_eval_list(
                    crate::expr::exprs_view(exprs@),
                    old(ctx)@,
                    old(global)@,
                    fuel as nat,
                );
                r@ == ValueView::Vector(o.0) && final(ctx)@ == o.1 && final(global)@ == o.2
            }),
            final(ctx).wf(),
            final(global).wf(),
            val_vw_wf(r@),
            final(ctx).frames@.len() == old(ctx).frames@.len(),
        decreases fuel, *exprs, 0nat, 0nat,
    {
        let mut out: Vec<Value> = Vec::new();
        let mut i: usize = 0;
        let ghost stack0 = ctx@;
        let ghost glob0 = global@;
        proof {
            crate::expr::lemma_exprs_view_index(exprs@);
            assert(exprs_view_prefix(exprs@, 0) =~= Seq::<ExprView>::empty());
        }
        while i < exprs.len()
            invariant
                i <= exprs@.len(),
                out@.len() == i,
                ctx.wf(),
                global.wf(),
                ctx.frames@.len() == old(ctx).frames@.len(),
                spec_eval_list(exprs_view_prefix(exprs@, i as int), stack0, glob0, fuel as nat)
                    == (values_view(out@), ctx@, global@),
                forall|j: int| 0 <= j < i ==> val_vw_wf(value_view(#[trigger] out@[j])),
            decreases exprs@.len() - i,
        {
            proof {
                assert(decreases_to!(*exprs => exprs@));
                assert(decreases_to!(exprs@ => exprs@[i as int]));
            }
            let ghost outpre = out@;
            let v = exprs[i].eval_with_fuel(ctx, global, fuel);
            out.push(v);
            i = i + 1;
            proof {
                let ghost p1 = exprs_view_prefix(exprs@, i as int);
                crate::expr::lemma_exprs_view_index(exprs@);
                assert(p1.drop_last() =~= exprs_view_prefix(exprs@, i - 1));
                assert(p1.last() == crate::expr::exprs_view(exprs@)[i - 1]);
                assert(p1.last() == crate::expr::expr_view(exprs@[i - 1]));
                assert(out@.drop_last() =~= outpre);
                assert(values_view(out@) == values_view(outpre).push(value_view(v)));
                assert(spec_eval_list(p1, stack0, glob0, fuel as nat) == (
                    values_view(out@),
                    ctx@,
                    global@,
                ));
            }
        }
        proof {
            assert(exprs_view_prefix(exprs@, exprs@.len() as int) =~= crate::expr::exprs_view(
                exprs@,
            ));
            lemma_values_view_index(out@);
            assert forall|j: int| 0 <= j < values_view(out@).len() implies val_vw_wf(
                #[trigger] values_view(out@)[j],
            ) by {
                assert(values_view(out@)[j] == value_view(out@[j]));
            }
            lemma_vals_vw_wf_index(values_view(out@));
        }
        Value::Vector(out)
    }

    /// The summation loop itself, from `start` to `maxn` inclusive.
    #[verifier::loop_isolation(false)]
    #[verifier::rlimit(60)]
    fn sum_loop_exec(
        body: &Expression,
        var: &String,
        start: i64,
        maxn: i64,
        ctx: &mut Context,
        global: &mut GlobalContext,
        fuel: u64,
    ) -> (r: Value)
        requires
            old(ctx).wf(),
            old(global).wf(),
            start > i64::MIN,
        ensures
            ({
                let zero = ValueView::Number((((0int, 1int), (0int, 1int))));
                let o = spec_sum_loop(
                    body@,
                    var@,
                    start as int,
                    maxn as int,
                    zero,
                    old(ctx)@,
                    old(global)@,
                    fuel as nat,
                );
                r@ == o.value && final(ctx)@ == o.stack && final(global)@ == o.globals
            }),
            final(ctx).wf(),
            final(global).wf(),
            val_vw_wf(r@),
            final(ctx).frames@.len() == old(ctx).frames@.len(),
        decreases fuel, *body, 1nat, 1nat,
    {
        let mut acc = Value::Number(Complex::zero());
        let mut i: i128 = start as i128;
        let ghost stack0 = ctx@;
        let ghost glob0 = global@;
        let ghost zero = ValueView::Number((((0int, 1int), (0int, 1int))));
        while i <= maxn as i128
            invariant
                start as i128 <= i,
                i <= maxn as i128 + 1 || i == start as i128,
                ctx.wf(),
                global.wf(),
                ctx.frames@.len() == old(ctx).frames@.len(),
                val_vw_wf(acc@),
                spec_sum_loop(
                    body@,
                    var@,
                    start as int,
                    maxn as int,
                    zero,
                    stack0,
                    glob0,
                    fuel as nat,
                ) == spec_sum_loop(
                    body@,
                    var@,
                    i as int,
                    maxn as int,
                    acc@,
                    ctx@,
                    global@,
                    fuel as nat,
                ),
            decreases maxn as i128 + 1 - i,
        {
            proof {
                crate::rational::lemma_gcd_one(crate::rational::iabs(i as int));
            }
            let iv = Value::Number(Complex::from_int(i as i64));
            ctx.set_variable(var.clone(), iv);
            let rv = body.eval_with_fuel(ctx, global, fuel);
            let next = Value::add(&acc, &rv);
            acc = next;
            i = i + 1;
        }
        acc
    }


    /// Evaluates a binary node: both operands left to right, then the
    /// operator; storage binds, invocation calls.
    #[verifier::rlimit(60)]
    fn eval_binary(whole: &Expression, ctx: &mut Context, global: &mut GlobalContext, fuel: u64)
        -> (r: Value)
        requires
            old(ctx).wf(),
            old(global).wf(),
            *whole is Binary,
        ensures
            eval_post(
                spec_eval(whole@, old(ctx)@, old(global)@, fuel as nat),
                r@,
                final(ctx)@,
                final(global)@,
            ),
            final(ctx).wf(),
            final(global).wf(),
            val_vw_wf(r@),
            final(ctx).frames@.len() == old(ctx).frames@.len(),
        decreases fuel, *whole, 0nat, 0nat,
    {
        match whole {
            Expression::Binary { op, lhs, rhs, .. } => {
                if matches!(op, BinaryOperation::Store) {
                    let right = rhs.eval_with_fuel(ctx, global, fuel);
                    Self::apply_store(lhs, right, ctx, global)
                } else if matches!(op, BinaryOperation::Invoke) {
                    let a = lhs.eval_with_fuel(ctx, global, fuel);
                    let b = rhs.eval_with_fuel(ctx, global, fuel);
                    match a {
                        Value::Lambda(p, body) => {
                            if fuel == 0 {
                                Value::Error("recursion depth exceeded".to_owned())
                            } else {
                                Self::invoke_lambda(p, body, b, ctx, global, fuel - 1)
                            }
                        },
                        _ => Value::Error("left-side must be a function".to_owned()),
                    }
                } else {
                    let a = lhs.eval_with_fuel(ctx, global, fuel);
                    let b = rhs.eval_with_fuel(ctx, global, fuel);
                    Value::apply_binop(*op, &a, &b)
                }
            },
            _ => {
                proof {
                    assert(false);
                }
                Value::Error(String::new())
            },
        }
    }

    /// Evaluates this tree with an explicit recursion budget.

    #[verifier::loop_isolation(false)]
    #[verifier::rlimit(100)]
    pub fn eval_with_fuel(&self, ctx: &mut Context, global: &mut GlobalContext, fuel: u64) -> (r:
        Value)
        requires
            old(ctx).wf(),
            old(global).wf(),
        ensures
            eval_post(
                spec_eval(self@, old(ctx)@, old(global)@, fuel as nat),
                r@,
                final(ctx)@,
                final(global)@,
            ),
            final(ctx).wf(),
            final(global).wf(),
            val_vw_wf(r@),
            final(ctx).frames@.len() == old(ctx).frames@.len(),
        decreases fuel, *self, 1nat, 0nat,
    {
        match self {
            Expression::Literal { content, .. } => Self::eval_literal_node(content, ctx, global),
            Expression::Unary { operation, expr, .. } => {
                let v = expr.eval_with_fuel(ctx, global, fuel);
                Value::unary_op(*operation, &v)
            },
            Expression::Binary { .. } => Self::eval_binary(self, ctx, global, fuel),
            Expression::Parenthesis { expr, .. } => expr.eval_with_fuel(ctx, global, fuel),
            Expression::GraphExpression { expr } => expr.eval_with_fuel(ctx, global, fuel),
            Expression::Vector { exprs, .. } => {
                proof {
                    let ghost whole = *self;
                    assert(decreases_to!(whole => *exprs));
                }
                Self::eval_vector(exprs, ctx, global, fuel)
            },
            Expression::Lambda { variable, expr } => {
                proof {
                    crate::expr::lemma_view_variant(**variable);
                }
                match &**variable {
                    Expression::Literal { content, .. } => Value::Lambda(
                        content.clone(),
                        expr.duplicate(),
                    ),
                    _ => Value::Error("variable must be a literal".to_owned()),
                }
            },
            Expression::Summation { minimum, maximum, variable, expression } => {
                proof {
                    crate::expr::lemma_view_variant(**variable);
                }
                match &**variable {
                    Expression::Literal { content, .. } => {
                        let a = minimum.eval_with_fuel(ctx, global, fuel);
                        let minv = a.round();
                        let b = maximum.eval_with_fuel(ctx, global, fuel);
                        let maxv = b.round();
                        Self::summation_core(&minv, &maxv, content, expression, ctx, global, fuel)
                    },
                    _ => Value::Error("variables must be a literal".to_owned()),
                }
            },
        }
    }

    /// The checks and the loop of a summation over rounded bounds.
    #[verifier::loop_isolation(false)]
    #[verifier::rlimit(60)]
    fn summation_core(
        minv: &Value,
        maxv: &Value,
        var: &String,
        body: &Expression,
        ctx: &mut Context,
        global: &mut GlobalContext,
        fuel: u64,
    ) -> (r: Value)
        requires
            old(ctx).wf(),
            old(global).wf(),
            val_vw_wf(minv@),
            val_vw_wf(maxv@),
        ensures
            eval_post(
                spec_summation_core(
                    minv@,
                    maxv@,
                    var@,
                    body@,
                    old(ctx)@,
                    old(global)@,
                    fuel as nat,
                ),
                r@,
                final(ctx)@,
                final(global)@,
            ),
            final(ctx).wf(),
            final(global).wf(),
            val_vw_wf(r@),
            final(ctx).frames@.len() == old(ctx).frames@.len(),
        decreases fuel, *body, 2nat, 0nat,
    {
        let minc = match minv {
            Value::Number(c) => c,
            _ => {
                return Value::Error("minimum of summation must be a number".to_owned());
            },
        };
        let maxc = match maxv {
            Value::Number(c) => c,
            _ => {
                return Value::Error("maximum of summation must be a number".to_owned());
            },
        };
        if !minc.im.is_zero() {
            return Value::Error("summation minimum can not be complex".to_owned());
        }
        if !maxc.im.is_zero() {
            return Value::Error("summation maximum can not be complex".to_owned());
        }
        if !minc.re.lt(&maxc.re) {
            return Value::Error("summation maximum can not be larger than minimum".to_owned());
        }
        let old_binding = ctx.resolve_variable(var);
        let start = minc.re.int_part();
        let maxn = maxc.re.int_part();
        let acc = Self::sum_loop_exec(body, var, start, maxn, ctx, global, fuel);
        match old_binding {
            Some(ov) => {
                ctx.set_variable(var.clone(), ov);
            },
            None => {
                ctx.remove_variable(var);
            },
        }
        acc
    }

    /// Evaluates this tree with the standard recursion budget.
    pub fn eval(&self, ctx: &mut Context, global: &mut GlobalContext) -> (r: Value)
        requires
            old(ctx).wf(),
            old(global).wf(),
        ensures
            eval_post(
                spec_eval(self@, old(ctx)@, old(global)@, EVAL_BUDGET as nat),
                r@,
                final(ctx)@,
                final(global)@,
            ),
            final(ctx).wf(),
            final(global).wf(),
            val_vw_wf(r@),
            final(ctx).frames@.len() == old(ctx).frames@.len(),
    {
        self.eval_with_fuel(ctx, global, EVAL_BUDGET)
    }

    /// Evaluates a summation from its four parts, as the evaluator does
    /// for a summation node.
    pub fn evaluate_summation(
        minimum: &Expression,
        maximum: &Expression,
        variable: &Expression,
        expression: &Expression,
        ctx: &mut Context,
        global: &mut GlobalContext,
        fuel: u64,
    ) -> (r: Value)
        requires
            old(ctx).wf(),
            old(global).wf(),
        ensures
            eval_post(
                spec_evaluate_summation(
                    minimum@,
                    maximum@,
                    variable@,
                    expression@,
                    old(ctx)@,
                    old(global)@,
                    fuel as nat,
                ),
                r@,
                final(ctx)@,
                final(global)@,
            ),
            final(ctx).wf(),
            final(global).wf(),
            val_vw_wf(r@),
            final(ctx).frames@.len() == old(ctx).frames@.len(),
    {
        proof {
            crate::expr::lemma_view_variant(*variable);
        }
        match variable {
            Expression::Literal { content, .. } => {
                let a = minimum.eval_with_fuel(ctx, global, fuel);
                let minv = a.round();
                let b = maximum.eval_with_fuel(ctx, global, fuel);
                let maxv = b.round();
                Self::summation_core(&minv, &maxv, content, expression, ctx, global, fuel)
            },
            _ => Value::Error("variables must be a literal".to_owned()),
        }
    }
}

/// The prefix of a tree sequence's views.
pub open spec fn exprs_view_prefix(s: Seq<Expression>, i: int) -> Seq<ExprView> {
    crate::expr::exprs_view(s).subrange(0, i)
}

impl Value {
    /// The value-level dispatch of a non-storage, non-invocation
    /// operator.
    fn apply_binop(op: BinaryOperation, a: &Value, b: &Value) -> (r: Value)
        requires
            val_vw_wf(a@),
            val_vw_wf(b@),
        ensures
            r@ == spec_apply_binop(op, a@, b@),
            val_vw_wf(r@),
    {
        match op {
            BinaryOperation::Add => Value::add(a, b),
            BinaryOperation::Sub => Value::sub(a, b),
            BinaryOperation::Multiply => Value::mul(a, b),
            BinaryOperation::Divide => Value::div(a, b),
            BinaryOperation::Power => Value::pow(a, b),
            BinaryOperation::Root => Value::root(a, b),
            BinaryOperation::GreaterThan => Value::compare(a, b, ComparisonResult::GreaterThan),
            BinaryOperation::LessThan => Value::compare(a, b, ComparisonResult::LessThan),
            BinaryOperation::GreaterThanOrEqual => Value::compare(
                a,
                b,
                ComparisonResult::GreaterThanOrEqual,
            ),
            BinaryOperation::LessThanOrEqual => Value::compare(
                a,
                b,
                ComparisonResult::LessThanOrEqual,
            ),
            BinaryOperation::Equal => Value::compare(a, b, ComparisonResult::Equal),
            BinaryOperation::Store => b.duplicate(),
            BinaryOperation::Invoke => b.duplicate(),
        }
    }

    /// Combines two already-evaluated operands: storage hands the right
    /// value back, invocation calls a lambda value in a fresh frame, and
    /// every other operation is its value-algebra function.
    pub fn bin_op(
        op: BinaryOperation,
        lhs: &Value,
        rhs: &Value,
        ctx: &mut Context,
        global: &mut GlobalContext,
        fuel: u64,
    ) -> (r: Value)
        requires
            old(ctx).wf(),
            old(global).wf(),
            val_vw_wf(lhs@),
            val_vw_wf(rhs@),
        ensures
            eval_post(
                spec_bin_op(op, lhs@, rhs@, old(ctx)@, old(global)@, fuel as nat),
                r@,
                final(ctx)@,
                final(global)@,
            ),
            final(ctx).wf(),
            final(global).wf(),
            val_vw_wf(r@),
            final(ctx).frames@.len() == old(ctx).frames@.len(),
    {
        if matches!(op, BinaryOperation::Invoke) {
            match lhs {
                Value::Lambda(p, body) => {
                    if fuel == 0 {
                        Value::Error("recursion depth exceeded".to_owned())
                    } else {
                        let ghost spre = ctx@;
                        ctx.push_frame();
                        ctx.set_variable(p.clone(), rhs.duplicate());
                        proof {
                            assert(ctx@ =~= spre.push(
                                Map::<Seq<char>, ValueView>::empty().insert(p@, rhs@),
                            ));
                        }
                        let out = body.eval_with_fuel(ctx, global, fuel - 1);
                        ctx.pop_frame();
                        out
                    }
                },
                _ => Value::Error("left-side must be a function".to_owned()),
            }
        } else {
            Self::apply_binop(op, lhs, rhs)
        }
    }
}

} // verus!
