//! The value algebra: the tagged union of computable results and its
//! total, panic-free operations. Numbers are exact complex rationals;
//! vectors combine elementwise; errors are data that propagate through
//! enclosing operations; negation is multiplication by the complex unit
//! `-1-1i`. The transcendental functions keep their elementwise and
//! error-passthrough structure, but a scalar application reports an error:
//! their values are irrational and cannot be held exactly.

use vstd::prelude::*;
use crate::complex::{
    Complex, CpxV, spec_cpx_add, spec_cpx_sub, spec_cpx_mul, spec_cpx_div, spec_cpx_pow_nat,
};
use crate::expr::{Expression, ExprView, UnaryOperation};
use crate::rational::{Rational, rat_pair_wf, spec_rat_round, lemma_gcd_one};
use crate::numtext::{spec_rat_chars, rat_to_chars};
use crate::strings::{push_chars, chars_to_string, str_to_chars};

verus! {

/// A computable result.
#[derive(Debug, PartialEq)]
pub enum Value {
    Number(Complex),
    Vector(Vec<Value>),
    Lambda(String, Expression),
    Boolean(bool),
    Error(String),
}

/// The mathematical view of a value.
pub enum ValueView {
    Number(CpxV),
    Vector(Seq<ValueView>),
    Lambda(Seq<char>, ExprView),
    Boolean(bool),
    Error(Seq<char>),
}

/// The views of a sequence of values, elementwise.
pub open spec fn values_view(s: Seq<Value>) -> Seq<ValueView>
    decreases s,
    via values_view_decreases
{
    if s.len() == 0 {
        Seq::empty()
    } else {
        values_view(s.drop_last()).push(value_view(s.last()))
    }
}

#[via_fn]
proof fn values_view_decreases(s: Seq<Value>) {
    if s.len() > 0 {
        vstd::seq::axiom_seq_subrange_decreases(s, 0, s.len() - 1);
        assert(s.drop_last() == s.subrange(0, s.len() - 1));
        assert(decreases_to!(s => s[s.len() - 1]));
    }
}

/// The view of a value.
pub open spec fn value_view(v: Value) -> ValueView
    decreases v,
    via value_view_decreases
{
    match v {
        Value::Number(c) => ValueView::Number(c.pv()),
        Value::Vector(vals) => ValueView::Vector(values_view(vals@)),
        Value::Lambda(p, body) => ValueView::Lambda(p@, body@),
        Value::Boolean(b) => ValueView::Boolean(b),
        Value::Error(m) => ValueView::Error(m@),
    }
}

#[via_fn]
proof fn value_view_decreases(v: Value) {
    match v {
        Value::Vector(vals) => {
            assert(decreases_to!(v => vals));
            assert(decreases_to!(vals => vals@));
        },
        _ => {},
    }
}

impl View for Value {
    type V = ValueView;

    open spec fn view(&self) -> ValueView {
        value_view(*self)
    }
}

/// The element views of a sequence of values, by index.
pub proof fn lemma_values_view_index(s: Seq<Value>)
    ensures
        values_view(s).len() == s.len(),
        forall|i: int| 0 <= i < s.len() ==> values_view(s)[i] == value_view(#[trigger] s[i]),
    decreases s,
{
    if s.len() > 0 {
        vstd::seq::axiom_seq_subrange_decreases(s, 0, s.len() - 1);
        assert(s.drop_last() == s.subrange(0, s.len() - 1));
        lemma_values_view_index(s.drop_last());
        assert(forall|i: int| 0 <= i < s.len() - 1 ==> #[trigger] s[i] == s.drop_last()[i]);
    }
}

/// Well-formedness of the numbers inside a value: every rational component
/// is canonical and in range.
pub open spec fn val_vw_wf(v: ValueView) -> bool
    decreases v,
{
    match v {
        ValueView::Number(c) => rat_pair_wf(c.0) && rat_pair_wf(c.1),
        ValueView::Vector(s) => vals_vw_wf(s),
        _ => true,
    }
}

/// Well-formedness of every element of a sequence of value views.
pub open spec fn vals_vw_wf(s: Seq<ValueView>) -> bool
    decreases s,
    via vals_vw_wf_decreases
{
    s.len() == 0 || (vals_vw_wf(s.drop_last()) && val_vw_wf(s.last()))
}

#[via_fn]
proof fn vals_vw_wf_decreases(s: Seq<ValueView>) {
    if s.len() > 0 {
        vstd::seq::axiom_seq_subrange_decreases(s, 0, s.len() - 1);
        assert(s.drop_last() == s.subrange(0, s.len() - 1));
        assert(decreases_to!(s => s[s.len() - 1]));
    }
}

/// Elementwise well-formedness, by index.
pub proof fn lemma_vals_vw_wf_index(s: Seq<ValueView>)
    ensures
        vals_vw_wf(s) <==> (forall|i: int| 0 <= i < s.len() ==> val_vw_wf(#[trigger] s[i])),
    decreases s,
{
    if s.len() > 0 {
        vstd::seq::axiom_seq_subrange_decreases(s, 0, s.len() - 1);
        assert(s.drop_last() == s.subrange(0, s.len() - 1));
        lemma_vals_vw_wf_index(s.drop_last());
        assert(forall|i: int| 0 <= i < s.len() - 1 ==> #[trigger] s[i] == s.drop_last()[i]);
        if forall|i: int| 0 <= i < s.len() ==> val_vw_wf(#[trigger] s[i]) {
            assert(forall|i: int| 0 <= i < s.drop_last().len() ==> val_vw_wf(
                #[trigger] s.drop_last()[i],
            ));
        }
    }
}

// ---------------------------------------------------------------------------
// Formatting
// ---------------------------------------------------------------------------

/// The display text of a complex pair: the real part alone for real
/// values, else the two parts joined with the sign of the imaginary part
/// and a trailing `i`.
pub open spec fn spec_display_number(c: CpxV) -> Seq<char> {
    if (c.1).0 == 0 {
        spec_rat_chars(c.0)
    } else if (c.1).0 < 0 {
        spec_rat_chars(c.0) + seq!['-'] + spec_rat_chars((-((c.1).0), (c.1).1)) + seq!['i']
    } else {
        spec_rat_chars(c.0) + seq!['+'] + spec_rat_chars(c.1) + seq!['i']
    }
}

/// The display text of a value.
pub open spec fn spec_display(v: ValueView) -> Seq<char>
    decreases v,
    via spec_display_decreases
{
    match v {
        ValueView::Number(c) => spec_display_number(c),
        ValueView::Vector(s) => seq!['<'] + spec_display_list(s) + seq!['>'],
        ValueView::Lambda(p, _) => "fn("@ + p + "): <...>"@,
        ValueView::Boolean(b) => if b {
            "true"@
        } else {
            "false"@
        },
        ValueView::Error(m) => "error: \""@ + m + seq!['"'],
    }
}

#[via_fn]
proof fn spec_display_decreases(v: ValueView) {
    match v {
        ValueView::Vector(s) => {
            assert(decreases_to!(v => s));
        },
        _ => {},
    }
}

/// The elements' display texts joined with `, `.
pub open spec fn spec_display_list(s: Seq<ValueView>) -> Seq<char>
    decreases s,
    via spec_display_list_decreases
{
    if s.len() == 0 {
        Seq::empty()
    } else if s.len() == 1 {
        spec_display(s[0])
    } else {
        spec_display_list(s.drop_last()) + ", "@ + spec_display(s.last())
    }
}

#[via_fn]
proof fn spec_display_list_decreases(s: Seq<ValueView>) {
    if s.len() > 0 {
        vstd::seq::axiom_seq_subrange_decreases(s, 0, s.len() - 1);
        assert(s.drop_last() == s.subrange(0, s.len() - 1));
        assert(decreases_to!(s => s[0]));
        assert(decreases_to!(s => s[s.len() - 1]));
    }
}

impl Value {
    /// Renders the value as characters, per `spec_display`.
    #[verifier::loop_isolation(false)]
    fn render_chars(&self) -> (r: Vec<char>)
        requires
            val_vw_wf(self@),
        ensures
            r@ == spec_display(self@),
        decreases *self,
    {
        match self {
            Value::Number(c) => {
                let mut out = rat_to_chars(&c.re);
                if !c.im.is_zero() {
                    let imn = c.im.int_part();
                    if imn < 0 {
                        out.push('-');
                        let flipped = c.im.neg();
                        let imc = rat_to_chars(&flipped);
                        push_chars(&mut out, &imc);
                    } else {
                        out.push('+');
                        let imc = rat_to_chars(&c.im);
                        push_chars(&mut out, &imc);
                    }
                    out.push('i');
                    proof {
                        assert(out@ =~= spec_display(self@));
                    }
                }
                out
            },
            Value::Vector(vals) => {
                let mut out: Vec<char> = Vec::new();
                out.push('<');
                let mut i: usize = 0;
                proof {
                    lemma_values_view_index(vals@);
                    lemma_vals_vw_wf_index(values_view(vals@));
                }
                while i < vals.len()
                    invariant
                        i <= vals@.len(),
                        out@ == seq!['<'] + spec_display_list(values_view(vals@).subrange(
                            0,
                            i as int,
                        )),
                    decreases vals@.len() - i,
                {
                    proof {
                        let ghost whole = Value::Vector(*vals);
                        assert(*self == whole);
                        assert(decreases_to!(whole => *vals));
                        assert(decreases_to!(*vals => vals@));
                        assert(decreases_to!(vals@ => vals@[i as int]));
                        assert(values_view(vals@)[i as int] == value_view(vals@[i as int]));
                    }
                    if i > 0 {
                        let sep = str_to_chars(", ");
                        push_chars(&mut out, &sep);
                    }
                    let ec = vals[i].render_chars();
                    push_chars(&mut out, &ec);
                    proof {
                        let ghost vs = values_view(vals@);
                        assert(vs.subrange(0, i + 1).drop_last() =~= vs.subrange(0, i as int));
                        assert(vs.subrange(0, i + 1).last() == vs[i as int]);
                        if i == 0 {
                            assert(out@ =~= seq!['<'] + spec_display_list(vs.subrange(0, 1)));
                        } else {
                            assert(out@ =~= seq!['<'] + spec_display_list(vs.subrange(0, i + 1)));
                        }
                    }
                    i = i + 1;
                }
                out.push('>');
                proof {
                    assert(values_view(vals@).subrange(0, vals@.len() as int) =~= values_view(
                        vals@,
                    ));
                    assert(out@ =~= seq!['<'] + spec_display_list(values_view(vals@)) + seq!['>']);
                }
                out
            },
            Value::Lambda(p, _) => {
                let mut out = str_to_chars("fn(");
                let pc = str_to_chars(p.as_str());
                push_chars(&mut out, &pc);
                let tail = str_to_chars("): <...>");
                push_chars(&mut out, &tail);
                proof {
                    assert(out@ =~= spec_display(self@));
                }
                out
            },
            Value::Boolean(b) => {
                if *b {
                    str_to_chars("true")
                } else {
                    str_to_chars("false")
                }
            },
            Value::Error(m) => {
                let mut out = str_to_chars("error: \"");
                let mc = str_to_chars(m.as_str());
                push_chars(&mut out, &mc);
                out.push('"');
                proof {
                    assert(out@ =~= spec_display(self@));
                }
                out
            },
        }
    }

    /// Renders the value as display text: `re` or `re+im·i` for numbers,
    /// `<v1, v2>` for vectors, `error: "message"` for errors.
    pub fn to_display_string(&self) -> (r: String)
        requires
            val_vw_wf(self@),
        ensures
            r@ == spec_display(self@),
    {
        let v = self.render_chars();
        chars_to_string(&v)
    }

    /// A deep copy of the value.
    #[verifier::loop_isolation(false)]
    pub fn duplicate(&self) -> (r: Value)
        ensures
            r@ == self@,
        decreases *self,
    {
        match self {
            Value::Number(c) => Value::Number(*c),
            Value::Vector(vals) => {
                let mut out: Vec<Value> = Vec::new();
                let mut i: usize = 0;
                while i < vals.len()
                    invariant
                        i <= vals@.len(),
                        out@.len() == i,
                        forall|j: int| 0 <= j < i ==> value_view(#[trigger] out@[j]) == value_view(
                            vals@[j],
                        ),
                    decreases vals@.len() - i,
                {
                    proof {
                        let ghost whole = Value::Vector(*vals);
                        assert(*self == whole);
                        assert(decreases_to!(whole => *vals));
                        assert(decreases_to!(*vals => vals@));
                        assert(decreases_to!(vals@ => vals@[i as int]));
                    }
                    let d = vals[i].duplicate();
                    out.push(d);
                    i = i + 1;
                }
                proof {
                    lemma_values_view_index(vals@);
                    lemma_values_view_index(out@);
                    assert forall|j: int| 0 <= j < vals@.len() implies values_view(out@)[j]
                        == values_view(vals@)[j] by {
                        assert(values_view(out@)[j] == value_view(out@[j]));
                        assert(values_view(vals@)[j] == value_view(vals@[j]));
                    }
                    assert(values_view(out@) =~= values_view(vals@));
                }
                Value::Vector(out)
            },
            Value::Lambda(p, body) => Value::Lambda(p.clone(), body.duplicate()),
            Value::Boolean(b) => Value::Boolean(*b),
            Value::Error(m) => Value::Error(m.clone()),
        }
    }
}

// ---------------------------------------------------------------------------
// Binary arithmetic
// ---------------------------------------------------------------------------

/// The arithmetic operations that combine two values elementwise.
#[derive(Clone, Copy, Debug, PartialEq, Eq, Structural)]
pub enum ArithOp {
    Add,
    Sub,
    Mul,
    Div,
}

/// The error text for vectors of mismatched length.
pub open spec fn spec_arith_len_msg(op: ArithOp) -> Seq<char> {
    match op {
        ArithOp::Add => "vectors must have same length to be added"@,
        ArithOp::Sub => "vectors must have same length to be subtracted"@,
        ArithOp::Mul => "vectors must have same length to be multiplied"@,
        ArithOp::Div => "vectors must have same length to be divided"@,
    }
}

/// The error text for an unsupported operand combination.
pub open spec fn spec_unsupported_msg(a: ValueView, b: ValueView) -> Seq<char> {
    "Operation on "@ + spec_display(a) + " and "@ + spec_display(b) + " not supported"@
}

/// A numeric result, or the overflow error when it does not fit.
pub open spec fn spec_wrap_cpx(r: Option<CpxV>) -> ValueView {
    match r {
        Some(c) => ValueView::Number(c),
        None => ValueView::Error("arithmetic overflow"@),
    }
}

/// The complex pair is zero.
pub open spec fn cpx_is_zero(c: CpxV) -> bool {
    (c.0).0 == 0 && (c.1).0 == 0
}

/// Exact arithmetic on two values: numbers combine by complex arithmetic,
/// vectors of equal length combine elementwise, division by zero and any
/// other pairing are errors.
pub open spec fn spec_val_arith(op: ArithOp, a: ValueView, b: ValueView) -> ValueView
    decreases a,
    via spec_val_arith_decreases
{
    match (a, b) {
        (ValueView::Number(x), ValueView::Number(y)) => match op {
            ArithOp::Add => spec_wrap_cpx(spec_cpx_add(x, y)),
            ArithOp::Sub => spec_wrap_cpx(spec_cpx_sub(x, y)),
            ArithOp::Mul => spec_wrap_cpx(spec_cpx_mul(x, y)),
            ArithOp::Div => if cpx_is_zero(y) {
                ValueView::Error("division by zero"@)
            } else {
                spec_wrap_cpx(spec_cpx_div(x, y))
            },
        },
        (ValueView::Vector(xs), ValueView::Vector(ys)) => if xs.len() != ys.len() {
            ValueView::Error(spec_arith_len_msg(op))
        } else {
            ValueView::Vector(spec_val_arith_elems(op, xs, ys))
        },
        _ => ValueView::Error(spec_unsupported_msg(a, b)),
    }
}

#[via_fn]
proof fn spec_val_arith_decreases(op: ArithOp, a: ValueView, b: ValueView) {
    match a {
        ValueView::Vector(xs) => {
            assert(decreases_to!(a => xs));
        },
        _ => {},
    }
}

/// Elementwise arithmetic over two sequences of equal length.
pub open spec fn spec_val_arith_elems(op: ArithOp, xs: Seq<ValueView>, ys: Seq<ValueView>) -> Seq<
    ValueView,
>
    decreases xs,
    via spec_val_arith_elems_decreases
{
    if xs.len() == 0 || ys.len() == 0 {
        Seq::empty()
    } else {
        spec_val_arith_elems(op, xs.drop_last(), ys.drop_last()).push(
            spec_val_arith(op, xs.last(), ys.last()),
        )
    }
}

#[via_fn]
proof fn spec_val_arith_elems_decreases(op: ArithOp, xs: Seq<ValueView>, ys: Seq<ValueView>) {
    if xs.len() > 0 && ys.len() > 0 {
        vstd::seq::axiom_seq_subrange_decreases(xs, 0, xs.len() - 1);
        assert(xs.drop_last() == xs.subrange(0, xs.len() - 1));
        assert(decreases_to!(xs => xs[xs.len() - 1]));
    }
}

/// Elementwise arithmetic, by index.
pub proof fn lemma_val_arith_elems_index(op: ArithOp, xs: Seq<ValueView>, ys: Seq<ValueView>)
    requires
        xs.len() == ys.len(),
    ensures
        spec_val_arith_elems(op, xs, ys).len() == xs.len(),
        forall|i: int| 0 <= i < xs.len() ==> spec_val_arith_elems(op, xs, ys)[i] == spec_val_arith(
            op,
            #[trigger] xs[i],
            ys[i],
        ),
    decreases xs,
{
    if xs.len() > 0 {
        vstd::seq::axiom_seq_subrange_decreases(xs, 0, xs.len() - 1);
        assert(xs.drop_last() == xs.subrange(0, xs.len() - 1));
        lemma_val_arith_elems_index(op, xs.drop_last(), ys.drop_last());
        assert(forall|i: int| 0 <= i < xs.len() - 1 ==> #[trigger] xs[i] == xs.drop_last()[i]);
        assert(forall|i: int| 0 <= i < ys.len() - 1 ==> #[trigger] ys[i] == ys.drop_last()[i]);
    }
}

impl Value {
    /// A numeric result, or the overflow error.
    fn wrap_cpx(c: Option<Complex>) -> (out: Value)
        requires
            c is Some ==> c->0.wf(),
        ensures
            out@ == spec_wrap_cpx(
                match c {
                    Some(x) => Some(x.pv()),
                    None => None,
                },
            ),
            val_vw_wf(out@),
    {
        match c {
            Some(x) => Value::Number(x),
            None => Value::Error("arithmetic overflow".to_owned()),
        }
    }

    /// The error value for an unsupported operand combination.
    fn unsupported(lhs: &Value, rhs: &Value) -> (out: Value)
        requires
            val_vw_wf(lhs@),
            val_vw_wf(rhs@),
        ensures
            out@ == (ValueView::Error(spec_unsupported_msg(lhs@, rhs@))),
    {
        let mut msg = str_to_chars("Operation on ");
        let lc = lhs.render_chars();
        push_chars(&mut msg, &lc);
        let mid = str_to_chars(" and ");
        push_chars(&mut msg, &mid);
        let rc = rhs.render_chars();
        push_chars(&mut msg, &rc);
        let tail = str_to_chars(" not supported");
        push_chars(&mut msg, &tail);
        proof {
            assert(msg@ =~= spec_unsupported_msg(lhs@, rhs@));
        }
        Value::Error(chars_to_string(&msg))
    }

    /// Exact arithmetic on two values.
    #[verifier::loop_isolation(false)]
    fn arith(op: ArithOp, lhs: &Value, rhs: &Value) -> (r: Value)
        requires
            val_vw_wf(lhs@),
            val_vw_wf(rhs@),
        ensures
            r@ == spec_val_arith(op, lhs@, rhs@),
            val_vw_wf(r@),
        decreases *lhs,
    {
        match (lhs, rhs) {
            (Value::Number(x), Value::Number(y)) => match op {
                ArithOp::Add => Self::wrap_cpx(x.add(y)),
                ArithOp::Sub => Self::wrap_cpx(x.sub(y)),
                ArithOp::Mul => Self::wrap_cpx(x.mul(y)),
                ArithOp::Div => {
                    if y.is_zero() {
                        Value::Error("division by zero".to_owned())
                    } else {
                        Self::wrap_cpx(x.div(y))
                    }
                },
            },
            (Value::Vector(xs), Value::Vector(ys)) => {
                proof {
                    lemma_values_view_index(xs@);
                    lemma_values_view_index(ys@);
                }
                if xs.len() != ys.len() {
                    let m = match op {
                        ArithOp::Add => "vectors must have same length to be added".to_owned(),
                        ArithOp::Sub => "vectors must have same length to be subtracted".to_owned(),
                        ArithOp::Mul => "vectors must have same length to be multiplied".to_owned(),
                        ArithOp::Div => "vectors must have same length to be divided".to_owned(),
                    };
                    Value::Error(m)
                } else {
                    let mut out: Vec<Value> = Vec::new();
                    let mut i: usize = 0;
                    proof {
                        lemma_values_view_index(xs@);
                        lemma_values_view_index(ys@);
                        lemma_vals_vw_wf_index(values_view(xs@));
                        lemma_vals_vw_wf_index(values_view(ys@));
                    }
                    while i < xs.len()
                        invariant
                            i <= xs@.len(),
                            out@.len() == i,
                            forall|j: int| 0 <= j < i ==> value_view(#[trigger] out@[j])
                                == spec_val_arith(op, value_view(xs@[j]), value_view(ys@[j])),
                            forall|j: int| 0 <= j < i ==> val_vw_wf(value_view(#[trigger] out@[j])),
                        decreases xs@.len() - i,
                    {
                        proof {
                            let ghost whole = Value::Vector(*xs);
                            assert(*lhs == whole);
                            assert(decreases_to!(whole => *xs));
                            assert(decreases_to!(*xs => xs@));
                            assert(decreases_to!(xs@ => xs@[i as int]));
                        }
                        let e = Self::arith(op, &xs[i], &ys[i]);
                        out.push(e);
                        i = i + 1;
                    }
                    proof {
                        lemma_values_view_index(out@);
                        lemma_val_arith_elems_index(op, values_view(xs@), values_view(ys@));
                        assert forall|j: int| 0 <= j < xs@.len() implies values_view(out@)[j]
                            == spec_val_arith_elems(op, values_view(xs@), values_view(ys@))[j] by {
                            assert(values_view(out@)[j] == value_view(out@[j]));
                        }
                        assert(values_view(out@) =~= spec_val_arith_elems(
                            op,
                            values_view(xs@),
                            values_view(ys@),
                        ));
                        assert forall|j: int|
                            0 <= j < values_view(out@).len() implies val_vw_wf(
                            #[trigger] values_view(out@)[j],
                        ) by {
                            assert(values_view(out@)[j] == value_view(out@[j]));
                        }
                        lemma_vals_vw_wf_index(values_view(out@));
                    }
                    Value::Vector(out)
                }
            },
            _ => Self::unsupported(lhs, rhs),
        }
    }

    /// Exact addition: numbers add, equal-length vectors add elementwise.
    pub fn add(lhs: &Value, rhs: &Value) -> (r: Value)
        requires
            val_vw_wf(lhs@),
            val_vw_wf(rhs@),
        ensures
            r@ == spec_val_arith(ArithOp::Add, lhs@, rhs@),
            val_vw_wf(r@),
    {
        Self::arith(ArithOp::Add, lhs, rhs)
    }

    /// Exact subtraction.
    pub fn sub(lhs: &Value, rhs: &Value) -> (r: Value)
        requires
            val_vw_wf(lhs@),
            val_vw_wf(rhs@),
        ensures
            r@ == spec_val_arith(ArithOp::Sub, lhs@, rhs@),
            val_vw_wf(r@),
    {
        Self::arith(ArithOp::Sub, lhs, rhs)
    }

    /// Exact multiplication.
    pub fn mul(lhs: &Value, rhs: &Value) -> (r: Value)
        requires
            val_vw_wf(lhs@),
            val_vw_wf(rhs@),
        ensures
            r@ == spec_val_arith(ArithOp::Mul, lhs@, rhs@),
            val_vw_wf(r@),
    {
        Self::arith(ArithOp::Mul, lhs, rhs)
    }

    /// Exact division; dividing by zero is an error value.
    pub fn div(lhs: &Value, rhs: &Value) -> (r: Value)
        requires
            val_vw_wf(lhs@),
            val_vw_wf(rhs@),
        ensures
            r@ == spec_val_arith(ArithOp::Div, lhs@, rhs@),
            val_vw_wf(r@),
    {
        Self::arith(ArithOp::Div, lhs, rhs)
    }
}

// ---------------------------------------------------------------------------
// Comparison
// ---------------------------------------------------------------------------

/// The relation a comparison tests for.
#[derive(Clone, Copy, Debug, PartialEq, Eq, Structural)]
pub enum ComparisonResult {
    GreaterThan,
    LessThan,
    GreaterThanOrEqual,
    LessThanOrEqual,
    Equal,
}

/// Comparison of two values: numbers compare by their real parts alone;
/// vectors of equal length compare elementwise; any other pairing is an
/// error.
pub open spec fn spec_val_compare(a: ValueView, b: ValueView, expected: ComparisonResult)
    -> ValueView
    decreases a,
    via spec_val_compare_decreases
{
    match (a, b) {
        (ValueView::Number(x), ValueView::Number(y)) => {
            let lx = (x.0).0 * (y.0).1;
            let ly = (y.0).0 * (x.0).1;
            if lx > ly {
                ValueView::Boolean(expected == ComparisonResult::GreaterThan || expected
                    == ComparisonResult::GreaterThanOrEqual)
            } else if lx < ly {
                ValueView::Boolean(expected == ComparisonResult::LessThan || expected
                    == ComparisonResult::LessThanOrEqual)
            } else {
                ValueView::Boolean(expected == ComparisonResult::Equal || expected
                    == ComparisonResult::GreaterThanOrEqual || expected
                    == ComparisonResult::LessThanOrEqual)
            }
        },
        (ValueView::Vector(xs), ValueView::Vector(ys)) => if xs.len() != ys.len() {
            ValueView::Error("vectors must have same length to be compared"@)
        } else {
            ValueView::Vector(spec_val_compare_elems(xs, ys, expected))
        },
        _ => ValueView::Error("invalid comparison operands"@),
    }
}

#[via_fn]
proof fn spec_val_compare_decreases(a: ValueView, b: ValueView, expected: ComparisonResult) {
    match a {
        ValueView::Vector(xs) => {
            assert(decreases_to!(a => xs));
        },
        _ => {},
    }
}

/// Elementwise comparison over two sequences of equal length.
pub open spec fn spec_val_compare_elems(
    xs: Seq<ValueView>,
    ys: Seq<ValueView>,
    expected: ComparisonResult,
) -> Seq<ValueView>
    decreases xs,
    via spec_val_compare_elems_decreases
{
    if xs.len() == 0 || ys.len() == 0 {
        Seq::empty()
    } else {
        spec_val_compare_elems(xs.drop_last(), ys.drop_last(), expected).push(
            spec_val_compare(xs.last(), ys.last(), expected),
        )
    }
}

#[via_fn]
proof fn spec_val_compare_elems_decreases(
    xs: Seq<ValueView>,
    ys: Seq<ValueView>,
    expected: ComparisonResult,
) {
    if xs.len() > 0 && ys.len() > 0 {
        vstd::seq::axiom_seq_subrange_decreases(xs, 0, xs.len() - 1);
        assert(xs.drop_last() == xs.subrange(0, xs.len() - 1));
        assert(decreases_to!(xs => xs[xs.len() - 1]));
    }
}

/// Elementwise comparison, by index.
pub proof fn lemma_val_compare_elems_index(
    xs: Seq<ValueView>,
    ys: Seq<ValueView>,
    expected: ComparisonResult,
)
    requires
        xs.len() == ys.len(),
    ensures
        spec_val_compare_elems(xs, ys, expected).len() == xs.len(),
        forall|i: int| 0 <= i < xs.len() ==> spec_val_compare_elems(xs, ys, expected)[i]
            == spec_val_compare(#[trigger] xs[i], ys[i], expected),
    decreases xs,
{
    if xs.len() > 0 {
        vstd::seq::axiom_seq_subrange_decreases(xs, 0, xs.len() - 1);
        assert(xs.drop_last() == xs.subrange(0, xs.len() - 1));
        lemma_val_compare_elems_index(xs.drop_last(), ys.drop_last(), expected);
        assert(forall|i: int| 0 <= i < xs.len() - 1 ==> #[trigger] xs[i] == xs.drop_last()[i]);
        assert(forall|i: int| 0 <= i < ys.len() - 1 ==> #[trigger] ys[i] == ys.drop_last()[i]);
    }
}

impl Value {
    /// Compares the real parts of two numbers against the expected
    /// relation; vectors of equal length compare elementwise.
    #[verifier::loop_isolation(false)]
    pub fn compare(lhs: &Value, rhs: &Value, expected: ComparisonResult) -> (r: Value)
        requires
            val_vw_wf(lhs@),
            val_vw_wf(rhs@),
        ensures
            r@ == spec_val_compare(lhs@, rhs@, expected),
            val_vw_wf(r@),
        decreases *lhs,
    {
        match (lhs, rhs) {
            (Value::Number(x), Value::Number(y)) => {
                if y.re.lt(&x.re) {
                    Value::Boolean(
                        expected == ComparisonResult::GreaterThan || expected
                            == ComparisonResult::GreaterThanOrEqual,
                    )
                } else if x.re.lt(&y.re) {
                    Value::Boolean(
                        expected == ComparisonResult::LessThan || expected
                            == ComparisonResult::LessThanOrEqual,
                    )
                } else {
                    Value::Boolean(
                        expected == ComparisonResult::Equal || expected
                            == ComparisonResult::GreaterThanOrEqual || expected
                            == ComparisonResult::LessThanOrEqual,
                    )
                }
            },
            (Value::Vector(xs), Value::Vector(ys)) => {
                proof {
                    lemma_values_view_index(xs@);
                    lemma_values_view_index(ys@);
                }
                if xs.len() != ys.len() {
                    Value::Error("vectors must have same length to be compared".to_owned())
                } else {
                    let mut out: Vec<Value> = Vec::new();
                    let mut i: usize = 0;
                    proof {
                        lemma_vals_vw_wf_index(values_view(xs@));
                        lemma_vals_vw_wf_index(values_view(ys@));
                    }
                    while i < xs.len()
                        invariant
                            i <= xs@.len(),
                            out@.len() == i,
                            forall|j: int| 0 <= j < i ==> value_view(#[trigger] out@[j])
                                == spec_val_compare(
                                value_view(xs@[j]),
                                value_view(ys@[j]),
                                expected,
                            ),
                            forall|j: int| 0 <= j < i ==> val_vw_wf(value_view(#[trigger] out@[j])),
                        decreases xs@.len() - i,
                    {
                        proof {
                            let ghost whole = Value::Vector(*xs);
                            assert(*lhs == whole);
                            assert(decreases_to!(whole => *xs));
                            assert(decreases_to!(*xs => xs@));
                            assert(decreases_to!(xs@ => xs@[i as int]));
                        }
                        let e = Self::compare(&xs[i], &ys[i], expected);
                        out.push(e);
                        i = i + 1;
                    }
                    proof {
                        lemma_values_view_index(out@);
                        lemma_val_compare_elems_index(values_view(xs@), values_view(ys@), expected);
                        assert forall|j: int| 0 <= j < xs@.len() implies values_view(out@)[j]
                            == spec_val_compare_elems(
                            values_view(xs@),
                            values_view(ys@),
                            expected,
                        )[j] by {
                            assert(values_view(out@)[j] == value_view(out@[j]));
                        }
                        assert(values_view(out@) =~= spec_val_compare_elems(
                            values_view(xs@),
                            values_view(ys@),
                            expected,
                        ));
                        assert forall|j: int|
                            0 <= j < values_view(out@).len() implies val_vw_wf(
                            #[trigger] values_view(out@)[j],
                        ) by {
                            assert(values_view(out@)[j] == value_view(out@[j]));
                        }
                        lemma_vals_vw_wf_index(values_view(out@));
                    }
                    Value::Vector(out)
                }
            },
            _ => Value::Error("invalid comparison operands".to_owned()),
        }
    }
}

// ---------------------------------------------------------------------------
// Powers and roots
// ---------------------------------------------------------------------------

/// Exact exponentiation: the exponent must be an integer, a negative
/// exponent inverts the positive power; vectors of equal length combine
/// elementwise.
pub open spec fn spec_val_pow(a: ValueView, b: ValueView) -> ValueView
    decreases a,
    via spec_val_pow_decreases
{
    match (a, b) {
        (ValueView::Number(x), ValueView::Number(y)) => {
            if ((y.1).0) != 0 || ((y.0).1) != 1 {
                ValueView::Error("exponent not supported in exact arithmetic"@)
            } else {
                let e = (y.0).0;
                if e >= 0 {
                    spec_wrap_cpx(spec_cpx_pow_nat(x, e as nat))
                } else {
                    match spec_cpx_pow_nat(x, (-e) as nat) {
                        None => ValueView::Error("arithmetic overflow"@),
                        Some(p) => if cpx_is_zero(p) {
                            ValueView::Error("division by zero"@)
                        } else {
                            spec_wrap_cpx(spec_cpx_div((((1int, 1int), (0int, 1int))), p))
                        },
                    }
                }
            }
        },
        (ValueView::Vector(xs), ValueView::Vector(ys)) => if xs.len() != ys.len() {
            ValueView::Error("vectors must have same length to be exponentiated"@)
        } else {
            ValueView::Vector(spec_val_pow_elems(xs, ys))
        },
        _ => ValueView::Error(spec_unsupported_msg(a, b)),
    }
}

#[via_fn]
proof fn spec_val_pow_decreases(a: ValueView, b: ValueView) {
    match a {
        ValueView::Vector(xs) => {
            assert(decreases_to!(a => xs));
        },
        _ => {},
    }
}

/// Elementwise exponentiation over two sequences of equal length.
pub open spec fn spec_val_pow_elems(xs: Seq<ValueView>, ys: Seq<ValueView>) -> Seq<ValueView>
    decreases xs,
    via spec_val_pow_elems_decreases
{
    if xs.len() == 0 || ys.len() == 0 {
        Seq::empty()
    } else {
        spec_val_pow_elems(xs.drop_last(), ys.drop_last()).push(
            spec_val_pow(xs.last(), ys.last()),
        )
    }
}

#[via_fn]
proof fn spec_val_pow_elems_decreases(xs: Seq<ValueView>, ys: Seq<ValueView>) {
    if xs.len() > 0 && ys.len() > 0 {
        vstd::seq::axiom_seq_subrange_decreases(xs, 0, xs.len() - 1);
        assert(xs.drop_last() == xs.subrange(0, xs.len() - 1));
        assert(decreases_to!(xs => xs[xs.len() - 1]));
    }
}

/// Elementwise exponentiation, by index.
pub proof fn lemma_val_pow_elems_index(xs: Seq<ValueView>, ys: Seq<ValueView>)
    requires
        xs.len() == ys.len(),
    ensures
        spec_val_pow_elems(xs, ys).len() == xs.len(),
        forall|i: int| 0 <= i < xs.len() ==> spec_val_pow_elems(xs, ys)[i] == spec_val_pow(
            #[trigger] xs[i],
            ys[i],
        ),
    decreases xs,
{
    if xs.len() > 0 {
        vstd::seq::axiom_seq_subrange_decreases(xs, 0, xs.len() - 1);
        assert(xs.drop_last() == xs.subrange(0, xs.len() - 1));
        lemma_val_pow_elems_index(xs.drop_last(), ys.drop_last());
        assert(forall|i: int| 0 <= i < xs.len() - 1 ==> #[trigger] xs[i] == xs.drop_last()[i]);
        assert(forall|i: int| 0 <= i < ys.len() - 1 ==> #[trigger] ys[i] == ys.drop_last()[i]);
    }
}

/// The root written `degree rt value` is the value raised to the
/// reciprocal of the degree, by complex power; vectors of equal length
/// combine elementwise.
pub open spec fn spec_val_root(a: ValueView, b: ValueView) -> ValueView
    decreases a,
    via spec_val_root_decreases
{
    match (a, b) {
        (ValueView::Number(l), ValueView::Number(r)) => {
            if cpx_is_zero(l) {
                ValueView::Error("division by zero"@)
            } else {
                match spec_cpx_div((((1int, 1int), (0int, 1int))), l) {
                    None => ValueView::Error("arithmetic overflow"@),
                    Some(recip) => spec_val_pow(ValueView::Number(r), ValueView::Number(recip)),
                }
            }
        },
        (ValueView::Vector(xs), ValueView::Vector(ys)) => if xs.len() != ys.len() {
            ValueView::Error("vectors must have same length to be rooted"@)
        } else {
            ValueView::Vector(spec_val_root_elems(xs, ys))
        },
        _ => ValueView::Error(spec_unsupported_msg(a, b)),
    }
}

#[via_fn]
proof fn spec_val_root_decreases(a: ValueView, b: ValueView) {
    match a {
        ValueView::Vector(xs) => {
            assert(decreases_to!(a => xs));
        },
        _ => {},
    }
}

/// Elementwise roots over two sequences of equal length.
pub open spec fn spec_val_root_elems(xs: Seq<ValueView>, ys: Seq<ValueView>) -> Seq<ValueView>
    decreases xs,
    via spec_val_root_elems_decreases
{
    if xs.len() == 0 || ys.len() == 0 {
        Seq::empty()
    } else {
        spec_val_root_elems(xs.drop_last(), ys.drop_last()).push(
            spec_val_root(xs.last(), ys.last()),
        )
    }
}

#[via_fn]
proof fn spec_val_root_elems_decreases(xs: Seq<ValueView>, ys: Seq<ValueView>) {
    if xs.len() > 0 && ys.len() > 0 {
        vstd::seq::axiom_seq_subrange_decreases(xs, 0, xs.len() - 1);
        assert(xs.drop_last() == xs.subrange(0, xs.len() - 1));
        assert(decreases_to!(xs => xs[xs.len() - 1]));
    }
}

/// Elementwise roots, by index.
pub proof fn lemma_val_root_elems_index(xs: Seq<ValueView>, ys: Seq<ValueView>)
    requires
        xs.len() == ys.len(),
    ensures
        spec_val_root_elems(xs, ys).len() == xs.len(),
        forall|i: int| 0 <= i < xs.len() ==> spec_val_root_elems(xs, ys)[i] == spec_val_root(
            #[trigger] xs[i],
            ys[i],
        ),
    decreases xs,
{
    if xs.len() > 0 {
        vstd::seq::axiom_seq_subrange_decreases(xs, 0, xs.len() - 1);
        assert(xs.drop_last() == xs.subrange(0, xs.len() - 1));
        lemma_val_root_elems_index(xs.drop_last(), ys.drop_last());
        assert(forall|i: int| 0 <= i < xs.len() - 1 ==> #[trigger] xs[i] == xs.drop_last()[i]);
        assert(forall|i: int| 0 <= i < ys.len() - 1 ==> #[trigger] ys[i] == ys.drop_last()[i]);
    }
}

impl Value {
    /// Exact power of two complex scalars.
    fn pow_scalar(x: &Complex, y: &Complex) -> (r: Value)
        requires
            x.wf(),
            y.wf(),
        ensures
            r@ == spec_val_pow(ValueView::Number(x.pv()), ValueView::Number(y.pv())),
            val_vw_wf(r@),
    {
        if !y.im.is_zero() || !y.re.is_int() {
            return Value::Error("exponent not supported in exact arithmetic".to_owned());
        }
        let e = y.re.int_part();
        if e >= 0 {
            Self::wrap_cpx(x.pow_nat(e as u64))
        } else {
            match x.pow_nat((-e) as u64) {
                None => Value::Error("arithmetic overflow".to_owned()),
                Some(p) => {
                    if p.is_zero() {
                        Value::Error("division by zero".to_owned())
                    } else {
                        let one = Complex::one();
                        Self::wrap_cpx(one.div(&p))
                    }
                },
            }
        }
    }

    /// Exact exponentiation; equal-length vectors combine elementwise.
    #[verifier::loop_isolation(false)]
    pub fn pow(lhs: &Value, rhs: &Value) -> (r: Value)
        requires
            val_vw_wf(lhs@),
            val_vw_wf(rhs@),
        ensures
            r@ == spec_val_pow(lhs@, rhs@),
            val_vw_wf(r@),
        decreases *lhs,
    {
        match (lhs, rhs) {
            (Value::Number(x), Value::Number(y)) => Self::pow_scalar(x, y),
            (Value::Vector(xs), Value::Vector(ys)) => {
                proof {
                    lemma_values_view_index(xs@);
                    lemma_values_view_index(ys@);
                }
                if xs.len() != ys.len() {
                    Value::Error("vectors must have same length to be exponentiated".to_owned())
                } else {
                    let mut out: Vec<Value> = Vec::new();
                    let mut i: usize = 0;
                    proof {
                        lemma_vals_vw_wf_index(values_view(xs@));
                        lemma_vals_vw_wf_index(values_view(ys@));
                    }
                    while i < xs.len()
                        invariant
                            i <= xs@.len(),
                            out@.len() == i,
                            forall|j: int| 0 <= j < i ==> value_view(#[trigger] out@[j])
                                == spec_val_pow(value_view(xs@[j]), value_view(ys@[j])),
                            forall|j: int| 0 <= j < i ==> val_vw_wf(value_view(#[trigger] out@[j])),
                        decreases xs@.len() - i,
                    {
                        proof {
                            let ghost whole = Value::Vector(*xs);
                            assert(*lhs == whole);
                            assert(decreases_to!(whole => *xs));
                            assert(decreases_to!(*xs => xs@));
                            assert(decreases_to!(xs@ => xs@[i as int]));
                        }
                        let e = Self::pow(&xs[i], &ys[i]);
                        out.push(e);
                        i = i + 1;
                    }
                    proof {
                        lemma_values_view_index(out@);
                        lemma_val_pow_elems_index(values_view(xs@), values_view(ys@));
                        assert forall|j: int| 0 <= j < xs@.len() implies values_view(out@)[j]
                            == spec_val_pow_elems(values_view(xs@), values_view(ys@))[j] by {
                            assert(values_view(out@)[j] == value_view(out@[j]));
                        }
                        assert(values_view(out@) =~= spec_val_pow_elems(
                            values_view(xs@),
                            values_view(ys@),
                        ));
                        assert forall|j: int|
                            0 <= j < values_view(out@).len() implies val_vw_wf(
                            #[trigger] values_view(out@)[j],
                        ) by {
                            assert(values_view(out@)[j] == value_view(out@[j]));
                        }
                        lemma_vals_vw_wf_index(values_view(out@));
                    }
                    Value::Vector(out)
                }
            },
            _ => Self::unsupported(lhs, rhs),
        }
    }

    /// The root of the right operand by the degree on the left;
    /// equal-length vectors combine elementwise.
    #[verifier::loop_isolation(false)]
    pub fn root(lhs: &Value, rhs: &Value) -> (r: Value)
        requires
            val_vw_wf(lhs@),
            val_vw_wf(rhs@),
        ensures
            r@ == spec_val_root(lhs@, rhs@),
            val_vw_wf(r@),
        decreases *lhs,
    {
        match (lhs, rhs) {
            (Value::Number(l), Value::Number(r2)) => {
                if l.is_zero() {
                    Value::Error("division by zero".to_owned())
                } else {
                    let one = Complex::one();
                    match one.div(l) {
                        None => Value::Error("arithmetic overflow".to_owned()),
                        Some(recip) => Self::pow_scalar(r2, &recip),
                    }
                }
            },
            (Value::Vector(xs), Value::Vector(ys)) => {
                proof {
                    lemma_values_view_index(xs@);
                    lemma_values_view_index(ys@);
                }
                if xs.len() != ys.len() {
                    Value::Error("vectors must have same length to be rooted".to_owned())
                } else {
                    let mut out: Vec<Value> = Vec::new();
                    let mut i: usize = 0;
                    proof {
                        lemma_vals_vw_wf_index(values_view(xs@));
                        lemma_vals_vw_wf_index(values_view(ys@));
                    }
                    while i < xs.len()
                        invariant
                            i <= xs@.len(),
                            out@.len() == i,
                            forall|j: int| 0 <= j < i ==> value_view(#[trigger] out@[j])
                                == spec_val_root(value_view(xs@[j]), value_view(ys@[j])),
                            forall|j: int| 0 <= j < i ==> val_vw_wf(value_view(#[trigger] out@[j])),
                        decreases xs@.len() - i,
                    {
                        proof {
                            let ghost whole = Value::Vector(*xs);
                            assert(*lhs == whole);
                            assert(decreases_to!(whole => *xs));
                            assert(decreases_to!(*xs => xs@));
                            assert(decreases_to!(xs@ => xs@[i as int]));
                        }
                        let e = Self::root(&xs[i], &ys[i]);
                        out.push(e);
                        i = i + 1;
                    }
                    proof {
                        lemma_values_view_index(out@);
                        lemma_val_root_elems_index(values_view(xs@), values_view(ys@));
                        assert forall|j: int| 0 <= j < xs@.len() implies values_view(out@)[j]
                            == spec_val_root_elems(values_view(xs@), values_view(ys@))[j] by {
                            assert(values_view(out@)[j] == value_view(out@[j]));
                        }
                        assert(values_view(out@) =~= spec_val_root_elems(
                            values_view(xs@),
                            values_view(ys@),
                        ));
                        assert forall|j: int|
                            0 <= j < values_view(out@).len() implies val_vw_wf(
                            #[trigger] values_view(out@)[j],
                        ) by {
                            assert(values_view(out@)[j] == value_view(out@[j]));
                        }
                        lemma_vals_vw_wf_index(values_view(out@));
                    }
                    Value::Vector(out)
                }
            },
            _ => Self::unsupported(lhs, rhs),
        }
    }
}

// ---------------------------------------------------------------------------
// Elementwise unary functions
// ---------------------------------------------------------------------------

/// The unary functions that map elementwise over vectors and pass errors
/// through unchanged.
#[derive(Clone, Copy, Debug, PartialEq, Eq, Structural)]
pub enum MapOp {
    Sin,
    Cos,
    Tan,
    Asin,
    Acos,
    Atan,
    Sinh,
    Cosh,
    Tanh,
    Asinh,
    Acosh,
    Atanh,
    Abs,
    Round,
}

/// The scalar case of a unary function. Rounding is exact; the absolute
/// value is exact on real or purely imaginary numbers; the transcendental
/// functions have irrational values and report an error.
pub open spec fn spec_map_scalar(op: MapOp, c: CpxV) -> ValueView {
    match op {
        MapOp::Round => ValueView::Number(
            (
                (spec_rat_round(c.0), 1int),
                (spec_rat_round(c.1), 1int),
            ),
        ),
        MapOp::Abs => {
            if (c.1).0 == 0 {
                let n = (c.0).0;
                ValueView::Number(((if n < 0 { -n } else { n }, (c.0).1), (0int, 1int)))
            } else if (c.0).0 == 0 {
                let n = (c.1).0;
                ValueView::Number(((if n < 0 { -n } else { n }, (c.1).1), (0int, 1int)))
            } else {
                ValueView::Error("not supported in exact arithmetic"@)
            }
        },
        _ => ValueView::Error("not supported in exact arithmetic"@),
    }
}

/// A unary function applied to a value: scalars by `spec_map_scalar`,
/// vectors elementwise, errors unchanged, lambdas and booleans rejected.
pub open spec fn spec_val_map(op: MapOp, v: ValueView) -> ValueView
    decreases v,
    via spec_val_map_decreases
{
    match v {
        ValueView::Number(c) => spec_map_scalar(op, c),
        ValueView::Vector(s) => ValueView::Vector(spec_val_map_elems(op, s)),
        ValueView::Lambda(_, _) => ValueView::Error("WIP"@),
        ValueView::Error(m) => ValueView::Error(m),
        ValueView::Boolean(_) => ValueView::Error("invalid operand"@),
    }
}

#[via_fn]
proof fn spec_val_map_decreases(op: MapOp, v: ValueView) {
    match v {
        ValueView::Vector(s) => {
            assert(decreases_to!(v => s));
        },
        _ => {},
    }
}

/// A unary function applied elementwise.
pub open spec fn spec_val_map_elems(op: MapOp, s: Seq<ValueView>) -> Seq<ValueView>
    decreases s,
    via spec_val_map_elems_decreases
{
    if s.len() == 0 {
        Seq::empty()
    } else {
        spec_val_map_elems(op, s.drop_last()).push(spec_val_map(op, s.last()))
    }
}

#[via_fn]
proof fn spec_val_map_elems_decreases(op: MapOp, s: Seq<ValueView>) {
    if s.len() > 0 {
        vstd::seq::axiom_seq_subrange_decreases(s, 0, s.len() - 1);
        assert(s.drop_last() == s.subrange(0, s.len() - 1));
        assert(decreases_to!(s => s[s.len() - 1]));
    }
}

/// Elementwise mapping, by index.
pub proof fn lemma_val_map_elems_index(op: MapOp, s: Seq<ValueView>)
    ensures
        spec_val_map_elems(op, s).len() == s.len(),
        forall|i: int| 0 <= i < s.len() ==> spec_val_map_elems(op, s)[i] == spec_val_map(
            op,
            #[trigger] s[i],
        ),
    decreases s,
{
    if s.len() > 0 {
        vstd::seq::axiom_seq_subrange_decreases(s, 0, s.len() - 1);
        assert(s.drop_last() == s.subrange(0, s.len() - 1));
        lemma_val_map_elems_index(op, s.drop_last());
        assert(forall|i: int| 0 <= i < s.len() - 1 ==> #[trigger] s[i] == s.drop_last()[i]);
    }
}

impl Value {
    /// The scalar case of a unary function.
    fn map_scalar(op: MapOp, c: &Complex) -> (r: Value)
        requires
            c.wf(),
        ensures
            r@ == spec_map_scalar(op, c.pv()),
            val_vw_wf(r@),
    {
        match op {
            MapOp::Round => {
                let re = c.re.round_to_int();
                let im = c.im.round_to_int();
                proof {
                    lemma_gcd_one(crate::rational::iabs(re as int));
                    lemma_gcd_one(crate::rational::iabs(im as int));
                }
                Value::Number(
                    Complex { re: Rational::from_int(re), im: Rational::from_int(im) },
                )
            },
            MapOp::Abs => {
                if c.im.is_zero() {
                    let re = if c.re.int_part() < 0 {
                        c.re.neg()
                    } else {
                        c.re.clone()
                    };
                    Value::Number(Complex::from_rational(re))
                } else if c.re.is_zero() {
                    let im = if c.im.int_part() < 0 {
                        c.im.neg()
                    } else {
                        c.im.clone()
                    };
                    Value::Number(Complex::from_rational(im))
                } else {
                    Value::Error("not supported in exact arithmetic".to_owned())
                }
            },
            _ => Value::Error("not supported in exact arithmetic".to_owned()),
        }
    }

    /// Applies a unary function: elementwise on vectors, pass-through on
    /// errors.
    #[verifier::loop_isolation(false)]
    fn apply_map(&self, op: MapOp) -> (r: Value)
        requires
            val_vw_wf(self@),
        ensures
            r@ == spec_val_map(op, self@),
            val_vw_wf(r@),
        decreases *self,
    {
        match self {
            Value::Number(c) => Self::map_scalar(op, c),
            Value::Vector(vals) => {
                let mut out: Vec<Value> = Vec::new();
                let mut i: usize = 0;
                proof {
                    lemma_values_view_index(vals@);
                    lemma_vals_vw_wf_index(values_view(vals@));
                }
                while i < vals.len()
                    invariant
                        i <= vals@.len(),
                        out@.len() == i,
                        forall|j: int| 0 <= j < i ==> value_view(#[trigger] out@[j])
                            == spec_val_map(op, value_view(vals@[j])),
                        forall|j: int| 0 <= j < i ==> val_vw_wf(value_view(#[trigger] out@[j])),
                    decreases vals@.len() - i,
                {
                    proof {
                        let ghost whole = Value::Vector(*vals);
                        assert(*self == whole);
                        assert(decreases_to!(whole => *vals));
                        assert(decreases_to!(*vals => vals@));
                        assert(decreases_to!(vals@ => vals@[i as int]));
                    }
                    let e = vals[i].apply_map(op);
                    out.push(e);
                    i = i + 1;
                }
                proof {
                    lemma_values_view_index(out@);
                    lemma_val_map_elems_index(op, values_view(vals@));
                    assert forall|j: int| 0 <= j < vals@.len() implies values_view(out@)[j]
                        == spec_val_map_elems(op, values_view(vals@))[j] by {
                        assert(values_view(out@)[j] == value_view(out@[j]));
                    }
                    assert(values_view(out@) =~= spec_val_map_elems(op, values_view(vals@)));
                    assert forall|j: int| 0 <= j < values_view(out@).len() implies val_vw_wf(
                        #[trigger] values_view(out@)[j],
                    ) by {
                        assert(values_view(out@)[j] == value_view(out@[j]));
                    }
                    lemma_vals_vw_wf_index(values_view(out@));
                }
                Value::Vector(out)
            },
            Value::Lambda(_, _) => Value::Error("WIP".to_owned()),
            Value::Error(m) => Value::Error(m.clone()),
            Value::Boolean(_) => Value::Error("invalid operand".to_owned()),
        }
    }

    /// Sine, elementwise over vectors.
    pub fn sin(&self) -> (r: Value)
        requires
            val_vw_wf(self@),
        ensures
            r@ == spec_val_map(MapOp::Sin, self@),
            val_vw_wf(r@),
    {
        self.apply_map(MapOp::Sin)
    }

    /// Cosine, elementwise over vectors.
    pub fn cos(&self) -> (r: Value)
        requires
            val_vw_wf(self@),
        ensures
            r@ == spec_val_map(MapOp::Cos, self@),
            val_vw_wf(r@),
    {
        self.apply_map(MapOp::Cos)
    }

    /// Tangent, elementwise over vectors.
    pub fn tan(&self) -> (r: Value)
        requires
            val_vw_wf(self@),
        ensures
            r@ == spec_val_map(MapOp::Tan, self@),
            val_vw_wf(r@),
    {
        self.apply_map(MapOp::Tan)
    }

    /// Inverse sine, elementwise over vectors.
    pub fn asin(&self) -> (r: Value)
        requires
            val_vw_wf(self@),
        ensures
            r@ == spec_val_map(MapOp::Asin, self@),
            val_vw_wf(r@),
    {
        self.apply_map(MapOp::Asin)
    }

    /// Inverse cosine, elementwise over vectors.
    pub fn acos(&self) -> (r: Value)
        requires
            val_vw_wf(self@),
        ensures
            r@ == spec_val_map(MapOp::Acos, self@),
            val_vw_wf(r@),
    {
        self.apply_map(MapOp::Acos)
    }

    /// Inverse tangent, elementwise over vectors.
    pub fn atan(&self) -> (r: Value)
        requires
            val_vw_wf(self@),
        ensures
            r@ == spec_val_map(MapOp::Atan, self@),
            val_vw_wf(r@),
    {
        self.apply_map(MapOp::Atan)
    }

    /// Hyperbolic sine, elementwise over vectors.
    pub fn sinh(&self) -> (r: Value)
        requires
            val_vw_wf(self@),
        ensures
            r@ == spec_val_map(MapOp::Sinh, self@),
            val_vw_wf(r@),
    {
        self.apply_map(MapOp::Sinh)
    }

    /// Hyperbolic cosine, elementwise over vectors.
    pub fn cosh(&self) -> (r: Value)
        requires
            val_vw_wf(self@),
        ensures
            r@ == spec_val_map(MapOp::Cosh, self@),
            val_vw_wf(r@),
    {
        self.apply_map(MapOp::Cosh)
    }

    /// Hyperbolic tangent, elementwise over vectors.
    pub fn tanh(&self) -> (r: Value)
        requires
            val_vw_wf(self@),
        ensures
            r@ == spec_val_map(MapOp::Tanh, self@),
            val_vw_wf(r@),
    {
        self.apply_map(MapOp::Tanh)
    }

    /// Inverse hyperbolic sine, elementwise over vectors.
    pub fn asinh(&self) -> (r: Value)
        requires
            val_vw_wf(self@),
        ensures
            r@ == spec_val_map(MapOp::Asinh, self@),
            val_vw_wf(r@),
    {
        self.apply_map(MapOp::Asinh)
    }

    /// Inverse hyperbolic cosine, elementwise over vectors.
    pub fn acosh(&self) -> (r: Value)
        requires
            val_vw_wf(self@),
        ensures
            r@ == spec_val_map(MapOp::Acosh, self@),
            val_vw_wf(r@),
    {
        self.apply_map(MapOp::Acosh)
    }

    /// Inverse hyperbolic tangent, elementwise over vectors.
    pub fn atanh(&self) -> (r: Value)
        requires
            val_vw_wf(self@),
        ensures
            r@ == spec_val_map(MapOp::Atanh, self@),
            val_vw_wf(r@),
    {
        self.apply_map(MapOp::Atanh)
    }

    /// Absolute value: exact on real or purely imaginary numbers.
    pub fn abs(&self) -> (r: Value)
        requires
            val_vw_wf(self@),
        ensures
            r@ == spec_val_map(MapOp::Abs, self@),
            val_vw_wf(r@),
    {
        self.apply_map(MapOp::Abs)
    }

    /// Rounds both components to the nearest integer, halves away from
    /// zero; elementwise over vectors.
    pub fn round(&self) -> (r: Value)
        requires
            val_vw_wf(self@),
        ensures
            r@ == spec_val_map(MapOp::Round, self@),
            val_vw_wf(r@),
    {
        self.apply_map(MapOp::Round)
    }
}

// ---------------------------------------------------------------------------
// Unary dispatch
// ---------------------------------------------------------------------------

/// A unary operation applied to a value: negation multiplies by the
/// complex unit `-1-1i`; every other operation maps elementwise.
pub open spec fn spec_val_unary(op: UnaryOperation, v: ValueView) -> ValueView {
    match op {
        UnaryOperation::Negate => spec_val_arith(
            ArithOp::Mul,
            v,
            ValueView::Number((((-1int, 1int), (-1int, 1int)))),
        ),
        UnaryOperation::Sin => spec_val_map(MapOp::Sin, v),
        UnaryOperation::Cos => spec_val_map(MapOp::Cos, v),
        UnaryOperation::Tan => spec_val_map(MapOp::Tan, v),
        UnaryOperation::InverseSin => spec_val_map(MapOp::Asin, v),
        UnaryOperation::InverseCos => spec_val_map(MapOp::Acos, v),
        UnaryOperation::InverseTan => spec_val_map(MapOp::Atan, v),
        UnaryOperation::HyperbolicSin => spec_val_map(MapOp::Sinh, v),
        UnaryOperation::HyperbolicCos => spec_val_map(MapOp::Cosh, v),
        UnaryOperation::HyperbolicTan => spec_val_map(MapOp::Tanh, v),
        UnaryOperation::InverseHyperbolicSin => spec_val_map(MapOp::Asinh, v),
        UnaryOperation::InverseHyperbolicCos => spec_val_map(MapOp::Acosh, v),
        UnaryOperation::InverseHyperbolicTan => spec_val_map(MapOp::Atanh, v),
    }
}

impl Value {
    /// Applies a unary operation.
    pub fn unary_op(op: UnaryOperation, value: &Value) -> (r: Value)
        requires
            val_vw_wf(value@),
        ensures
            r@ == spec_val_unary(op, value@),
            val_vw_wf(r@),
    {
        match op {
            UnaryOperation::Negate => {
                proof {
                    lemma_gcd_one(1);
                }
                let unit = Complex {
                    re: Rational::from_int(-1),
                    im: Rational::from_int(-1),
                };
                Self::arith(ArithOp::Mul, value, &Value::Number(unit))
            },
            UnaryOperation::Sin => value.sin(),
            UnaryOperation::Cos => value.cos(),
            UnaryOperation::Tan => value.tan(),
            UnaryOperation::InverseSin => value.asin(),
            UnaryOperation::InverseCos => value.acos(),
            UnaryOperation::InverseTan => value.atan(),
            UnaryOperation::HyperbolicSin => value.sinh(),
            UnaryOperation::HyperbolicCos => value.cosh(),
            UnaryOperation::HyperbolicTan => value.tanh(),
            UnaryOperation::InverseHyperbolicSin => value.asinh(),
            UnaryOperation::InverseHyperbolicCos => value.acosh(),
            UnaryOperation::InverseHyperbolicTan => value.atanh(),
        }
    }
}

} // verus!
