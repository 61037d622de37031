//! Exact rational scalars. The calculator's numbers are complex values whose
//! real and imaginary parts are rationals held in canonical form: positive
//! denominator, numerator and denominator coprime. All arithmetic is exact;
//! an operation whose canonical result does not fit the 64-bit components
//! reports that instead of returning a rounded value.

use vstd::prelude::*;
use vstd::arithmetic::div_mod::{
    lemma_fundamental_div_mod, lemma_div_multiples_vanish, lemma_div_is_ordered,
};

verus! {

/// Absolute value of an integer, as a natural number.
pub open spec fn iabs(x: int) -> nat {
    if x >= 0 {
        x as nat
    } else {
        (-x) as nat
    }
}

/// Greatest common divisor, by Euclid's rule; `gcd(a, 0) == a`.
pub open spec fn gcd(a: nat, b: nat) -> nat
    decreases b,
{
    if b == 0 {
        a
    } else {
        gcd(b, a % b)
    }
}

/// `d` divides `n`.
pub open spec fn divides(d: nat, n: nat) -> bool {
    exists|k: nat| n == #[trigger] (d * k)
}

proof fn lemma_divides_mul(d: nat, k: nat)
    ensures
        divides(d, d * k),
{
    assert(d * k == d * k);
}

pub proof fn lemma_gcd_pos(a: nat, b: nat)
    requires
        a > 0 || b > 0,
    ensures
        gcd(a, b) >= 1,
    decreases b,
{
    if b == 0 {
    } else {
        lemma_gcd_pos(b, a % b);
    }
}

/// The gcd divides both of its arguments.
pub proof fn lemma_gcd_divides(a: nat, b: nat)
    ensures
        divides(gcd(a, b), a),
        divides(gcd(a, b), b),
    decreases b,
{
    if b == 0 {
        assert(a == a * 1) by (nonlinear_arith);
        assert(divides(a, a));
        assert(a * 0 == 0) by (nonlinear_arith);
        assert(divides(a, 0));
    } else {
        lemma_gcd_divides(b, a % b);
        let g = gcd(b, a % b);
        let k1 = choose|k: nat| b == #[trigger] (g * k);
        let k2 = choose|k: nat| (a % b) == #[trigger] (g * k);
        lemma_fundamental_div_mod(a as int, b as int);
        let q = a as int / b as int;
        assert(q >= 0) by {
            vstd::arithmetic::div_mod::lemma_div_pos_is_pos(a as int, b as int);
        }
        assert(a as int == (g * k1) * q + g * k2);
        assert((g * k1) * q + g * k2 == g * (k1 * q + k2)) by (nonlinear_arith);
        assert(k1 * q >= 0) by (nonlinear_arith)
            requires k1 >= 0 && q >= 0;
        let k3 = (k1 * q + k2) as nat;
        assert(a == g * k3);
        assert(divides(g, a));
    }
}

/// Every common divisor of `a` and `b` divides their gcd.
pub proof fn lemma_gcd_is_greatest(a: nat, b: nat, c: nat)
    requires
        c >= 1,
        divides(c, a),
        divides(c, b),
    ensures
        divides(c, gcd(a, b)),
    decreases b,
{
    if b == 0 {
    } else {
        let k1 = choose|k: nat| a == #[trigger] (c * k);
        let k2 = choose|k: nat| b == #[trigger] (c * k);
        lemma_fundamental_div_mod(a as int, b as int);
        let q = a as int / b as int;
        assert(a % b == a - b * q);
        assert(c * k1 - (c * k2) * q == c * (k1 - k2 * q)) by (nonlinear_arith);
        let m = k1 - k2 * q;
        assert(a % b == c * m);
        assert(a % b >= 0);
        assert(m >= 0) by (nonlinear_arith)
            requires c >= 1 && c * m >= 0;
        assert((a % b) == c * (m as nat));
        assert(divides(c, (a % b)));
        lemma_gcd_is_greatest(b, a % b, c);
    }
}

/// The canonical form of the fraction `n / d` (for `d >= 1`): both
/// components divided by their gcd, the sign carried by the numerator.
pub open spec fn spec_canon(n: int, d: int) -> (int, int) {
    if d < 1 {
        (n, d)
    } else {
        let g = gcd(iabs(n), d as nat) as int;
        if n >= 0 {
            (n / g, d / g)
        } else {
            (-((-n) / g), d / g)
        }
    }
}

/// The pair fits the components of a `Rational`.
pub open spec fn rat_fits(p: (int, int)) -> bool {
    -(i64::MAX as int) <= p.0 <= i64::MAX as int && 1 <= p.1 <= i64::MAX as int
}

/// A product of two values in the 64-bit component range stays well
/// inside the 128-bit range used for intermediate arithmetic.
proof fn lemma_mul_bound_i64(x: int, y: int)
    requires
        -(i64::MAX as int) <= x <= i64::MAX as int,
        -(i64::MAX as int) <= y <= i64::MAX as int,
    ensures
        -(i64::MAX as int) * (i64::MAX as int) <= x * y <= (i64::MAX as int) * (i64::MAX as int),
{
    assert(-(i64::MAX as int) * (i64::MAX as int) <= x * y <= (i64::MAX as int) * (i64::MAX
        as int)) by (nonlinear_arith)
        requires
            -(i64::MAX as int) <= x <= i64::MAX as int,
            -(i64::MAX as int) <= y <= i64::MAX as int,
    ;
}

/// The pair is a well-formed rational: positive denominator in range,
/// numerator in range, the two coprime.
pub open spec fn rat_pair_wf(p: (int, int)) -> bool {
    &&& 1 <= p.1 <= i64::MAX as int
    &&& -(i64::MAX as int) <= p.0 <= i64::MAX as int
    &&& gcd(iabs(p.0), p.1 as nat) == 1
}

/// Anything is coprime with one.
pub proof fn lemma_gcd_one(a: nat)
    ensures
        gcd(a, 1) == 1,
{
    assert(a % 1 == 0) by {
        if a > 0 {
            vstd::arithmetic::div_mod::lemma_mod_self_0(1int);
            vstd::arithmetic::div_mod::lemma_mod_multiples_basic(a as int, 1int);
        }
    }
    assert(gcd(a, 1) == gcd(1, 0));
}

/// An exact rational number: numerator `n`, positive denominator `d`,
/// kept in canonical (coprime) form.
#[derive(Clone, Copy, Debug, PartialEq, Eq)]
pub struct Rational {
    n: i64,
    d: i64,
}

impl Rational {
    /// Numerator.
    pub closed spec fn nv(self) -> int {
        self.n as int
    }

    /// Denominator.
    pub closed spec fn dv(self) -> int {
        self.d as int
    }

    /// The pair of components, for stating contracts.
    pub open spec fn pair(self) -> (int, int) {
        (self.nv(), self.dv())
    }

    /// Well-formed: positive denominator, numerator above the minimum,
    /// and the two coprime.
    pub open spec fn wf(self) -> bool {
        rat_pair_wf(self.pair())
    }

    /// The rational is semantically zero.
    pub open spec fn spec_is_zero(self) -> bool {
        self.nv() == 0
    }

    /// The rational is an integer (canonical form has denominator one).
    pub open spec fn spec_is_int(self) -> bool {
        self.dv() == 1
    }
}

/// The canonical form of `n / d` keeps the value of the fraction:
/// cross-multiplication with the original pair agrees.
pub proof fn lemma_canon_value(n: int, d: int)
    requires
        d >= 1,
    ensures
        spec_canon(n, d).0 * d == n * spec_canon(n, d).1,
        spec_canon(n, d).1 >= 1,
{
    let a = iabs(n);
    let g = gcd(a, d as nat);
    lemma_gcd_pos(a, d as nat);
    lemma_gcd_divides(a, d as nat);
    let p = choose|k: nat| a == #[trigger] (g * k);
    let q = choose|k: nat| (d as nat) == #[trigger] (g * k);
    lemma_div_multiples_vanish(p as int, g as int);
    lemma_div_multiples_vanish(q as int, g as int);
    assert(a as int / g as int == p);
    assert(d / (g as int) == q);
    assert(q >= 1) by (nonlinear_arith)
        requires d as nat == g * q && d >= 1 && g >= 1;
    if n >= 0 {
        assert(p * (g * q) == g * p * q) by (nonlinear_arith);
        assert(n * q == g * p * q) by (nonlinear_arith)
            requires n == g * p;
    } else {
        assert(n == -(g * p));
        assert((-(p as int)) * (g * q) == -(g * p * q)) by (nonlinear_arith);
        assert(n * q == -(g * p * q)) by (nonlinear_arith)
            requires n == -(g * p);
    }
}

/// The canonical form keeps the sign of the numerator.
pub proof fn lemma_canon_sign(n: int, d: int)
    requires
        d >= 1,
    ensures
        (spec_canon(n, d).0 == 0) <==> (n == 0),
        n > 0 ==> spec_canon(n, d).0 > 0,
        n < 0 ==> spec_canon(n, d).0 < 0,
{
    lemma_canon_value(n, d);
    let c = spec_canon(n, d);
    if n == 0 {
        assert(c.0 == 0) by (nonlinear_arith)
            requires c.0 * d == 0 && d >= 1;
    } else if n > 0 {
        assert(c.0 > 0) by (nonlinear_arith)
            requires c.0 * d == n * c.1 && d >= 1 && c.1 >= 1 && n > 0;
    } else {
        assert(c.0 < 0) by (nonlinear_arith)
            requires c.0 * d == n * c.1 && d >= 1 && c.1 >= 1 && n < 0;
    }
}

/// The canonical form of `n / d` is coprime.
pub proof fn lemma_canon_reduced(n: int, d: int)
    requires
        d >= 1,
    ensures
        gcd(iabs(spec_canon(n, d).0), spec_canon(n, d).1 as nat) == 1,
{
    let a = iabs(n);
    let g = gcd(a, d as nat);
    lemma_gcd_pos(a, d as nat);
    lemma_gcd_divides(a, d as nat);
    let p = choose|k: nat| a == #[trigger] (g * k);
    let q = choose|k: nat| (d as nat) == #[trigger] (g * k);
    lemma_div_multiples_vanish(p as int, g as int);
    lemma_div_multiples_vanish(q as int, g as int);
    assert(q >= 1) by (nonlinear_arith)
        requires d as nat == g * q && d >= 1 && g >= 1;
    assert(iabs(spec_canon(n, d).0) == p);
    assert(spec_canon(n, d).1 == q);
    let h = gcd(p, q);
    lemma_gcd_pos(p, q);
    lemma_gcd_divides(p, q);
    let p1 = choose|k: nat| p == #[trigger] (h * k);
    let q1 = choose|k: nat| q == #[trigger] (h * k);
    assert(a == (g * h) * p1) by (nonlinear_arith)
        requires a == g * p && p == h * p1;
    assert(d as nat == (g * h) * q1) by (nonlinear_arith)
        requires d as nat == g * q && q == h * q1;
    lemma_divides_mul(g * h, p1);
    lemma_divides_mul(g * h, q1);
    assert(g * h >= 1) by (nonlinear_arith)
        requires g >= 1 && h >= 1;
    lemma_gcd_is_greatest(a, d as nat, g * h);
    let w = choose|k: nat| g == #[trigger] ((g * h) * k);
    assert(h * w == 1) by (nonlinear_arith)
        requires g == (g * h) * w && g >= 1;
    assert(h == 1) by (nonlinear_arith)
        requires h * w == 1;
}

/// Euclid's algorithm.
fn gcd_u128(a: u128, b: u128) -> (g: u128)
    ensures
        g == gcd(a as nat, b as nat),
    decreases b,
{
    let mut x = a;
    let mut y = b;
    while y != 0
        invariant
            gcd(x as nat, y as nat) == gcd(a as nat, b as nat),
        decreases y,
    {
        let t = x % y;
        x = y;
        y = t;
    }
    x
}

/// Reduces the fraction `num / den` to canonical form; reports `None`
/// exactly when the canonical form does not fit a `Rational`.
pub fn reduce(num: i128, den: i128) -> (r: Option<Rational>)
    requires
        den >= 1,
        num > i128::MIN,
    ensures
        r is Some <==> rat_fits(spec_canon(num as int, den as int)),
        r is Some ==> {
            let c = spec_canon(num as int, den as int);
            r->0.pair() == c && r->0.wf()
        },
{
    proof {
        lemma_canon_value(num as int, den as int);
        lemma_canon_reduced(num as int, den as int);
    }
    let neg = num < 0;
    let mag: u128 = if neg {
        (-num) as u128
    } else {
        num as u128
    };
    let db: u128 = den as u128;
    let g = gcd_u128(mag, db);
    proof {
        lemma_gcd_pos(mag as nat, db as nat);
    }
    let qn = mag / g;
    let qd = db / g;
    proof {
        assert(qn == iabs(num as int) as int / gcd(iabs(num as int), den as nat) as int);
        assert(qd == spec_canon(num as int, den as int).1);
        if neg {
            assert(spec_canon(num as int, den as int).0 == -(qn as int));
        } else {
            assert(spec_canon(num as int, den as int).0 == qn as int);
        }
    }
    if qn > i64::MAX as u128 || qd > i64::MAX as u128 {
        return None;
    }
    let n: i64 = if neg {
        -(qn as i64)
    } else {
        qn as i64
    };
    Some(Rational { n, d: qd as i64 })
}

impl Rational {
    /// The integer `v` as a rational.
    pub fn from_int(v: i64) -> (r: Rational)
        requires
            v > i64::MIN,
        ensures
            r.pair() == (v as int, 1int),
            r.wf(),
    {
        proof {
            let a = iabs(v as int);
            assert(gcd(a, 1) == gcd(1, a % 1));
            assert(a % 1 == 0) by {
                if a > 0 {
                    vstd::arithmetic::div_mod::lemma_mod_self_0(1int);
                    vstd::arithmetic::div_mod::lemma_mod_multiples_basic(a as int, 1int);
                }
            }
            assert(gcd(1, 0) == 1);
        }
        Rational { n: v, d: 1 }
    }

    /// Zero.
    pub fn zero() -> (r: Rational)
        ensures
            r.pair() == (0int, 1int),
            r.wf(),
    {
        Rational::from_int(0)
    }

    /// The rational is zero.
    pub fn is_zero(&self) -> (r: bool)
        ensures
            r == self.spec_is_zero(),
    {
        self.n == 0
    }

    /// The rational is an integer.
    pub fn is_int(&self) -> (r: bool)
        ensures
            r == self.spec_is_int(),
    {
        self.d == 1
    }

    /// The numerator, which for an integer rational is the value itself.
    pub fn int_part(&self) -> (r: i64)
        ensures
            r as int == self.nv(),
    {
        self.n
    }

    /// The denominator.
    pub fn den_part(&self) -> (r: i64)
        ensures
            r as int == self.dv(),
    {
        self.d
    }
}

/// Exact sum of two rational pairs, canonicalized; `None` on overflow.
pub open spec fn spec_rat_add(a: (int, int), b: (int, int)) -> Option<(int, int)> {
    let c = spec_canon(a.0 * b.1 + b.0 * a.1, a.1 * b.1);
    if rat_fits(c) {
        Some(c)
    } else {
        None
    }
}

/// Exact difference, canonicalized; `None` on overflow.
pub open spec fn spec_rat_sub(a: (int, int), b: (int, int)) -> Option<(int, int)> {
    let c = spec_canon(a.0 * b.1 - b.0 * a.1, a.1 * b.1);
    if rat_fits(c) {
        Some(c)
    } else {
        None
    }
}

/// Exact product, canonicalized; `None` on overflow.
pub open spec fn spec_rat_mul(a: (int, int), b: (int, int)) -> Option<(int, int)> {
    let c = spec_canon(a.0 * b.0, a.1 * b.1);
    if rat_fits(c) {
        Some(c)
    } else {
        None
    }
}

/// Exact quotient (divisor nonzero), canonicalized; `None` on overflow.
pub open spec fn spec_rat_div(a: (int, int), b: (int, int)) -> Option<(int, int)> {
    let rn = a.0 * b.1;
    let rd = a.1 * b.0;
    let c = if rd < 0 {
        spec_canon(-rn, -rd)
    } else {
        spec_canon(rn, rd)
    };
    if rat_fits(c) {
        Some(c)
    } else {
        None
    }
}

/// The result `r` is the rational the specified pair describes.
pub open spec fn rat_result_matches(r: Option<Rational>, s: Option<(int, int)>) -> bool {
    match s {
        Some(p) => r is Some && r->0.pair() == p && r->0.wf(),
        None => r is None,
    }
}

impl Rational {
    /// Exact addition.
    pub fn checked_add(&self, o: &Rational) -> (r: Option<Rational>)
        requires
            self.wf(),
            o.wf(),
        ensures
            rat_result_matches(r, spec_rat_add(self.pair(), o.pair())),
    {
        proof {
            lemma_mul_bound_i64(self.nv(), o.dv());
            lemma_mul_bound_i64(o.nv(), self.dv());
            lemma_mul_bound_i64(self.dv(), o.dv());
        }
        let rn: i128 = (self.n as i128) * (o.d as i128) + (o.n as i128) * (self.d as i128);
        let rd: i128 = (self.d as i128) * (o.d as i128);
        proof {
            assert(rd >= 1) by (nonlinear_arith)
                requires rd == self.dv() * o.dv() && self.dv() >= 1 && o.dv() >= 1;
        }
        reduce(rn, rd)
    }

    /// Exact subtraction.
    pub fn checked_sub(&self, o: &Rational) -> (r: Option<Rational>)
        requires
            self.wf(),
            o.wf(),
        ensures
            rat_result_matches(r, spec_rat_sub(self.pair(), o.pair())),
    {
        proof {
            lemma_mul_bound_i64(self.nv(), o.dv());
            lemma_mul_bound_i64(o.nv(), self.dv());
            lemma_mul_bound_i64(self.dv(), o.dv());
        }
        let rn: i128 = (self.n as i128) * (o.d as i128) - (o.n as i128) * (self.d as i128);
        let rd: i128 = (self.d as i128) * (o.d as i128);
        proof {
            assert(rd >= 1) by (nonlinear_arith)
                requires rd == self.dv() * o.dv() && self.dv() >= 1 && o.dv() >= 1;
        }
        reduce(rn, rd)
    }

    /// Exact multiplication.
    pub fn checked_mul(&self, o: &Rational) -> (r: Option<Rational>)
        requires
            self.wf(),
            o.wf(),
        ensures
            rat_result_matches(r, spec_rat_mul(self.pair(), o.pair())),
    {
        proof {
            lemma_mul_bound_i64(self.nv(), o.nv());
            lemma_mul_bound_i64(self.dv(), o.dv());
        }
        let rn: i128 = (self.n as i128) * (o.n as i128);
        let rd: i128 = (self.d as i128) * (o.d as i128);
        proof {
            assert(rd >= 1) by (nonlinear_arith)
                requires rd == self.dv() * o.dv() && self.dv() >= 1 && o.dv() >= 1;
        }
        reduce(rn, rd)
    }

    /// Exact division by a nonzero rational.
    pub fn checked_div(&self, o: &Rational) -> (r: Option<Rational>)
        requires
            self.wf(),
            o.wf(),
            !o.spec_is_zero(),
        ensures
            rat_result_matches(r, spec_rat_div(self.pair(), o.pair())),
    {
        proof {
            lemma_mul_bound_i64(self.nv(), o.dv());
            lemma_mul_bound_i64(self.dv(), o.nv());
        }
        let rn: i128 = (self.n as i128) * (o.d as i128);
        let rd: i128 = (self.d as i128) * (o.n as i128);
        if rd < 0 {
            proof {
                assert(rd > i128::MIN);
                assert(-rd >= 1);
            }
            reduce(-rn, -rd)
        } else {
            proof {
                assert(rd != 0) by (nonlinear_arith)
                    requires rd == self.dv() * o.nv() && self.dv() >= 1 && o.nv() != 0;
            }
            reduce(rn, rd)
        }
    }

    /// The same magnitude with the opposite sign.
    pub fn neg(&self) -> (r: Rational)
        requires
            self.wf(),
        ensures
            r.pair() == (-self.nv(), self.dv()),
            r.wf(),
    {
        Rational { n: -self.n, d: self.d }
    }

    /// Strictly less than.
    pub fn lt(&self, o: &Rational) -> (r: bool)
        requires
            self.wf(),
            o.wf(),
        ensures
            r == (self.nv() * o.dv() < o.nv() * self.dv()),
    {
        proof {
            lemma_mul_bound_i64(self.nv(), o.dv());
            lemma_mul_bound_i64(o.nv(), self.dv());
        }
        (self.n as i128) * (o.d as i128) < (o.n as i128) * (self.d as i128)
    }

    /// Semantic equality (equality of the represented values).
    pub fn eq_value(&self, o: &Rational) -> (r: bool)
        requires
            self.wf(),
            o.wf(),
        ensures
            r == (self.nv() * o.dv() == o.nv() * self.dv()),
    {
        proof {
            lemma_mul_bound_i64(self.nv(), o.dv());
            lemma_mul_bound_i64(o.nv(), self.dv());
        }
        (self.n as i128) * (o.d as i128) == (o.n as i128) * (self.d as i128)
    }
}

/// Rounding of `n / d` to the nearest integer, halves away from zero.
pub open spec fn spec_rat_round(a: (int, int)) -> int {
    if a.0 >= 0 {
        (2 * a.0 + a.1) / (2 * a.1)
    } else {
        -((2 * (-a.0) + a.1) / (2 * a.1))
    }
}

impl Rational {
    /// Rounds to the nearest integer, halves away from zero.
    pub fn round_to_int(&self) -> (r: i64)
        requires
            self.wf(),
        ensures
            r as int == spec_rat_round(self.pair()),
            r > i64::MIN,
    {
        let neg = self.n < 0;
        let mag: u128 = if neg {
            (-(self.n as i128)) as u128
        } else {
            self.n as u128
        };
        let d: u128 = self.d as u128;
        let t: u128 = (2 * mag + d) / (2 * d);
        proof {
            assert(2 * mag + d <= 2 * (d * (i64::MAX as u128)) + d) by (nonlinear_arith)
                requires mag <= i64::MAX as u128 && d >= 1;
            assert((2 * mag + d) as int / (2 * d) as int <= (2 * (d as int) * (i64::MAX as int)
                + d as int) / (2 * d as int)) by {
                lemma_div_is_ordered(
                    (2 * mag + d) as int,
                    (2 * (d as int) * (i64::MAX as int) + d as int) as int,
                    (2 * d) as int,
                );
            }
            assert((2 * (d as int) * (i64::MAX as int) + d as int) == (2 * d as int) * (i64::MAX
                as int) + d as int) by (nonlinear_arith);
            assert(((2 * d as int) * (i64::MAX as int) + d as int) / (2 * d as int) == i64::MAX
                as int) by {
                vstd::arithmetic::div_mod::lemma_div_multiples_vanish_fancy(
                    i64::MAX as int,
                    d as int,
                    2 * d as int,
                );
            }
        }
        if neg {
            -(t as i64)
        } else {
            t as i64
        }
    }
}

} // verus!
