//! Exact complex scalars: a pair of rationals for the real and imaginary
//! parts. Addition, subtraction, multiplication, division and integer
//! powers are exact; an operation whose result does not fit reports `None`.

use vstd::prelude::*;
use crate::rational::{
    Rational, spec_rat_add, spec_rat_sub, spec_rat_mul, spec_rat_div, rat_result_matches,
    lemma_canon_sign, lemma_canon_value, spec_canon, rat_fits,
};

verus! {

/// A complex-pair of component views: real part, imaginary part.
pub type CpxV = ((int, int), (int, int));

/// An exact complex number.
#[derive(Clone, Copy, Debug, PartialEq, Eq)]
pub struct Complex {
    pub re: Rational,
    pub im: Rational,
}

impl Complex {
    /// The component views.
    pub open spec fn pv(self) -> CpxV {
        (self.re.pair(), self.im.pair())
    }

    pub open spec fn wf(self) -> bool {
        self.re.wf() && self.im.wf()
    }

    /// Semantically zero: both parts zero.
    pub open spec fn spec_is_zero(self) -> bool {
        self.re.spec_is_zero() && self.im.spec_is_zero()
    }

    /// The value is real: zero imaginary part.
    pub open spec fn spec_is_real(self) -> bool {
        self.im.spec_is_zero()
    }

    pub fn from_int(v: i64) -> (r: Complex)
        requires
            v > i64::MIN,
        ensures
            r.pv() == (((v as int, 1int), (0int, 1int))),
            r.wf(),
    {
        Complex { re: Rational::from_int(v), im: Rational::zero() }
    }

    pub fn from_rational(re: Rational) -> (r: Complex)
        requires
            re.wf(),
        ensures
            r.pv() == ((re.pair(), (0int, 1int))),
            r.wf(),
    {
        Complex { re, im: Rational::zero() }
    }

    pub fn zero() -> (r: Complex)
        ensures
            r.pv() == (((0int, 1int), (0int, 1int))),
            r.wf(),
    {
        Complex { re: Rational::zero(), im: Rational::zero() }
    }

    pub fn one() -> (r: Complex)
        ensures
            r.pv() == (((1int, 1int), (0int, 1int))),
            r.wf(),
    {
        Complex { re: Rational::from_int(1), im: Rational::zero() }
    }

    pub fn is_zero(&self) -> (r: bool)
        ensures
            r == self.spec_is_zero(),
    {
        self.re.is_zero() && self.im.is_zero()
    }

    pub fn is_real(&self) -> (r: bool)
        ensures
            r == self.spec_is_real(),
    {
        self.im.is_zero()
    }
}

/// The result `r` is the complex number the specified pair describes.
pub open spec fn cpx_result_matches(r: Option<Complex>, s: Option<CpxV>) -> bool {
    match s {
        Some(p) => r is Some && r->0.pv() == p && r->0.wf(),
        None => r is None,
    }
}

/// Componentwise exact sum.
pub open spec fn spec_cpx_add(a: CpxV, b: CpxV) -> Option<CpxV> {
    let re = spec_rat_add(a.0, b.0);
    let im = spec_rat_add(a.1, b.1);
    if re is Some && im is Some {
        Some((re->0, im->0))
    } else {
        None
    }
}

/// Componentwise exact difference.
pub open spec fn spec_cpx_sub(a: CpxV, b: CpxV) -> Option<CpxV> {
    let re = spec_rat_sub(a.0, b.0);
    let im = spec_rat_sub(a.1, b.1);
    if re is Some && im is Some {
        Some((re->0, im->0))
    } else {
        None
    }
}

/// Exact product: `(ac - bd) + (ad + bc)i`.
pub open spec fn spec_cpx_mul(a: CpxV, b: CpxV) -> Option<CpxV> {
    let ac = spec_rat_mul(a.0, b.0);
    let bd = spec_rat_mul(a.1, b.1);
    let ad = spec_rat_mul(a.0, b.1);
    let bc = spec_rat_mul(a.1, b.0);
    if ac is Some && bd is Some && ad is Some && bc is Some {
        let re = spec_rat_sub(ac->0, bd->0);
        let im = spec_rat_add(ad->0, bc->0);
        if re is Some && im is Some {
            Some((re->0, im->0))
        } else {
            None
        }
    } else {
        None
    }
}

/// Exact quotient by a nonzero divisor, through the conjugate:
/// `(ac + bd)/(c^2 + d^2) + ((bc - ad)/(c^2 + d^2))i`.
pub open spec fn spec_cpx_div(a: CpxV, b: CpxV) -> Option<CpxV> {
    let cc = spec_rat_mul(b.0, b.0);
    let dd = spec_rat_mul(b.1, b.1);
    if cc is Some && dd is Some {
        let den = spec_rat_add(cc->0, dd->0);
        if den is Some {
            let ac = spec_rat_mul(a.0, b.0);
            let bd = spec_rat_mul(a.1, b.1);
            let bc = spec_rat_mul(a.1, b.0);
            let ad = spec_rat_mul(a.0, b.1);
            if ac is Some && bd is Some && bc is Some && ad is Some {
                let ren = spec_rat_add(ac->0, bd->0);
                let imn = spec_rat_sub(bc->0, ad->0);
                if ren is Some && imn is Some {
                    let re = spec_rat_div(ren->0, den->0);
                    let im = spec_rat_div(imn->0, den->0);
                    if re is Some && im is Some {
                        Some((re->0, im->0))
                    } else {
                        None
                    }
                } else {
                    None
                }
            } else {
                None
            }
        } else {
            None
        }
    } else {
        None
    }
}

impl Complex {
    /// Exact addition.
    pub fn add(&self, o: &Complex) -> (r: Option<Complex>)
        requires
            self.wf(),
            o.wf(),
        ensures
            cpx_result_matches(r, spec_cpx_add(self.pv(), o.pv())),
    {
        let re = match self.re.checked_add(&o.re) {
            Some(x) => x,
            None => { return None; },
        };
        let im = match self.im.checked_add(&o.im) {
            Some(x) => x,
            None => { return None; },
        };
        Some(Complex { re, im })
    }

    /// Exact subtraction.
    pub fn sub(&self, o: &Complex) -> (r: Option<Complex>)
        requires
            self.wf(),
            o.wf(),
        ensures
            cpx_result_matches(r, spec_cpx_sub(self.pv(), o.pv())),
    {
        let re = match self.re.checked_sub(&o.re) {
            Some(x) => x,
            None => { return None; },
        };
        let im = match self.im.checked_sub(&o.im) {
            Some(x) => x,
            None => { return None; },
        };
        Some(Complex { re, im })
    }

    /// Exact multiplication.
    pub fn mul(&self, o: &Complex) -> (r: Option<Complex>)
        requires
            self.wf(),
            o.wf(),
        ensures
            cpx_result_matches(r, spec_cpx_mul(self.pv(), o.pv())),
    {
        let ac = match self.re.checked_mul(&o.re) {
            Some(x) => x,
            None => { return None; },
        };
        let bd = match self.im.checked_mul(&o.im) {
            Some(x) => x,
            None => { return None; },
        };
        let ad = match self.re.checked_mul(&o.im) {
            Some(x) => x,
            None => { return None; },
        };
        let bc = match self.im.checked_mul(&o.re) {
            Some(x) => x,
            None => { return None; },
        };
        let re = match ac.checked_sub(&bd) {
            Some(x) => x,
            None => { return None; },
        };
        let im = match ad.checked_add(&bc) {
            Some(x) => x,
            None => { return None; },
        };
        Some(Complex { re, im })
    }

    /// Exact division by a nonzero complex number.
    pub fn div(&self, o: &Complex) -> (r: Option<Complex>)
        requires
            self.wf(),
            o.wf(),
            !o.spec_is_zero(),
        ensures
            cpx_result_matches(r, spec_cpx_div(self.pv(), o.pv())),
    {
        let cc = match o.re.checked_mul(&o.re) {
            Some(x) => x,
            None => { return None; },
        };
        let dd = match o.im.checked_mul(&o.im) {
            Some(x) => x,
            None => { return None; },
        };
        proof {
            lemma_square_sign(o.re.pair());
            lemma_square_sign(o.im.pair());
        }
        let den = match cc.checked_add(&dd) {
            Some(x) => x,
            None => { return None; },
        };
        proof {
            lemma_sum_of_squares_zero(o.re.pair(), o.im.pair(), cc.pair(), dd.pair(), den.pair());
        }
        let ac = match self.re.checked_mul(&o.re) {
            Some(x) => x,
            None => { return None; },
        };
        let bd = match self.im.checked_mul(&o.im) {
            Some(x) => x,
            None => { return None; },
        };
        let bc = match self.im.checked_mul(&o.re) {
            Some(x) => x,
            None => { return None; },
        };
        let ad = match self.re.checked_mul(&o.im) {
            Some(x) => x,
            None => { return None; },
        };
        let ren = match ac.checked_add(&bd) {
            Some(x) => x,
            None => { return None; },
        };
        let imn = match bc.checked_sub(&ad) {
            Some(x) => x,
            None => { return None; },
        };
        let re = match ren.checked_div(&den) {
            Some(x) => x,
            None => { return None; },
        };
        let im = match imn.checked_div(&den) {
            Some(x) => x,
            None => { return None; },
        };
        Some(Complex { re, im })
    }

    /// Semantic equality of the represented values.
    pub fn eq_value(&self, o: &Complex) -> (r: bool)
        requires
            self.wf(),
            o.wf(),
        ensures
            r == (self.re.nv() * o.re.dv() == o.re.nv() * self.re.dv() && self.im.nv() * o.im.dv()
                == o.im.nv() * self.im.dv()),
    {
        self.re.eq_value(&o.re) && self.im.eq_value(&o.im)
    }
}

/// The square of a rational is nonnegative, and zero only for zero.
proof fn lemma_square_sign(a: (int, int))
    requires
        a.1 >= 1,
    ensures
        spec_rat_mul(a, a) is Some ==> (spec_rat_mul(a, a)->0).0 >= 0,
        spec_rat_mul(a, a) is Some && a.0 != 0 ==> (spec_rat_mul(a, a)->0).0 > 0,
        spec_rat_mul(a, a) is Some && a.0 == 0 ==> (spec_rat_mul(a, a)->0).0 == 0,
{
    let n = a.0 * a.0;
    let d = a.1 * a.1;
    assert(a.0 * a.0 >= 0 && (a.0 != 0 ==> a.0 * a.0 > 0)) by (nonlinear_arith);
    assert(a.1 * a.1 >= 1) by (nonlinear_arith)
        requires a.1 >= 1;
    if spec_rat_mul(a, a) is Some {
        lemma_canon_sign(n, d);
    }
}

/// A sum of two squares is zero exactly when both squared values are zero.
proof fn lemma_sum_of_squares_zero(a: (int, int), b: (int, int), cc: (int, int), dd: (int, int), den: (int, int))
    requires
        a.1 >= 1,
        b.1 >= 1,
        spec_rat_mul(a, a) == Some::<(int, int)>(cc),
        spec_rat_mul(b, b) == Some::<(int, int)>(dd),
        spec_rat_add(cc, dd) == Some::<(int, int)>(den),
        a.0 != 0 || b.0 != 0,
    ensures
        den.0 != 0,
{
    lemma_square_sign(a);
    lemma_square_sign(b);
    assert(cc.0 >= 0 && dd.0 >= 0);
    assert(cc.0 > 0 || dd.0 > 0);
    assert(cc.1 >= 1 && dd.1 >= 1) by {
        lemma_canon_value(a.0 * a.0, a.1 * a.1);
        lemma_canon_value(b.0 * b.0, b.1 * b.1);
        assert(a.1 * a.1 >= 1) by (nonlinear_arith)
            requires a.1 >= 1;
        assert(b.1 * b.1 >= 1) by (nonlinear_arith)
            requires b.1 >= 1;
    }
    let sn = cc.0 * dd.1 + dd.0 * cc.1;
    let sd = cc.1 * dd.1;
    assert(cc.0 * dd.1 + dd.0 * cc.1 > 0) by (nonlinear_arith)
        requires
            cc.0 >= 0 && dd.0 >= 0 && (cc.0 > 0 || dd.0 > 0) && cc.1 >= 1 && dd.1 >= 1,
    ;
    assert(cc.1 * dd.1 >= 1) by (nonlinear_arith)
        requires cc.1 >= 1 && dd.1 >= 1;
    lemma_canon_sign(sn, sd);
}

/// Exact nonnegative integer power, by repeated multiplication.
pub open spec fn spec_cpx_pow_nat(z: CpxV, e: nat) -> Option<CpxV>
    decreases e,
{
    if e == 0 {
        Some((((1int, 1int), (0int, 1int))))
    } else {
        match spec_cpx_pow_nat(z, (e - 1) as nat) {
            Some(p) => spec_cpx_mul(p, z),
            None => None,
        }
    }
}

impl Complex {
    /// Exact nonnegative integer power.
    pub fn pow_nat(&self, e: u64) -> (r: Option<Complex>)
        requires
            self.wf(),
        ensures
            cpx_result_matches(r, spec_cpx_pow_nat(self.pv(), e as nat)),
    {
        let mut acc = Complex::one();
        let mut i: u64 = 0;
        while i < e
            invariant
                i <= e,
                self.wf(),
                acc.wf(),
                spec_cpx_pow_nat(self.pv(), i as nat) == Some::<CpxV>(acc.pv()),
            decreases e - i,
        {
            let next = match acc.mul(self) {
                Some(x) => x,
                None => {
                    proof {
                        lemma_pow_nat_none(self.pv(), (i + 1) as nat, e as nat);
                    }
                    return None;
                },
            };
            acc = next;
            i = i + 1;
        }
        Some(acc)
    }
}

/// Once a power overflows, every higher power overflows too.
proof fn lemma_pow_nat_none(z: CpxV, e1: nat, e2: nat)
    requires
        e1 <= e2,
        spec_cpx_pow_nat(z, e1) is None,
    ensures
        spec_cpx_pow_nat(z, e2) is None,
    decreases e2 - e1,
{
    if e1 < e2 {
        lemma_pow_nat_none(z, (e1 + 1) as nat, e2);
    }
}

} // verus!
