//! The kernel's scalar: an exact rational number, or plus infinity (the
//! distance of a missed ray).
//!
//! Every operation is exact, so the solvers need no tolerance constants: a
//! degenerate input is detected by an exact comparison and answered with a
//! miss, never with a propagating non-finite value.  The one inexact operation
//! is `sqrt_approx`, which rounds the true square root down to a fixed binary
//! precision; its result is still pinned exactly by `frac_sqrt`.

use vstd::prelude::*;

use num_rational::BigRational;

use crate::bignum::{big_from_i64, big_mul, big_sqrt, big_value, rat_add, rat_clone, rat_denom_int,
    rat_div, rat_lt, rat_make, rat_mul, rat_neg, rat_numer_int, rat_sub, ratv};
use crate::rational::{ext_lt, frac_add, frac_div, frac_eq, frac_int, frac_le, frac_lt, frac_mul,
    frac_neg, frac_sqrt, frac_sub, frac_zero, inf_frac, is_canon, lemma_canon_int, lemma_canon_neg,
    lemma_eq_sign, lemma_floor_sqrt_unique, lemma_frac_eq_sym, lemma_le_antisym, lemma_le_total, Frac, SQRT_SCALE,
    SQRT_SCALE_SQ};

verus! {

/// One exact scalar: a rational number, or plus infinity.
pub enum Scalar {
    Finite(BigRational),
    Infinity,
}

impl View for Scalar {
    type V = Frac;

    open spec fn view(&self) -> Frac {
        match self {
            Scalar::Finite(x) => ratv(*x),
            Scalar::Infinity => inf_frac(),
        }
    }
}

impl Scalar {
    /// The held fraction is in lowest terms; infinity is the pair `(1, 0)`.
    pub open spec fn wf(self) -> bool {
        match self {
            Scalar::Finite(x) => is_canon(ratv(x)),
            Scalar::Infinity => true,
        }
    }

    pub open spec fn is_fin(self) -> bool {
        self is Finite
    }

    pub fn zero() -> (r: Scalar)
        ensures
            r.wf(),
            r.is_fin(),
            r@ == frac_zero(),
    {
        Scalar::from_int(0)
    }

    pub fn one() -> (r: Scalar)
        ensures
            r.wf(),
            r.is_fin(),
            r@ == frac_int(1),
    {
        Scalar::from_int(1)
    }

    pub fn from_int(x: i64) -> (r: Scalar)
        ensures
            r.wf(),
            r.is_fin(),
            r@ == frac_int(x as int),
    {
        let v = rat_make(big_from_i64(x), big_from_i64(1));
        proof {
            lemma_canon_int(ratv(v), x as int);
        }
        Scalar::Finite(v)
    }

    /// The exact rational `n / d`.
    pub fn ratio(n: i64, d: i64) -> (r: Scalar)
        requires
            d != 0,
        ensures
            r.wf(),
            r.is_fin(),
            frac_eq(r@, (Frac { n: n as int, d: d as int })),
    {
        Scalar::Finite(rat_make(big_from_i64(n), big_from_i64(d)))
    }

    pub fn infinity() -> (r: Scalar)
        ensures
            r.wf(),
            !r.is_fin(),
            r@ == inf_frac(),
    {
        Scalar::Infinity
    }

    pub fn is_finite(&self) -> (r: bool)
        ensures
            r == self.is_fin(),
    {
        match self {
            Scalar::Finite(_) => true,
            Scalar::Infinity => false,
        }
    }

    /// A copy holding the same number.
    pub fn dup(&self) -> (r: Scalar)
        requires
            self.wf(),
        ensures
            r.wf(),
            r@ == self@,
            r.is_fin() == self.is_fin(),
    {
        match self {
            Scalar::Finite(x) => Scalar::Finite(rat_clone(x)),
            Scalar::Infinity => Scalar::Infinity,
        }
    }

    pub fn add(&self, other: &Scalar) -> (r: Scalar)
        requires
            self.wf(),
            other.wf(),
            self.is_fin(),
            other.is_fin(),
        ensures
            r.wf(),
            r.is_fin(),
            frac_eq(r@, frac_add(self@, other@)),
    {
        match (self, other) {
            (Scalar::Finite(a), Scalar::Finite(b)) => Scalar::Finite(rat_add(a, b)),
            _ => unreached(),
        }
    }

    pub fn sub(&self, other: &Scalar) -> (r: Scalar)
        requires
            self.wf(),
            other.wf(),
            self.is_fin(),
            other.is_fin(),
        ensures
            r.wf(),
            r.is_fin(),
            frac_eq(r@, frac_sub(self@, other@)),
    {
        match (self, other) {
            (Scalar::Finite(a), Scalar::Finite(b)) => Scalar::Finite(rat_sub(a, b)),
            _ => unreached(),
        }
    }

    pub fn mul(&self, other: &Scalar) -> (r: Scalar)
        requires
            self.wf(),
            other.wf(),
            self.is_fin(),
            other.is_fin(),
        ensures
            r.wf(),
            r.is_fin(),
            frac_eq(r@, frac_mul(self@, other@)),
    {
        match (self, other) {
            (Scalar::Finite(a), Scalar::Finite(b)) => Scalar::Finite(rat_mul(a, b)),
            _ => unreached(),
        }
    }

    pub fn div(&self, other: &Scalar) -> (r: Scalar)
        requires
            self.wf(),
            other.wf(),
            self.is_fin(),
            other.is_fin(),
            other@.n != 0,
        ensures
            r.wf(),
            r.is_fin(),
            frac_eq(r@, frac_div(self@, other@)),
    {
        match (self, other) {
            (Scalar::Finite(a), Scalar::Finite(b)) => Scalar::Finite(rat_div(a, b)),
            _ => unreached(),
        }
    }

    pub fn neg(&self) -> (r: Scalar)
        requires
            self.wf(),
            self.is_fin(),
        ensures
            r.wf(),
            r.is_fin(),
            r@ == frac_neg(self@),
    {
        match self {
            Scalar::Finite(a) => {
                proof {
                    lemma_canon_neg(ratv(*a));
                }
                Scalar::Finite(rat_neg(a))
            },
            Scalar::Infinity => unreached(),
        }
    }

    pub fn lt(&self, other: &Scalar) -> (r: bool)
        requires
            self.wf(),
            other.wf(),
            self.is_fin(),
            other.is_fin(),
        ensures
            r == frac_lt(self@, other@),
    {
        match (self, other) {
            (Scalar::Finite(a), Scalar::Finite(b)) => rat_lt(a, b),
            _ => unreached(),
        }
    }

    pub fn le(&self, other: &Scalar) -> (r: bool)
        requires
            self.wf(),
            other.wf(),
            self.is_fin(),
            other.is_fin(),
        ensures
            r == frac_le(self@, other@),
    {
        proof {
            lemma_le_total(self@, other@);
        }
        !other.lt(self)
    }

    /// Whether the number is at least zero.
    pub fn is_nonneg(&self) -> (r: bool)
        requires
            self.wf(),
            self.is_fin(),
        ensures
            r == (self@.n >= 0),
    {
        let z = Scalar::zero();
        let r = z.le(self);
        proof {
            assert(frac_le(frac_zero(), self@) == (self@.n >= 0)) by (nonlinear_arith)
                requires
                    self@.d >= 1,
            ;
        }
        r
    }

    /// Whether the number is zero.
    pub fn is_zero(&self) -> (r: bool)
        requires
            self.wf(),
            self.is_fin(),
        ensures
            r == (self@.n == 0),
    {
        let z = Scalar::zero();
        let not_below = z.le(self);
        let not_above = self.le(&z);
        proof {
            if frac_le(frac_zero(), self@) && frac_le(self@, frac_zero()) {
                lemma_le_antisym(frac_zero(), self@);
                lemma_eq_sign(frac_zero(), self@);
            }
            assert((self@.n == 0) ==> frac_le(frac_zero(), self@) && frac_le(self@, frac_zero()))
                by (nonlinear_arith)
                requires
                    self@.d >= 1,
            ;
        }
        not_below && not_above
    }

    /// Whether the two scalars hold the same number (infinity equals only
    /// infinity).
    pub fn eq_val(&self, other: &Scalar) -> (r: bool)
        requires
            self.wf(),
            other.wf(),
        ensures
            r == (if self.is_fin() && other.is_fin() {
                frac_eq(self@, other@)
            } else {
                self.is_fin() == other.is_fin()
            }),
    {
        match (self, other) {
            (Scalar::Infinity, Scalar::Infinity) => true,
            (Scalar::Finite(_), Scalar::Infinity) => false,
            (Scalar::Infinity, Scalar::Finite(_)) => false,
            (Scalar::Finite(_), Scalar::Finite(_)) => {
                let not_below = !self.lt(other);
                let not_above = !other.lt(self);
                proof {
                    lemma_le_total(self@, other@);
                    lemma_le_total(other@, self@);
                    if frac_le(other@, self@) && frac_le(self@, other@) {
                        lemma_le_antisym(other@, self@);
                        lemma_frac_eq_sym(other@, self@);
                    }
                    if frac_eq(self@, other@) {
                        assert(!frac_lt(self@, other@) && !frac_lt(other@, self@))
                            by (nonlinear_arith)
                            requires
                                self@.n * other@.d == other@.n * self@.d,
                                self@.d >= 1,
                                other@.d >= 1,
                        ;
                    }
                }
                not_below && not_above
            },
        }
    }

    /// `self < other` on extended values: infinity sorts after every finite value.
    pub fn lt_ext(&self, other: &Scalar) -> (r: bool)
        requires
            self.wf(),
            other.wf(),
        ensures
            r == ext_lt(self@, other@),
    {
        match (self, other) {
            (Scalar::Infinity, _) => false,
            (Scalar::Finite(_), Scalar::Infinity) => true,
            (Scalar::Finite(a), Scalar::Finite(b)) => rat_lt(a, b),
        }
    }

    /// The square root rounded down to the fixed binary precision: the unique
    /// value allowed by `frac_sqrt`.
    pub fn sqrt_approx(&self) -> (r: Scalar)
        requires
            self.wf(),
            self.is_fin(),
            self@.n >= 0,
        ensures
            r.wf(),
            r.is_fin(),
            r@.n >= 0,
            frac_eq(r@, frac_sqrt(self@)),
    {
        match self {
            Scalar::Finite(x) => {
                let n = rat_numer_int(x);
                let d = rat_denom_int(x);
                let nd = big_mul(&n, &d);
                let m = big_mul(&nd, &big_from_i64(SQRT_SCALE_SQ));
                proof {
                    assert(big_value(m) >= 0) by (nonlinear_arith)
                        requires
                            big_value(m) == ratv(*x).n * ratv(*x).d * (SQRT_SCALE_SQ as int),
                            ratv(*x).n >= 0,
                            ratv(*x).d >= 1,
                            SQRT_SCALE_SQ > 0,
                    ;
                }
                let s = big_sqrt(&m);
                let dd = big_mul(&d, &big_from_i64(SQRT_SCALE));
                let ghost sv = big_value(s);
                proof {
                    lemma_floor_sqrt_unique(big_value(m), sv);
                    assert(big_value(dd) != 0 && frac_sqrt(self@).d >= 1) by (nonlinear_arith)
                        requires
                            big_value(dd) == ratv(*x).d * (SQRT_SCALE as int),
                            frac_sqrt(self@).d == ratv(*x).d * (SQRT_SCALE as int),
                            ratv(*x).d >= 1,
                            SQRT_SCALE > 0,
                    ;
                }
                let r = rat_make(s, dd);
                proof {
                    assert(frac_sqrt(self@) == (Frac { n: sv, d: big_value(dd) }));
                    lemma_eq_sign(ratv(r), frac_sqrt(self@));
                }
                Scalar::Finite(r)
            },
            Scalar::Infinity => unreached(),
        }
    }
}

} // verus!
