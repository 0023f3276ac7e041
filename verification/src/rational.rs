//! The mathematical model of the kernel's scalars: rational numbers written
//! as pairs of unbounded integers.
//!
//! A `Frac { n, d }` stands for the number `n / d`.  A pair with `d >= 1` is a
//! finite value; the pair `(1, 0)` stands for "plus infinity", the distance of
//! a missed ray.  All geometric contracts in this crate are stated over these
//! pairs, with `frac_eq` as numeric equality (two pairs may write the same
//! number in different ways).

use vstd::prelude::*;

verus! {

/// A rational number `n / d` (ghost only; the executable carrier is `Scalar`).
pub ghost struct Frac {
    pub n: int,
    pub d: int,
}

/// The pair that stands for "plus infinity": the distance of a miss.
pub open spec fn inf_frac() -> Frac {
    Frac { n: 1, d: 0 }
}

/// A finite pair: the denominator is positive.
pub open spec fn frac_fin(a: Frac) -> bool {
    a.d >= 1
}

/// `n2 / d2` writes the same number as `a` (valid when both denominators are nonzero).
pub open spec fn represents(a: Frac, n2: int, d2: int) -> bool {
    a.n * d2 == n2 * a.d
}

/// `a` is the canonical way to write its number: positive denominator, and no
/// pair with a smaller positive denominator writes the same number.
pub open spec fn is_canon(a: Frac) -> bool {
    a.d >= 1 && forall|n2: int, d2: int| 1 <= d2 < a.d ==> !(#[trigger] represents(a, n2, d2))
}

/// Numeric equality of two pairs (valid when both denominators are nonzero).
pub open spec fn frac_eq(a: Frac, b: Frac) -> bool {
    a.n * b.d == b.n * a.d
}

/// `a <= b` as numbers; written so that it is correct for denominators of either sign.
pub open spec fn frac_le(a: Frac, b: Frac) -> bool {
    (b.n * a.d - a.n * b.d) * (a.d * b.d) >= 0
}

/// `a < b` as numbers; correct for denominators of either sign.
pub open spec fn frac_lt(a: Frac, b: Frac) -> bool {
    (b.n * a.d - a.n * b.d) * (a.d * b.d) > 0
}

/// `a >= 0` as a number; correct for denominators of either sign.
pub open spec fn frac_nonneg(a: Frac) -> bool {
    a.n * a.d >= 0
}

pub open spec fn frac_zero() -> Frac {
    Frac { n: 0, d: 1 }
}

pub open spec fn frac_one() -> Frac {
    Frac { n: 1, d: 1 }
}

pub open spec fn frac_int(i: int) -> Frac {
    Frac { n: i, d: 1 }
}

pub open spec fn frac_add(a: Frac, b: Frac) -> Frac {
    Frac { n: a.n * b.d + b.n * a.d, d: a.d * b.d }
}

pub open spec fn frac_sub(a: Frac, b: Frac) -> Frac {
    Frac { n: a.n * b.d - b.n * a.d, d: a.d * b.d }
}

pub open spec fn frac_mul(a: Frac, b: Frac) -> Frac {
    Frac { n: a.n * b.n, d: a.d * b.d }
}

pub open spec fn frac_div(a: Frac, b: Frac) -> Frac {
    Frac { n: a.n * b.d, d: a.d * b.n }
}

pub open spec fn frac_neg(a: Frac) -> Frac {
    Frac { n: -a.n, d: a.d }
}

/// A well-formed extended value: canonical and finite, or plus infinity.
pub open spec fn ext_wf(a: Frac) -> bool {
    is_canon(a) || a == inf_frac()
}

pub open spec fn ext_fin(a: Frac) -> bool {
    a.d != 0
}

/// `a < b` on extended values (infinity sorts after every finite value).
pub open spec fn ext_lt(a: Frac, b: Frac) -> bool {
    if a.d == 0 {
        false
    } else if b.d == 0 {
        true
    } else {
        frac_lt(a, b)
    }
}

// ---------------------------------------------------------------------------
// Basic laws of the pair arithmetic.
// ---------------------------------------------------------------------------

pub proof fn lemma_frac_eq_refl(a: Frac)
    ensures
        frac_eq(a, a),
{
}

pub proof fn lemma_frac_eq_sym(a: Frac, b: Frac)
    requires
        frac_eq(a, b),
    ensures
        frac_eq(b, a),
{
}

pub proof fn lemma_frac_eq_trans(a: Frac, b: Frac, c: Frac)
    requires
        b.d != 0,
        frac_eq(a, b),
        frac_eq(b, c),
    ensures
        frac_eq(a, c),
{
    assert((a.n * c.d - c.n * a.d) * b.d == 0) by (nonlinear_arith)
        requires
            a.n * b.d == b.n * a.d,
            b.n * c.d == c.n * b.d,
    ;
    assert(a.n * c.d == c.n * a.d) by (nonlinear_arith)
        requires
            (a.n * c.d - c.n * a.d) * b.d == 0,
            b.d != 0,
    ;
}

/// Two canonical pairs that write the same number are the same pair.
pub proof fn lemma_canon_unique(a: Frac, b: Frac)
    requires
        is_canon(a),
        is_canon(b),
        frac_eq(a, b),
    ensures
        a == b,
{
    assert(represents(a, b.n, b.d));
    assert(represents(b, a.n, a.d)) by (nonlinear_arith)
        requires
            a.n * b.d == b.n * a.d,
    ;
    assert(b.d >= a.d);
    assert(a.d >= b.d);
    assert(a.n * b.d == b.n * a.d);
    assert(a.n == b.n) by (nonlinear_arith)
        requires
            a.n * b.d == b.n * a.d,
            a.d == b.d,
            a.d >= 1,
    ;
}

/// The canonical way to write the number of `x`.
pub open spec fn canon(x: Frac) -> Frac {
    choose|y: Frac| frac_eq(y, x) && is_canon(y)
}

/// A canonical pair equal in value to `x` is `canon(x)` itself.
pub proof fn lemma_canon_eq(x: Frac, y: Frac)
    requires
        x.d != 0,
        frac_eq(y, x),
        is_canon(y),
    ensures
        canon(x) == y,
        frac_eq(canon(x), x),
        is_canon(canon(x)),
{
    assert(frac_eq(canon(x), x) && is_canon(canon(x))) by {
        assert(frac_eq(y, x) && is_canon(y));
    }
    lemma_frac_eq_sym(canon(x), x);
    lemma_frac_eq_trans(y, x, canon(x));
    lemma_canon_unique(y, canon(x));
}

/// Every number written with a nonzero denominator has a canonical form:
/// `canon(x)` writes the same number and is canonical.
pub proof fn lemma_canon_exists(x: Frac)
    requires
        x.d != 0,
    ensures
        frac_eq(canon(x), x),
        is_canon(canon(x)),
{
    if x.d >= 1 {
        lemma_canon_exists_rec(x, x.n, x.d);
    } else {
        assert(x.n * (-x.d) == (-x.n) * x.d) by (nonlinear_arith);
        lemma_canon_exists_rec(x, -x.n, -x.d);
    }
}

proof fn lemma_canon_exists_rec(x: Frac, n0: int, d0: int)
    requires
        x.d != 0,
        d0 >= 1,
        x.n * d0 == n0 * x.d,
    ensures
        frac_eq(canon(x), x),
        is_canon(canon(x)),
    decreases d0,
{
    if exists|n2: int, d2: int| 1 <= d2 < d0 && #[trigger] represents(x, n2, d2) {
        let (n2, d2) = choose|n2: int, d2: int| 1 <= d2 < d0 && #[trigger] represents(x, n2, d2);
        lemma_canon_exists_rec(x, n2, d2);
    } else {
        let y = Frac { n: n0, d: d0 };
        assert(is_canon(y)) by {
            assert forall|n2: int, d2: int| 1 <= d2 < y.d implies !represents(y, n2, d2) by {
                if represents(y, n2, d2) {
                    assert(y.n == n0 && y.d == d0);
                    assert(x.n * d2 == n2 * x.d) by (nonlinear_arith)
                        requires
                            n0 * d2 == n2 * d0,
                            x.n * d0 == n0 * x.d,
                            d0 >= 1,
                    ;
                    assert(represents(x, n2, d2));
                }
            }
        }
        assert(y.n * x.d == x.n * y.d) by (nonlinear_arith)
            requires
                y.n == n0,
                y.d == d0,
                x.n * d0 == n0 * x.d,
        ;
        lemma_canon_eq(x, y);
    }
}

// ---------------------------------------------------------------------------
// Congruence: the arithmetic respects numeric equality.
// ---------------------------------------------------------------------------

/// Sums, differences, and products of pairs with nonzero denominators have
/// nonzero denominators; so do quotients by pairs with nonzero numerators.
pub proof fn lemma_den_nz(a: Frac, b: Frac)
    requires
        a.d != 0,
        b.d != 0,
    ensures
        frac_add(a, b).d != 0,
        frac_sub(a, b).d != 0,
        frac_mul(a, b).d != 0,
        b.n != 0 ==> frac_div(a, b).d != 0,
{
    assert(a.d * b.d != 0) by (nonlinear_arith)
        requires
            a.d != 0,
            b.d != 0,
    ;
    if b.n != 0 {
        assert(a.d * b.n != 0) by (nonlinear_arith)
            requires
                a.d != 0,
                b.n != 0,
        ;
    }
}

/// Products of four factors may be paired either way.
proof fn lemma_mul_reassoc(x: int, y: int, z: int, w: int)
    ensures
        (x * y) * (z * w) == (x * z) * (y * w),
{
    assert((x * y) * (z * w) == (x * z) * (y * w)) by (nonlinear_arith);
}

pub proof fn lemma_add_cong(a: Frac, a2: Frac, b: Frac, b2: Frac)
    requires
        a.d != 0 && a2.d != 0 && b.d != 0 && b2.d != 0,
        frac_eq(a, a2),
        frac_eq(b, b2),
    ensures
        frac_eq(frac_add(a, b), frac_add(a2, b2)),
        frac_add(a, b).d != 0,
{
    vstd::arithmetic::mul::lemma_mul_is_distributive_add_other_way(
        a2.d * b2.d,
        a.n * b.d,
        b.n * a.d,
    );
    lemma_mul_reassoc(a.n, b.d, a2.d, b2.d);
    lemma_mul_reassoc(b.n, a.d, b2.d, a2.d);
    vstd::arithmetic::mul::lemma_mul_is_distributive_add_other_way(
        a.d * b.d,
        a2.n * b2.d,
        b2.n * a2.d,
    );
    lemma_mul_reassoc(a2.n, b2.d, a.d, b.d);
    lemma_mul_reassoc(b2.n, a2.d, b.d, a.d);
    assert(a.d * b.d != 0) by (nonlinear_arith)
        requires
            a.d != 0 && b.d != 0,
    ;
}

pub proof fn lemma_sub_cong(a: Frac, a2: Frac, b: Frac, b2: Frac)
    requires
        a.d != 0 && a2.d != 0 && b.d != 0 && b2.d != 0,
        frac_eq(a, a2),
        frac_eq(b, b2),
    ensures
        frac_eq(frac_sub(a, b), frac_sub(a2, b2)),
        frac_sub(a, b).d != 0,
{
    vstd::arithmetic::mul::lemma_mul_is_distributive_sub_other_way(
        a2.d * b2.d,
        a.n * b.d,
        b.n * a.d,
    );
    lemma_mul_reassoc(a.n, b.d, a2.d, b2.d);
    lemma_mul_reassoc(b.n, a.d, b2.d, a2.d);
    vstd::arithmetic::mul::lemma_mul_is_distributive_sub_other_way(
        a.d * b.d,
        a2.n * b2.d,
        b2.n * a2.d,
    );
    lemma_mul_reassoc(a2.n, b2.d, a.d, b.d);
    lemma_mul_reassoc(b2.n, a2.d, b.d, a.d);
    assert(a.d * b.d != 0) by (nonlinear_arith)
        requires
            a.d != 0 && b.d != 0,
    ;
}

pub proof fn lemma_mul_cong(a: Frac, a2: Frac, b: Frac, b2: Frac)
    requires
        a.d != 0 && a2.d != 0 && b.d != 0 && b2.d != 0,
        frac_eq(a, a2),
        frac_eq(b, b2),
    ensures
        frac_eq(frac_mul(a, b), frac_mul(a2, b2)),
        frac_mul(a, b).d != 0,
{
    assert((a.n * b.n) * (a2.d * b2.d) == (a2.n * b2.n) * (a.d * b.d)) by (nonlinear_arith)
        requires
            a.n * a2.d == a2.n * a.d,
            b.n * b2.d == b2.n * b.d,
    ;
    assert(a.d * b.d != 0) by (nonlinear_arith)
        requires
            a.d != 0 && b.d != 0,
    ;
}

pub proof fn lemma_neg_cong(a: Frac, a2: Frac)
    requires
        frac_eq(a, a2),
    ensures
        frac_eq(frac_neg(a), frac_neg(a2)),
{
    assert((-a.n) * a2.d == (-a2.n) * a.d) by (nonlinear_arith)
        requires
            a.n * a2.d == a2.n * a.d,
    ;
}

pub proof fn lemma_div_cong(a: Frac, a2: Frac, b: Frac, b2: Frac)
    requires
        a.d != 0 && a2.d != 0 && b.d != 0 && b2.d != 0,
        b.n != 0 && b2.n != 0,
        frac_eq(a, a2),
        frac_eq(b, b2),
    ensures
        frac_eq(frac_div(a, b), frac_div(a2, b2)),
        frac_div(a, b).d != 0,
{
    assert((a.n * b.d) * (a2.d * b2.n) == (a2.n * b2.d) * (a.d * b.n)) by (nonlinear_arith)
        requires
            a.n * a2.d == a2.n * a.d,
            b.n * b2.d == b2.n * b.d,
    ;
    assert(a.d * b.n != 0) by (nonlinear_arith)
        requires
            a.d != 0 && b.n != 0,
    ;
}

pub proof fn lemma_nonneg_cong(a: Frac, a2: Frac)
    requires
        a.d != 0 && a2.d != 0,
        frac_eq(a, a2),
    ensures
        frac_nonneg(a) == frac_nonneg(a2),
{
    assert((a.n * a.d) * (a2.d * a2.d) == (a2.n * a2.d) * (a.d * a.d)) by (nonlinear_arith)
        requires
            a.n * a2.d == a2.n * a.d,
    ;
    assert(frac_nonneg(a) == frac_nonneg(a2)) by (nonlinear_arith)
        requires
            (a.n * a.d) * (a2.d * a2.d) == (a2.n * a2.d) * (a.d * a.d),
            a.d != 0 && a2.d != 0,
    ;
}

pub proof fn lemma_lt_cong(a: Frac, a2: Frac, b: Frac, b2: Frac)
    requires
        a.d != 0 && a2.d != 0 && b.d != 0 && b2.d != 0,
        frac_eq(a, a2),
        frac_eq(b, b2),
    ensures
        frac_lt(a, b) == frac_lt(a2, b2),
        frac_le(a, b) == frac_le(a2, b2),
{
    lemma_sub_cong(b, b2, a, a2);
    let dd = b.n * a.d - a.n * b.d;
    let dd2 = b2.n * a2.d - a2.n * b2.d;
    let p = a.d * b.d;
    let p2 = a2.d * b2.d;
    assert(dd * p2 == dd2 * p) by (nonlinear_arith)
        requires
            dd * (b2.d * a2.d) == dd2 * (b.d * a.d),
            p == a.d * b.d,
            p2 == a2.d * b2.d,
            dd == b.n * a.d - a.n * b.d,
            dd2 == b2.n * a2.d - a2.n * b2.d,
    ;
    assert((dd * p) * (p2 * p2) == (dd2 * p2) * (p * p)) by (nonlinear_arith)
        requires
            dd * p2 == dd2 * p,
    ;
    assert(p != 0 && p2 != 0) by (nonlinear_arith)
        requires
            a.d != 0 && b.d != 0 && a2.d != 0 && b2.d != 0,
            p == a.d * b.d,
            p2 == a2.d * b2.d,
    ;
    assert(((dd * p > 0) == (dd2 * p2 > 0)) && ((dd * p >= 0) == (dd2 * p2 >= 0)))
        by (nonlinear_arith)
        requires
            (dd * p) * (p2 * p2) == (dd2 * p2) * (p * p),
            p != 0 && p2 != 0,
    ;
}

/// The canonical way to write the integer `i` is the pair `(i, 1)`.
pub proof fn lemma_canon_int(a: Frac, i: int)
    requires
        is_canon(a),
        frac_eq(a, frac_int(i)),
    ensures
        a == frac_int(i),
{
    lemma_canon_unique(a, frac_int(i));
}

/// Negating a canonical pair keeps it canonical.
pub proof fn lemma_canon_neg(a: Frac)
    requires
        is_canon(a),
    ensures
        is_canon(frac_neg(a)),
{
    assert forall|n2: int, d2: int| 1 <= d2 < a.d implies !represents(frac_neg(a), n2, d2) by {
        if represents(frac_neg(a), n2, d2) {
            assert(represents(a, -n2, d2)) by (nonlinear_arith)
                requires
                    (-a.n) * d2 == n2 * a.d,
            ;
        }
    }
}

/// Pairs that write the same number agree on its sign.
pub proof fn lemma_eq_sign(a: Frac, b: Frac)
    requires
        a.d >= 1,
        b.d >= 1,
        frac_eq(a, b),
    ensures
        (a.n >= 0) == (b.n >= 0),
        (a.n > 0) == (b.n > 0),
        (a.n == 0) == (b.n == 0),
{
    assert(((a.n >= 0) == (b.n >= 0)) && ((a.n > 0) == (b.n > 0)) && ((a.n == 0) == (b.n == 0)))
        by (nonlinear_arith)
        requires
            a.n * b.d == b.n * a.d,
            a.d >= 1,
            b.d >= 1,
    ;
}

/// On a positive denominator, the sign of the number is the sign of the
/// numerator.
pub proof fn lemma_nonneg_canon(a: Frac)
    requires
        a.d >= 1,
    ensures
        frac_nonneg(a) == (a.n >= 0),
{
    assert((a.n * a.d >= 0) == (a.n >= 0)) by (nonlinear_arith)
        requires
            a.d >= 1,
    ;
}

// ---------------------------------------------------------------------------
// Order facts used by the comparison operations.
// ---------------------------------------------------------------------------

/// On nonzero denominators the order is total: `a <= b` is exactly `!(b < a)`.
pub proof fn lemma_le_total(a: Frac, b: Frac)
    requires
        a.d != 0,
        b.d != 0,
    ensures
        frac_le(a, b) == !frac_lt(b, a),
{
    assert((b.n * a.d - a.n * b.d) * (a.d * b.d) == -((a.n * b.d - b.n * a.d) * (b.d * a.d)))
        by (nonlinear_arith);
}

/// Equal numbers are those with `a <= b` and `b <= a`.
pub proof fn lemma_le_antisym(a: Frac, b: Frac)
    requires
        a.d != 0,
        b.d != 0,
        frac_le(a, b),
        frac_le(b, a),
    ensures
        frac_eq(a, b),
{
    lemma_le_total(a, b);
    lemma_le_total(b, a);
    assert(frac_eq(a, b)) by (nonlinear_arith)
        requires
            (b.n * a.d - a.n * b.d) * (a.d * b.d) >= 0,
            (a.n * b.d - b.n * a.d) * (b.d * a.d) >= 0,
            a.d != 0,
            b.d != 0,
    ;
}

// ---------------------------------------------------------------------------
// Ring laws of the pair arithmetic, up to numeric equality.
// ---------------------------------------------------------------------------

/// Multiplication is associative on the pairs themselves.
pub proof fn lemma_mul_assoc(a: Frac, b: Frac, c: Frac)
    ensures
        frac_mul(frac_mul(a, b), c) == frac_mul(a, frac_mul(b, c)),
{
    assert((a.n * b.n) * c.n == a.n * (b.n * c.n)) by (nonlinear_arith);
    assert((a.d * b.d) * c.d == a.d * (b.d * c.d)) by (nonlinear_arith);
}

/// Multiplication is commutative on the pairs themselves.
pub proof fn lemma_mul_comm(a: Frac, b: Frac)
    ensures
        frac_mul(a, b) == frac_mul(b, a),
{
    assert(a.n * b.n == b.n * a.n && a.d * b.d == b.d * a.d) by (nonlinear_arith);
}

/// Addition is commutative up to numeric equality.
pub proof fn lemma_add_comm(a: Frac, b: Frac)
    ensures
        frac_eq(frac_add(a, b), frac_add(b, a)),
{
    assert((a.n * b.d + b.n * a.d) * (b.d * a.d) == (b.n * a.d + a.n * b.d) * (a.d * b.d))
        by (nonlinear_arith);
}

/// Addition is associative up to numeric equality.
pub proof fn lemma_add_assoc(a: Frac, b: Frac, c: Frac)
    ensures
        frac_eq(frac_add(frac_add(a, b), c), frac_add(a, frac_add(b, c))),
{
    broadcast use vstd::arithmetic::mul::group_mul_properties;

    let l = frac_add(frac_add(a, b), c);
    let r = frac_add(a, frac_add(b, c));
    assert(l.n == r.n) by {
        assert((a.n * b.d + b.n * a.d) * c.d == (a.n * b.d) * c.d + (b.n * a.d) * c.d);
        assert((b.n * c.d + c.n * b.d) * a.d == (b.n * c.d) * a.d + (c.n * b.d) * a.d);
        assert((b.n * a.d) * c.d == (b.n * c.d) * a.d);
        assert(c.n * (a.d * b.d) == (c.n * b.d) * a.d);
    }
    assert(l.d == r.d);
}

/// Multiplication distributes over addition up to numeric equality.
pub proof fn lemma_mul_add_distrib(a: Frac, b: Frac, c: Frac)
    ensures
        frac_eq(frac_mul(frac_add(a, b), c), frac_add(frac_mul(a, c), frac_mul(b, c))),
{
    broadcast use vstd::arithmetic::mul::group_mul_properties;

    let l = frac_mul(frac_add(a, b), c);
    let r = frac_add(frac_mul(a, c), frac_mul(b, c));
    assert(r.n == l.n * c.d) by {
        assert(l.n * c.d == ((a.n * b.d) * c.n) * c.d + ((b.n * a.d) * c.n) * c.d);
        assert((a.n * c.n) * (b.d * c.d) == ((a.n * b.d) * c.n) * c.d) by {
            lemma_mul_reassoc(a.n, c.n, b.d, c.d);
            lemma_mul_reassoc(a.n, b.d, c.n, c.d);
        }
        assert((b.n * c.n) * (a.d * c.d) == ((b.n * a.d) * c.n) * c.d) by {
            lemma_mul_reassoc(b.n, c.n, a.d, c.d);
            lemma_mul_reassoc(b.n, a.d, c.n, c.d);
        }
    }
    assert(r.d == l.d * c.d) by {
        lemma_mul_reassoc(a.d, c.d, b.d, c.d);
        lemma_mul_reassoc(a.d, b.d, c.d, c.d);
    }
    assert(l.n * r.d == r.n * l.d) by (nonlinear_arith)
        requires
            r.n == l.n * c.d,
            r.d == l.d * c.d,
    ;
}

/// Four summands may be regrouped pairwise, up to numeric equality.
pub proof fn lemma_add_swap(p: Frac, q: Frac, r: Frac, s: Frac)
    requires
        p.d != 0,
        q.d != 0,
        r.d != 0,
        s.d != 0,
    ensures
        frac_eq(frac_add(frac_add(p, q), frac_add(r, s)), frac_add(frac_add(p, r), frac_add(q, s))),
{
    broadcast use vstd::arithmetic::mul::group_mul_properties;

    let l = frac_add(frac_add(p, q), frac_add(r, s));
    let x = frac_add(frac_add(p, r), frac_add(q, s));
    assert(l.n == x.n) by {
        assert(l.n == (p.n * q.d) * (r.d * s.d) + (q.n * p.d) * (r.d * s.d) + (r.n * s.d) * (p.d
            * q.d) + (s.n * r.d) * (p.d * q.d));
        assert(x.n == (p.n * r.d) * (q.d * s.d) + (r.n * p.d) * (q.d * s.d) + (q.n * s.d) * (p.d
            * r.d) + (s.n * q.d) * (p.d * r.d));
        lemma_mul_reassoc(p.n, q.d, r.d, s.d);
        lemma_mul_reassoc(p.n, r.d, q.d, s.d);
        lemma_mul_reassoc(q.n, p.d, r.d, s.d);
        lemma_mul_reassoc(q.n, s.d, p.d, r.d);
        lemma_mul_reassoc(r.n, s.d, p.d, q.d);
        lemma_mul_reassoc(r.n, p.d, q.d, s.d);
        lemma_mul_reassoc(s.n, r.d, p.d, q.d);
        lemma_mul_reassoc(s.n, q.d, p.d, r.d);
        assert((p.n * q.d) * (r.d * s.d) == (p.n * r.d) * (q.d * s.d));
        assert((q.n * p.d) * (r.d * s.d) == (q.n * s.d) * (p.d * r.d)) by {
            lemma_mul_reassoc(q.n, p.d, r.d, s.d);
            assert((q.n * r.d) * (p.d * s.d) == (q.n * s.d) * (p.d * r.d)) by {
                lemma_mul_reassoc(q.n, r.d, p.d, s.d);
                lemma_mul_reassoc(q.n, p.d, s.d, r.d);
                lemma_mul_reassoc(q.n, s.d, p.d, r.d);
            }
        }
        assert((r.n * s.d) * (p.d * q.d) == (r.n * p.d) * (q.d * s.d)) by {
            lemma_mul_reassoc(r.n, s.d, p.d, q.d);
            lemma_mul_reassoc(r.n, p.d, s.d, q.d);
            lemma_mul_reassoc(r.n, p.d, q.d, s.d);
        }
        assert((s.n * r.d) * (p.d * q.d) == (s.n * q.d) * (p.d * r.d)) by {
            lemma_mul_reassoc(s.n, r.d, p.d, q.d);
            lemma_mul_reassoc(s.n, p.d, r.d, q.d);
            lemma_mul_reassoc(s.n, q.d, p.d, r.d);
        }
    }
    assert(l.d == x.d) by {
        lemma_mul_reassoc(p.d, q.d, r.d, s.d);
    }
}

/// Adding zero changes nothing, numerically.
pub proof fn lemma_add_zero(a: Frac)
    ensures
        frac_eq(frac_add(frac_zero(), a), a),
        frac_eq(frac_add(a, frac_zero()), a),
{
}

/// `x - y + y` is `x`, and dividing then multiplying undoes itself:
/// `(a / b) * b` is `a`, for nonzero `b`.
pub proof fn lemma_div_mul_cancel(a: Frac, b: Frac)
    requires
        a.d != 0,
        b.d != 0,
        b.n != 0,
    ensures
        frac_eq(frac_mul(frac_div(a, b), b), a),
{
    let l = frac_mul(frac_div(a, b), b);
    assert(l.n * a.d == a.n * l.d) by (nonlinear_arith)
        requires
            l.n == (a.n * b.d) * b.n,
            l.d == (a.d * b.n) * b.d,
    ;
}

/// Adding the `-1`-scaled pair is subtracting the pair.
pub proof fn lemma_add_neg_is_sub(p: Frac, a: Frac)
    ensures
        frac_add(p, frac_mul(Frac { n: -1, d: 1 }, a)) == frac_sub(p, a),
{
    let m = frac_mul(Frac { n: -1, d: 1 }, a);
    assert(m.n == (-1) * a.n && m.d == 1 * a.d);
    assert((-1) * a.n == -a.n && 1 * a.d == a.d) by (nonlinear_arith);
    assert((-a.n) * p.d == -(a.n * p.d)) by (nonlinear_arith);
}

/// Adding a difference back cancels: `a + (p - a)` is `p`.
pub proof fn lemma_add_sub_cancel(a: Frac, p: Frac)
    requires
        a.d != 0,
        p.d != 0,
    ensures
        frac_eq(frac_add(a, frac_sub(p, a)), p),
{
    let l = frac_add(a, frac_sub(p, a));
    assert(l.n * p.d == p.n * l.d) by (nonlinear_arith)
        requires
            l.n == a.n * (p.d * a.d) + (p.n * a.d - a.n * p.d) * a.d,
            l.d == a.d * (p.d * a.d),
            a.d != 0,
    ;
}

/// Adding then subtracting the same pair cancels: `(a + b) - a` is `b`.
pub proof fn lemma_add_then_sub_cancel(a: Frac, b: Frac)
    requires
        a.d != 0,
        b.d != 0,
    ensures
        frac_eq(frac_sub(frac_add(a, b), a), b),
{
    let l = frac_sub(frac_add(a, b), a);
    assert(l.n * b.d == b.n * l.d) by (nonlinear_arith)
        requires
            l.n == (a.n * b.d + b.n * a.d) * a.d - a.n * (a.d * b.d),
            l.d == (a.d * b.d) * a.d,
            a.d != 0,
    ;
}

/// A pair less itself is zero.
pub proof fn lemma_sub_self(p: Frac)
    ensures
        frac_eq(frac_sub(p, p), frac_zero()),
{
    assert(p.n * p.d - p.n * p.d == 0);
}

/// Zero is the left identity of addition, on the pairs themselves.
pub proof fn lemma_zero_add(x: Frac)
    ensures
        frac_add(frac_zero(), x) == x,
{
    assert(0 * x.d + x.n * 1 == x.n) by (nonlinear_arith);
    assert(1 * x.d == x.d) by (nonlinear_arith);
}

/// Negation factors out of a product's left side, on the pairs themselves.
pub proof fn lemma_mul_neg_left(a: Frac, b: Frac)
    ensures
        frac_mul(frac_neg(a), b) == frac_neg(frac_mul(a, b)),
{
    assert((-a.n) * b.n == -(a.n * b.n)) by (nonlinear_arith);
}

/// Adding a negated pair is subtracting the pair, on the pairs themselves.
pub proof fn lemma_add_neg(p: Frac, a: Frac)
    ensures
        frac_add(p, frac_neg(a)) == frac_sub(p, a),
{
    assert((-a.n) * p.d == -(a.n * p.d)) by (nonlinear_arith);
}

/// A sum of negated pairs is the negated sum, on the pairs themselves.
pub proof fn lemma_add_neg_both(p: Frac, q: Frac)
    ensures
        frac_add(frac_neg(p), frac_neg(q)) == frac_neg(frac_add(p, q)),
{
    assert((-p.n) * q.d + (-q.n) * p.d == -(p.n * q.d + q.n * p.d)) by (nonlinear_arith);
}

/// The canonical form is well defined on numbers: numerically equal pairs
/// have the same canonical form.
pub proof fn lemma_canon_cong(x: Frac, y: Frac)
    requires
        x.d != 0,
        y.d != 0,
        frac_eq(x, y),
    ensures
        canon(x) == canon(y),
{
    lemma_canon_exists(x);
    lemma_canon_exists(y);
    lemma_frac_eq_trans(canon(x), x, y);
    lemma_frac_eq_sym(canon(y), y);
    lemma_frac_eq_trans(canon(x), y, canon(y));
    lemma_canon_unique(canon(x), canon(y));
}

/// A two-term linear combination of two-term linear combinations collapses
/// to a two-term linear combination with combined coefficients.
pub proof fn lemma_lin_combine(
    p: Frac,
    q: Frac,
    u1: Frac,
    v1: Frac,
    u2: Frac,
    v2: Frac,
    a: Frac,
    b: Frac,
    w1: Frac,
    w2: Frac,
)
    requires
        p.d != 0,
        q.d != 0,
        u1.d != 0,
        v1.d != 0,
        u2.d != 0,
        v2.d != 0,
        a.d != 0,
        b.d != 0,
        w1.d != 0,
        w2.d != 0,
        frac_eq(w1, frac_add(frac_mul(p, u1), frac_mul(q, u2))),
        frac_eq(w2, frac_add(frac_mul(p, v1), frac_mul(q, v2))),
    ensures
        frac_eq(
            frac_add(
                frac_mul(p, frac_add(frac_mul(u1, a), frac_mul(v1, b))),
                frac_mul(q, frac_add(frac_mul(u2, a), frac_mul(v2, b))),
            ),
            frac_add(frac_mul(w1, a), frac_mul(w2, b)),
        ),
{
    let x1 = frac_mul(u1, a);
    let y1 = frac_mul(v1, b);
    let x2 = frac_mul(u2, a);
    let y2 = frac_mul(v2, b);
    lemma_den_nz(u1, a);
    lemma_den_nz(v1, b);
    lemma_den_nz(u2, a);
    lemma_den_nz(v2, b);
    lemma_den_nz(x1, y1);
    lemma_den_nz(x2, y2);
    // Distribute p and q over the inner sums.
    lemma_mul_comm(p, frac_add(x1, y1));
    lemma_mul_add_distrib(x1, y1, p);
    lemma_mul_comm(x1, p);
    lemma_mul_comm(y1, p);
    lemma_mul_comm(q, frac_add(x2, y2));
    lemma_mul_add_distrib(x2, y2, q);
    lemma_mul_comm(x2, q);
    lemma_mul_comm(y2, q);
    lemma_den_nz(p, x1);
    lemma_den_nz(p, y1);
    lemma_den_nz(q, x2);
    lemma_den_nz(q, y2);
    lemma_den_nz(frac_mul(p, x1), frac_mul(p, y1));
    lemma_den_nz(frac_mul(q, x2), frac_mul(q, y2));
    lemma_den_nz(p, frac_add(x1, y1));
    lemma_den_nz(q, frac_add(x2, y2));
    lemma_den_nz(frac_mul(p, x1), frac_mul(q, x2));
    lemma_den_nz(frac_mul(p, y1), frac_mul(q, y2));
    lemma_add_cong(
        frac_mul(p, frac_add(x1, y1)),
        frac_add(frac_mul(p, x1), frac_mul(p, y1)),
        frac_mul(q, frac_add(x2, y2)),
        frac_add(frac_mul(q, x2), frac_mul(q, y2)),
    );
    // Regroup the four products by a-terms and b-terms.
    lemma_add_swap(frac_mul(p, x1), frac_mul(p, y1), frac_mul(q, x2), frac_mul(q, y2));
    lemma_den_nz(frac_add(frac_mul(p, x1), frac_mul(p, y1)), frac_add(
        frac_mul(q, x2),
        frac_mul(q, y2),
    ));
    lemma_frac_eq_trans(
        frac_add(frac_mul(p, frac_add(x1, y1)), frac_mul(q, frac_add(x2, y2))),
        frac_add(frac_add(frac_mul(p, x1), frac_mul(p, y1)), frac_add(
            frac_mul(q, x2),
            frac_mul(q, y2),
        )),
        frac_add(frac_add(frac_mul(p, x1), frac_mul(q, x2)), frac_add(
            frac_mul(p, y1),
            frac_mul(q, y2),
        )),
    );
    // Re-associate each product and pull the common vector entry out.
    lemma_mul_assoc(p, u1, a);
    lemma_mul_assoc(q, u2, a);
    lemma_mul_assoc(p, v1, b);
    lemma_mul_assoc(q, v2, b);
    lemma_den_nz(p, u1);
    lemma_den_nz(q, u2);
    lemma_den_nz(p, v1);
    lemma_den_nz(q, v2);
    lemma_mul_add_distrib(frac_mul(p, u1), frac_mul(q, u2), a);
    lemma_mul_add_distrib(frac_mul(p, v1), frac_mul(q, v2), b);
    lemma_den_nz(frac_mul(p, u1), frac_mul(q, u2));
    lemma_den_nz(frac_mul(p, v1), frac_mul(q, v2));
    lemma_den_nz(frac_add(frac_mul(p, u1), frac_mul(q, u2)), a);
    lemma_den_nz(frac_add(frac_mul(p, v1), frac_mul(q, v2)), b);
    lemma_frac_eq_sym(
        frac_mul(frac_add(frac_mul(p, u1), frac_mul(q, u2)), a),
        frac_add(frac_mul(frac_mul(p, u1), a), frac_mul(frac_mul(q, u2), a)),
    );
    lemma_frac_eq_sym(
        frac_mul(frac_add(frac_mul(p, v1), frac_mul(q, v2)), b),
        frac_add(frac_mul(frac_mul(p, v1), b), frac_mul(frac_mul(q, v2), b)),
    );
    lemma_add_cong(
        frac_add(frac_mul(p, x1), frac_mul(q, x2)),
        frac_mul(frac_add(frac_mul(p, u1), frac_mul(q, u2)), a),
        frac_add(frac_mul(p, y1), frac_mul(q, y2)),
        frac_mul(frac_add(frac_mul(p, v1), frac_mul(q, v2)), b),
    );
    lemma_frac_eq_trans(
        frac_add(frac_mul(p, frac_add(x1, y1)), frac_mul(q, frac_add(x2, y2))),
        frac_add(frac_add(frac_mul(p, x1), frac_mul(q, x2)), frac_add(
            frac_mul(p, y1),
            frac_mul(q, y2),
        )),
        frac_add(
            frac_mul(frac_add(frac_mul(p, u1), frac_mul(q, u2)), a),
            frac_mul(frac_add(frac_mul(p, v1), frac_mul(q, v2)), b),
        ),
    );
    // Replace the combined coefficients by w1 and w2.
    lemma_frac_eq_sym(w1, frac_add(frac_mul(p, u1), frac_mul(q, u2)));
    lemma_frac_eq_sym(w2, frac_add(frac_mul(p, v1), frac_mul(q, v2)));
    lemma_mul_cong(frac_add(frac_mul(p, u1), frac_mul(q, u2)), w1, a, a);
    lemma_mul_cong(frac_add(frac_mul(p, v1), frac_mul(q, v2)), w2, b, b);
    lemma_den_nz(w1, a);
    lemma_den_nz(w2, b);
    lemma_add_cong(
        frac_mul(frac_add(frac_mul(p, u1), frac_mul(q, u2)), a),
        frac_mul(w1, a),
        frac_mul(frac_add(frac_mul(p, v1), frac_mul(q, v2)), b),
        frac_mul(w2, b),
    );
    lemma_frac_eq_trans(
        frac_add(frac_mul(p, frac_add(x1, y1)), frac_mul(q, frac_add(x2, y2))),
        frac_add(
            frac_mul(frac_add(frac_mul(p, u1), frac_mul(q, u2)), a),
            frac_mul(frac_add(frac_mul(p, v1), frac_mul(q, v2)), b),
        ),
        frac_add(frac_mul(w1, a), frac_mul(w2, b)),
    );
}

// ---------------------------------------------------------------------------
// Floor square roots of integers.
// ---------------------------------------------------------------------------

/// `r` is the integer square root of `x`, rounded toward zero.
pub open spec fn is_floor_sqrt(x: int, r: int) -> bool {
    0 <= r && r * r <= x && x < (r + 1) * (r + 1)
}

/// The integer square root of `x`, rounded toward zero (meaningful for `x >= 0`).
pub open spec fn floor_sqrt(x: int) -> int {
    choose|r: int| is_floor_sqrt(x, r)
}

pub proof fn lemma_floor_sqrt_exists(x: int)
    requires
        x >= 0,
    ensures
        is_floor_sqrt(x, floor_sqrt(x)),
    decreases x,
{
    if x == 0 {
        assert(is_floor_sqrt(0, 0));
    } else {
        lemma_floor_sqrt_exists(x - 1);
        let s = floor_sqrt(x - 1);
        if x == (s + 1) * (s + 1) {
            assert(is_floor_sqrt(x, s + 1)) by (nonlinear_arith)
                requires
                    s >= 0,
                    x == (s + 1) * (s + 1),
            ;
        } else {
            assert(is_floor_sqrt(x, s));
        }
    }
}

/// The denominator scale of an approximated square root: roots are rounded
/// down to a multiple of `1 / (d * SQRT_SCALE)` for an input of denominator `d`.
pub const SQRT_SCALE: i64 = 1073741824;

/// The square of `SQRT_SCALE`.
pub const SQRT_SCALE_SQ: i64 = 1073741824 * 1073741824;

/// The square root of `x`, rounded down to the fixed binary precision:
/// `floor(sqrt(n * d * SQRT_SCALE^2)) / (d * SQRT_SCALE)`, which is
/// `sqrt(n / d)` rounded down to a multiple of `1 / (d * SQRT_SCALE)`.
pub open spec fn frac_sqrt(x: Frac) -> Frac {
    Frac {
        n: floor_sqrt(x.n * x.d * (SQRT_SCALE_SQ as int)),
        d: x.d * (SQRT_SCALE as int),
    }
}

pub proof fn lemma_floor_sqrt_unique(x: int, r: int)
    requires
        is_floor_sqrt(x, r),
    ensures
        r == floor_sqrt(x),
{
    assert(x >= 0) by (nonlinear_arith)
        requires
            0 <= r && r * r <= x,
    ;
    lemma_floor_sqrt_exists(x);
    let s = floor_sqrt(x);
    assert(r == s) by (nonlinear_arith)
        requires
            0 <= r && r * r <= x && x < (r + 1) * (r + 1),
            0 <= s && s * s <= x && x < (s + 1) * (s + 1),
    ;
}

} // verus!
