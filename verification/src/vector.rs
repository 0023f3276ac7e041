//! Dimension-generic vector arithmetic over exact scalars, with its
//! mathematical model on sequences of fractions.

use vstd::prelude::*;

use crate::rational::{canon, frac_add, frac_eq, frac_mul, frac_sub, frac_zero, is_canon,
    lemma_add_cong, lemma_canon_eq, lemma_frac_eq_trans, lemma_mul_cong, lemma_sub_cong, Frac};
use crate::scalar::Scalar;

verus! {

/// The fractions that a vector of scalars holds.
pub open spec fn vvals(v: Seq<Scalar>) -> Seq<Frac> {
    Seq::new(v.len(), |i: int| v[i]@)
}

/// Every entry is a well-formed finite scalar.
pub open spec fn vec_wf(v: Seq<Scalar>) -> bool {
    forall|i: int| 0 <= i < v.len() ==> (#[trigger] v[i]).wf() && v[i].is_fin()
}

/// Every entry is a canonical finite fraction.
pub open spec fn seq_wf(s: Seq<Frac>) -> bool {
    forall|i: int| 0 <= i < s.len() ==> is_canon(#[trigger] s[i])
}

/// Entry-wise numeric equality.
pub open spec fn fracs_eq(u: Seq<Frac>, v: Seq<Frac>) -> bool {
    u.len() == v.len() && forall|i: int| 0 <= i < u.len() ==> frac_eq(#[trigger] u[i], v[i])
}

/// Every entry has a nonzero denominator.
pub open spec fn seq_nz(s: Seq<Frac>) -> bool {
    forall|i: int| 0 <= i < s.len() ==> (#[trigger] s[i]).d != 0
}

/// The canonical form of each entry.
pub open spec fn canon_seq(u: Seq<Frac>) -> Seq<Frac> {
    Seq::new(u.len(), |i: int| canon(u[i]))
}

/// The dot product of two fraction vectors.
pub open spec fn fdot(u: Seq<Frac>, v: Seq<Frac>) -> Frac
    decreases u.len(),
{
    if u.len() == 0 || v.len() == 0 {
        frac_zero()
    } else {
        frac_add(fdot(u.drop_last(), v.drop_last()), frac_mul(u.last(), v.last()))
    }
}

/// Entry-wise difference.
pub open spec fn fsub(u: Seq<Frac>, v: Seq<Frac>) -> Seq<Frac> {
    Seq::new(u.len(), |i: int| frac_sub(u[i], v[i]))
}

/// Entry-wise sum.
pub open spec fn fadd(u: Seq<Frac>, v: Seq<Frac>) -> Seq<Frac> {
    Seq::new(u.len(), |i: int| frac_add(u[i], v[i]))
}

/// Every entry multiplied by `t`.
pub open spec fn fscale(t: Frac, u: Seq<Frac>) -> Seq<Frac> {
    Seq::new(u.len(), |i: int| frac_mul(t, u[i]))
}

/// The cross product of two three-dimensional fraction vectors.
pub open spec fn fcross(u: Seq<Frac>, v: Seq<Frac>) -> Seq<Frac> {
    seq![
        frac_sub(frac_mul(u[1], v[2]), frac_mul(u[2], v[1])),
        frac_sub(frac_mul(u[2], v[0]), frac_mul(u[0], v[2])),
        frac_sub(frac_mul(u[0], v[1]), frac_mul(u[1], v[0])),
    ]
}

/// Appending a scalar appends its fraction.
pub broadcast proof fn lemma_vvals_push(v: Seq<Scalar>, s: Scalar)
    ensures
        #[trigger] vvals(v.push(s)) == vvals(v).push(s@),
{
    assert(vvals(v.push(s)) =~= vvals(v).push(s@));
}

/// Well-formed vectors hold canonical fractions.
pub proof fn lemma_vec_wf_vals(v: Seq<Scalar>)
    requires
        vec_wf(v),
    ensures
        seq_wf(vvals(v)),
        seq_nz(vvals(v)),
        seq_pos(vvals(v)),
        vvals(v).len() == v.len(),
{
    assert forall|i: int| 0 <= i < vvals(v).len() implies is_canon(#[trigger] vvals(v)[i]) by {
        assert(v[i].wf() && v[i].is_fin());
    }
    lemma_wf_pos(vvals(v));
}

/// Every entry has a positive denominator.
pub open spec fn seq_pos(s: Seq<Frac>) -> bool {
    forall|i: int| 0 <= i < s.len() ==> (#[trigger] s[i]).d >= 1
}

/// Positive denominators are nonzero.
pub proof fn lemma_pos_nz(s: Seq<Frac>)
    requires
        seq_pos(s),
    ensures
        seq_nz(s),
{
    assert forall|i: int| 0 <= i < s.len() implies (#[trigger] s[i]).d != 0 by {
        assert(s[i].d >= 1);
    }
}

/// Canonical entries have positive denominators.
pub proof fn lemma_wf_pos(s: Seq<Frac>)
    requires
        seq_wf(s),
    ensures
        seq_pos(s),
{
    assert forall|i: int| 0 <= i < s.len() implies (#[trigger] s[i]).d >= 1 by {
        assert(is_canon(s[i]));
    }
}

/// Entry-wise sums, differences, and scalings keep denominators positive.
pub proof fn lemma_seq_ops_pos(u: Seq<Frac>, v: Seq<Frac>, t: Frac)
    requires
        seq_pos(u),
        seq_pos(v),
        u.len() == v.len(),
        t.d >= 1,
    ensures
        seq_pos(fsub(u, v)),
        seq_pos(fadd(u, v)),
        seq_pos(fscale(t, u)),
{
    assert forall|i: int| 0 <= i < u.len() implies (#[trigger] fsub(u, v)[i]).d >= 1 by {
        lemma_den_pos(u[i], v[i], t);
    }
    assert forall|i: int| 0 <= i < u.len() implies (#[trigger] fadd(u, v)[i]).d >= 1 by {
        lemma_den_pos(u[i], v[i], t);
    }
    assert forall|i: int| 0 <= i < u.len() implies (#[trigger] fscale(t, u)[i]).d >= 1 by {
        lemma_den_pos(u[i], v[i], t);
    }
}

proof fn lemma_den_pos(a: Frac, b: Frac, t: Frac)
    requires
        a.d >= 1,
        b.d >= 1,
        t.d >= 1,
    ensures
        frac_add(a, b).d >= 1,
        frac_sub(a, b).d >= 1,
        frac_mul(a, b).d >= 1,
        frac_mul(t, a).d >= 1,
{
    assert(a.d * b.d >= 1 && t.d * a.d >= 1) by (nonlinear_arith)
        requires
            a.d >= 1,
            b.d >= 1,
            t.d >= 1,
    ;
}

/// The dot product of vectors with positive denominators has a positive
/// denominator.
pub proof fn lemma_fdot_den(u: Seq<Frac>, v: Seq<Frac>)
    requires
        seq_pos(u),
        seq_pos(v),
    ensures
        fdot(u, v).d >= 1,
    decreases u.len(),
{
    if u.len() == 0 || v.len() == 0 {
    } else {
        assert(seq_pos(u.drop_last()) && seq_pos(v.drop_last()));
        lemma_fdot_den(u.drop_last(), v.drop_last());
        let a = fdot(u.drop_last(), v.drop_last());
        let x = u.last();
        let y = v.last();
        assert(fdot(u, v).d == a.d * (x.d * y.d));
        assert(a.d * (x.d * y.d) >= 1) by (nonlinear_arith)
            requires
                a.d >= 1,
                x.d >= 1,
                y.d >= 1,
        ;
    }
}

/// The dot product of a well-formed vector with itself is a sum of squares:
/// nonnegative.
pub proof fn lemma_fdot_self_nonneg(u: Seq<Frac>)
    requires
        seq_wf(u),
    ensures
        fdot(u, u).n >= 0,
        fdot(u, u).d >= 1,
    decreases u.len(),
{
    lemma_wf_pos(u);
    lemma_fdot_den(u, u);
    if u.len() == 0 {
    } else {
        assert(seq_wf(u.drop_last()));
        lemma_fdot_self_nonneg(u.drop_last());
        let a = fdot(u.drop_last(), u.drop_last());
        let x = u.last();
        assert(fdot(u, u).n == a.n * (x.d * x.d) + (x.n * x.n) * a.d);
        assert(a.n * (x.d * x.d) + (x.n * x.n) * a.d >= 0) by (nonlinear_arith)
            requires
                a.n >= 0,
                a.d >= 1,
                x.d >= 1,
        ;
    }
}

/// The dot product respects entry-wise numeric equality.
pub proof fn lemma_fdot_cong(u: Seq<Frac>, u2: Seq<Frac>, v: Seq<Frac>, v2: Seq<Frac>)
    requires
        seq_nz(u),
        seq_nz(u2),
        seq_nz(v),
        seq_nz(v2),
        fracs_eq(u, u2),
        fracs_eq(v, v2),
        u.len() == v.len(),
    ensures
        frac_eq(fdot(u, v), fdot(u2, v2)),
        fdot(u, v).d != 0,
        fdot(u2, v2).d != 0,
    decreases u.len(),
{
    if u.len() == 0 {
    } else {
        crate::rational::lemma_den_nz(u.last(), v.last());
        crate::rational::lemma_den_nz(u2.last(), v2.last());
        assert(seq_nz(u.drop_last()) && seq_nz(u2.drop_last()) && seq_nz(v.drop_last()) && seq_nz(
            v2.drop_last(),
        ));
        assert(fracs_eq(u.drop_last(), u2.drop_last()));
        assert(fracs_eq(v.drop_last(), v2.drop_last()));
        lemma_fdot_cong(u.drop_last(), u2.drop_last(), v.drop_last(), v2.drop_last());
        assert(frac_eq(u.last(), u2.last()) && frac_eq(v.last(), v2.last()));
        lemma_mul_cong(u.last(), u2.last(), v.last(), v2.last());
        lemma_add_cong(
            fdot(u.drop_last(), v.drop_last()),
            fdot(u2.drop_last(), v2.drop_last()),
            frac_mul(u.last(), v.last()),
            frac_mul(u2.last(), v2.last()),
        );
        crate::rational::lemma_den_nz(
            fdot(u2.drop_last(), v2.drop_last()),
            frac_mul(u2.last(), v2.last()),
        );
    }
}

/// Entry-wise sums, differences, and scalings keep denominators nonzero.
pub proof fn lemma_seq_ops_nz(u: Seq<Frac>, v: Seq<Frac>, t: Frac)
    requires
        seq_nz(u),
        seq_nz(v),
        u.len() == v.len(),
        t.d != 0,
    ensures
        seq_nz(fsub(u, v)),
        seq_nz(fadd(u, v)),
        seq_nz(fscale(t, u)),
{
    assert forall|i: int| 0 <= i < u.len() implies (#[trigger] fsub(u, v)[i]).d != 0 by {
        crate::rational::lemma_den_nz(u[i], v[i]);
    }
    assert forall|i: int| 0 <= i < u.len() implies (#[trigger] fadd(u, v)[i]).d != 0 by {
        crate::rational::lemma_den_nz(u[i], v[i]);
    }
    assert forall|i: int| 0 <= i < u.len() implies (#[trigger] fscale(t, u)[i]).d != 0 by {
        crate::rational::lemma_den_nz(t, u[i]);
    }
}

/// Subtraction is addition of the negated vector, entry for entry.
pub proof fn lemma_fsub_as_add(u: Seq<Frac>, v: Seq<Frac>)
    requires
        u.len() == v.len(),
    ensures
        fsub(u, v) == fadd(u, fscale(Frac { n: -1, d: 1 }, v)),
{
    assert forall|i: int| 0 <= i < u.len() implies fsub(u, v)[i] == fadd(
        u,
        fscale(Frac { n: -1, d: 1 }, v),
    )[i] by {
        let m = frac_mul(Frac { n: -1, d: 1 }, v[i]);
        assert(m.n == (-1) * v[i].n && m.d == 1 * v[i].d);
        assert((-1) * v[i].n == -v[i].n && 1 * v[i].d == v[i].d) by (nonlinear_arith);
        assert((-v[i].n) * u[i].d == -(v[i].n * u[i].d)) by (nonlinear_arith);
        assert(frac_add(u[i], m).n == u[i].n * v[i].d + (-v[i].n) * u[i].d);
    }
    assert(fsub(u, v) =~= fadd(u, fscale(Frac { n: -1, d: 1 }, v)));
}

/// The dot product is additive in its left argument.
pub proof fn lemma_fdot_add_left(u: Seq<Frac>, w: Seq<Frac>, n: Seq<Frac>)
    requires
        seq_nz(u),
        seq_nz(w),
        seq_nz(n),
        u.len() == w.len(),
        u.len() == n.len(),
    ensures
        frac_eq(fdot(fadd(u, w), n), frac_add(fdot(u, n), fdot(w, n))),
        fdot(fadd(u, w), n).d != 0,
    decreases u.len(),
{
    lemma_seq_ops_nz(u, w, frac_zero());
    if u.len() == 0 {
        crate::rational::lemma_den_nz(fdot(u, n), fdot(w, n));
    } else {
        assert(seq_nz(u.drop_last()) && seq_nz(w.drop_last()) && seq_nz(n.drop_last()));
        lemma_fdot_add_left(u.drop_last(), w.drop_last(), n.drop_last());
        let fa = fadd(u, w);
        assert(fa.drop_last() =~= fadd(u.drop_last(), w.drop_last()));
        assert(fa.last() == frac_add(u.last(), w.last()));
        let a = fdot(u.drop_last(), n.drop_last());
        let b = fdot(w.drop_last(), n.drop_last());
        let c = frac_mul(u.last(), n.last());
        let d = frac_mul(w.last(), n.last());
        lemma_fdot_cong(u.drop_last(), u.drop_last(), n.drop_last(), n.drop_last());
        lemma_fdot_cong(w.drop_last(), w.drop_last(), n.drop_last(), n.drop_last());
        crate::rational::lemma_den_nz(u.last(), n.last());
        crate::rational::lemma_den_nz(w.last(), n.last());
        crate::rational::lemma_mul_add_distrib(u.last(), w.last(), n.last());
        crate::rational::lemma_den_nz(u.last(), w.last());
        crate::rational::lemma_den_nz(frac_add(u.last(), w.last()), n.last());
        crate::rational::lemma_den_nz(a, b);
        crate::rational::lemma_den_nz(c, d);
        // fdot(fa, n) == add(fdot(fa.dl, n.dl), mul(fa.last, n.last))
        lemma_add_cong(
            fdot(fa.drop_last(), n.drop_last()),
            frac_add(a, b),
            frac_mul(fa.last(), n.last()),
            frac_add(c, d),
        );
        crate::rational::lemma_den_nz(a, b);
        crate::rational::lemma_den_nz(c, d);
        crate::rational::lemma_add_swap(a, b, c, d);
        crate::rational::lemma_den_nz(frac_add(a, b), frac_add(c, d));
        lemma_frac_eq_trans(
            fdot(fa, n),
            frac_add(frac_add(a, b), frac_add(c, d)),
            frac_add(frac_add(a, c), frac_add(b, d)),
        );
        assert(fdot(u, n) == frac_add(a, c));
        assert(fdot(w, n) == frac_add(b, d));
    }
}

/// The dot product commutes with scaling its left argument.
pub proof fn lemma_fdot_scale_left(t: Frac, u: Seq<Frac>, n: Seq<Frac>)
    requires
        t.d != 0,
        seq_nz(u),
        seq_nz(n),
        u.len() == n.len(),
    ensures
        frac_eq(fdot(fscale(t, u), n), frac_mul(t, fdot(u, n))),
        fdot(fscale(t, u), n).d != 0,
    decreases u.len(),
{
    lemma_seq_ops_nz(u, u, t);
    if u.len() == 0 {
        assert(frac_mul(t, frac_zero()) == (Frac { n: t.n * 0, d: t.d * 1 }));
        crate::rational::lemma_den_nz(t, frac_zero());
    } else {
        assert(seq_nz(u.drop_last()) && seq_nz(n.drop_last()));
        lemma_fdot_scale_left(t, u.drop_last(), n.drop_last());
        let fs = fscale(t, u);
        assert(fs.drop_last() =~= fscale(t, u.drop_last()));
        assert(fs.last() == frac_mul(t, u.last()));
        let a = fdot(u.drop_last(), n.drop_last());
        let c = frac_mul(u.last(), n.last());
        lemma_fdot_cong(u.drop_last(), u.drop_last(), n.drop_last(), n.drop_last());
        crate::rational::lemma_den_nz(u.last(), n.last());
        crate::rational::lemma_mul_assoc(t, u.last(), n.last());
        crate::rational::lemma_den_nz(t, a);
        crate::rational::lemma_den_nz(t, c);
        // fdot(fs, n) == add(fdot(fs.dl, n.dl), mul(t, mul(u.last, n.last)))
        lemma_add_cong(
            fdot(fs.drop_last(), n.drop_last()),
            frac_mul(t, a),
            frac_mul(fs.last(), n.last()),
            frac_mul(t, c),
        );
        crate::rational::lemma_mul_comm(t, frac_add(a, c));
        crate::rational::lemma_mul_add_distrib(a, c, t);
        crate::rational::lemma_mul_comm(a, t);
        crate::rational::lemma_mul_comm(c, t);
        crate::rational::lemma_den_nz(frac_mul(t, a), frac_mul(t, c));
        crate::rational::lemma_frac_eq_sym(
            frac_mul(frac_add(a, c), t),
            frac_add(frac_mul(a, t), frac_mul(c, t)),
        );
        lemma_frac_eq_trans(
            fdot(fs, n),
            frac_add(frac_mul(t, a), frac_mul(t, c)),
            frac_mul(t, frac_add(a, c)),
        );
        assert(fdot(u, n) == frac_add(a, c));
    }
}

/// The dot product with an all-zero row is zero.
pub proof fn lemma_fdot_zero_row(row: Seq<Frac>, x: Seq<Frac>)
    requires
        seq_nz(x),
        row.len() == x.len(),
        forall|j: int| 0 <= j < row.len() ==> row[j] == frac_zero(),
    ensures
        frac_eq(fdot(row, x), frac_zero()),
        fdot(row, x).d != 0,
    decreases row.len(),
{
    if row.len() == 0 {
    } else {
        assert(seq_nz(x.drop_last()));
        lemma_fdot_zero_row(row.drop_last(), x.drop_last());
        let a = fdot(row.drop_last(), x.drop_last());
        let m = frac_mul(row.last(), x.last());
        assert(m.n == 0 * x.last().n && m.d == 1 * x.last().d);
        assert(0 * x.last().n == 0 && 1 * x.last().d == x.last().d) by (nonlinear_arith);
        assert(fdot(row, x).n == a.n * m.d + 0 * a.d);
        assert(fdot(row, x).n * 1 == 0 * fdot(row, x).d) by (nonlinear_arith)
            requires
                fdot(row, x).n == a.n * m.d + 0 * a.d,
                a.n * 1 == 0 * a.d,
                m.d == x.last().d,
                fdot(row, x).d == a.d * (row.last().d * x.last().d),
                a.d != 0,
                x.last().d != 0,
    ;
        assert(fdot(row, x).d != 0) by (nonlinear_arith)
            requires
                fdot(row, x).d == a.d * (row.last().d * x.last().d),
                a.d != 0,
                row.last().d == 1,
                x.last().d != 0,
        ;
    }
}

/// The dot product with a unit row (one at position `i`, zero elsewhere)
/// picks out entry `i`.
pub proof fn lemma_fdot_unit_row(row: Seq<Frac>, x: Seq<Frac>, i: int)
    requires
        seq_nz(x),
        row.len() == x.len(),
        0 <= i < row.len(),
        row[i] == crate::rational::frac_int(1),
        forall|j: int| 0 <= j < row.len() && j != i ==> row[j] == frac_zero(),
    ensures
        frac_eq(fdot(row, x), x[i]),
        fdot(row, x).d != 0,
    decreases row.len(),
{
    let a = fdot(row.drop_last(), x.drop_last());
    let m = frac_mul(row.last(), x.last());
    crate::rational::lemma_den_nz(row.last(), x.last());
    if i == row.len() - 1 {
        lemma_fdot_zero_row(row.drop_last(), x.drop_last());
        assert(m.n == 1 * x.last().n && m.d == 1 * x.last().d);
        assert(1 * x.last().n == x.last().n && 1 * x.last().d == x.last().d) by (nonlinear_arith);
        crate::rational::lemma_add_cong(a, frac_zero(), m, x[i]);
        crate::rational::lemma_add_zero(x[i]);
        crate::rational::lemma_den_nz(frac_zero(), x[i]);
        lemma_frac_eq_trans(fdot(row, x), frac_add(frac_zero(), x[i]), x[i]);
    } else {
        assert(seq_nz(x.drop_last()));
        lemma_fdot_unit_row(row.drop_last(), x.drop_last(), i);
        assert(m.n == 0 * x.last().n && m.d == 1 * x.last().d);
        assert(0 * x.last().n == 0 && 1 * x.last().d == x.last().d) by (nonlinear_arith);
        assert(m.n * 1 == 0 * m.d) by (nonlinear_arith)
            requires
                m.n == 0,
        ;
        assert(frac_eq(m, frac_zero()));
        crate::rational::lemma_add_cong(a, x[i], m, frac_zero());
        crate::rational::lemma_den_nz(x[i], frac_zero());
        crate::rational::lemma_add_comm(x[i], frac_zero());
        crate::rational::lemma_add_zero(x[i]);
        lemma_frac_eq_trans(frac_add(x[i], frac_zero()), frac_add(frac_zero(), x[i]), x[i]);
        lemma_frac_eq_trans(fdot(row, x), frac_add(x[i], frac_zero()), x[i]);
    }
}

/// The cross product of vectors with positive denominators has nonzero
/// denominators.
pub proof fn lemma_fcross_nz(u: Seq<Frac>, v: Seq<Frac>)
    requires
        seq_pos(u),
        seq_pos(v),
        u.len() == 3,
        v.len() == 3,
    ensures
        seq_nz(fcross(u, v)),
{
    assert forall|j: int| 0 <= j < 3 implies (#[trigger] fcross(u, v)[j]).d != 0 by {
        crate::rational::lemma_den_nz(u[1], v[2]);
        crate::rational::lemma_den_nz(u[2], v[1]);
        crate::rational::lemma_den_nz(u[2], v[0]);
        crate::rational::lemma_den_nz(u[0], v[2]);
        crate::rational::lemma_den_nz(u[0], v[1]);
        crate::rational::lemma_den_nz(u[1], v[0]);
        crate::rational::lemma_den_nz(frac_mul(u[1], v[2]), frac_mul(u[2], v[1]));
        crate::rational::lemma_den_nz(frac_mul(u[2], v[0]), frac_mul(u[0], v[2]));
        crate::rational::lemma_den_nz(frac_mul(u[0], v[1]), frac_mul(u[1], v[0]));
    }
}

/// A sequence of well-formed scalars whose values agree entry-wise with `u`
/// is exactly the canonical form of `u`.
pub proof fn lemma_canon_seq_eq(x: Seq<Frac>, u: Seq<Frac>)
    requires
        seq_wf(x),
        seq_nz(u),
        fracs_eq(x, u),
    ensures
        x == canon_seq(u),
{
    assert forall|i: int| 0 <= i < u.len() implies x[i] == canon_seq(u)[i] by {
        lemma_canon_eq(u[i], x[i]);
    }
    assert(x =~= canon_seq(u));
}

// ---------------------------------------------------------------------------
// Executable vector operations.
// ---------------------------------------------------------------------------

/// A copy of the vector, holding the same numbers.
pub fn dup_vec(v: &Vec<Scalar>) -> (r: Vec<Scalar>)
    requires
        vec_wf(v@),
    ensures
        vec_wf(r@),
        vvals(r@) == vvals(v@),
        r@.len() == v@.len(),
{
    broadcast use lemma_vvals_push;
    let mut r: Vec<Scalar> = Vec::new();
    let mut i: usize = 0;
    while i < v.len()
        invariant
            vec_wf(v@),
            vec_wf(r@),
            i <= v@.len(),
            r@.len() == i,
            forall|j: int| 0 <= j < i as int ==> vvals(r@)[j] == vvals(v@)[j],
        decreases v@.len() - i,
    {
        r.push(v[i].dup());
        i += 1;
    }
    proof {
        assert(vvals(r@) =~= vvals(v@));
    }
    r
}

/// Entry-wise difference of two equally long vectors.
pub fn sub(a: &Vec<Scalar>, b: &Vec<Scalar>) -> (r: Vec<Scalar>)
    requires
        vec_wf(a@),
        vec_wf(b@),
        a@.len() == b@.len(),
    ensures
        vec_wf(r@),
        r@.len() == a@.len(),
        fracs_eq(vvals(r@), fsub(vvals(a@), vvals(b@))),
{
    broadcast use lemma_vvals_push;
    let mut r: Vec<Scalar> = Vec::new();
    let mut i: usize = 0;
    while i < a.len()
        invariant
            vec_wf(a@),
            vec_wf(b@),
            a@.len() == b@.len(),
            vec_wf(r@),
            i <= a@.len(),
            r@.len() == i,
            forall|j: int| 0 <= j < i as int ==> frac_eq(
                #[trigger] vvals(r@)[j],
                frac_sub(vvals(a@)[j], vvals(b@)[j]),
            ),
        decreases a@.len() - i,
    {
        let s = a[i].sub(&b[i]);
        let ghost r0 = r@;
        r.push(s);
        proof {
            assert forall|j: int| 0 <= j < i as int + 1 implies frac_eq(
                #[trigger] vvals(r@)[j],
                frac_sub(vvals(a@)[j], vvals(b@)[j]),
            ) by {
                if j < i as int {
                    assert(vvals(r@)[j] == vvals(r0)[j]);
                } else {
                    assert(vvals(r@)[j] == s@);
                }
            }
        }
        i += 1;
    }
    r
}

/// Entry-wise sum of two equally long vectors.
pub fn add(a: &Vec<Scalar>, b: &Vec<Scalar>) -> (r: Vec<Scalar>)
    requires
        vec_wf(a@),
        vec_wf(b@),
        a@.len() == b@.len(),
    ensures
        vec_wf(r@),
        r@.len() == a@.len(),
        fracs_eq(vvals(r@), fadd(vvals(a@), vvals(b@))),
{
    broadcast use lemma_vvals_push;
    let mut r: Vec<Scalar> = Vec::new();
    let mut i: usize = 0;
    while i < a.len()
        invariant
            vec_wf(a@),
            vec_wf(b@),
            a@.len() == b@.len(),
            vec_wf(r@),
            i <= a@.len(),
            r@.len() == i,
            forall|j: int| 0 <= j < i as int ==> frac_eq(
                #[trigger] vvals(r@)[j],
                frac_add(vvals(a@)[j], vvals(b@)[j]),
            ),
        decreases a@.len() - i,
    {
        let s = a[i].add(&b[i]);
        let ghost r0 = r@;
        r.push(s);
        proof {
            assert forall|j: int| 0 <= j < i as int + 1 implies frac_eq(
                #[trigger] vvals(r@)[j],
                frac_add(vvals(a@)[j], vvals(b@)[j]),
            ) by {
                if j < i as int {
                    assert(vvals(r@)[j] == vvals(r0)[j]);
                } else {
                    assert(vvals(r@)[j] == s@);
                }
            }
        }
        i += 1;
    }
    r
}

/// Every entry multiplied by `t`.
pub fn scale(t: &Scalar, a: &Vec<Scalar>) -> (r: Vec<Scalar>)
    requires
        t.wf(),
        t.is_fin(),
        vec_wf(a@),
    ensures
        vec_wf(r@),
        r@.len() == a@.len(),
        fracs_eq(vvals(r@), fscale(t@, vvals(a@))),
{
    broadcast use lemma_vvals_push;
    let mut r: Vec<Scalar> = Vec::new();
    let mut i: usize = 0;
    while i < a.len()
        invariant
            t.wf(),
            t.is_fin(),
            vec_wf(a@),
            vec_wf(r@),
            i <= a@.len(),
            r@.len() == i,
            forall|j: int| 0 <= j < i as int ==> frac_eq(
                #[trigger] vvals(r@)[j],
                frac_mul(t@, vvals(a@)[j]),
            ),
        decreases a@.len() - i,
    {
        let s = t.mul(&a[i]);
        let ghost r0 = r@;
        r.push(s);
        proof {
            assert forall|j: int| 0 <= j < i as int + 1 implies frac_eq(
                #[trigger] vvals(r@)[j],
                frac_mul(t@, vvals(a@)[j]),
            ) by {
                if j < i as int {
                    assert(vvals(r@)[j] == vvals(r0)[j]);
                } else {
                    assert(vvals(r@)[j] == s@);
                }
            }
        }
        i += 1;
    }
    r
}

/// The dot product of two equally long vectors.
pub fn mul_dot(a: &Vec<Scalar>, b: &Vec<Scalar>) -> (r: Scalar)
    requires
        vec_wf(a@),
        vec_wf(b@),
        a@.len() == b@.len(),
    ensures
        r.wf(),
        r.is_fin(),
        frac_eq(r@, fdot(vvals(a@), vvals(b@))),
{
    proof {
        lemma_vec_wf_vals(a@);
        lemma_vec_wf_vals(b@);
    }
    let mut acc = Scalar::zero();
    let mut i: usize = 0;
    while i < a.len()
        invariant
            vec_wf(a@),
            vec_wf(b@),
            a@.len() == b@.len(),
            i <= a@.len(),
            acc.wf(),
            acc.is_fin(),
            frac_eq(acc@, fdot(vvals(a@).take(i as int), vvals(b@).take(i as int))),
        decreases a@.len() - i,
    {
        let term = a[i].mul(&b[i]);
        let next = acc.add(&term);
        proof {
            let ghost ua = vvals(a@);
            let ghost ub = vvals(b@);
            let ghost i_ = i as int;
            assert(ua.take(i_ + 1).drop_last() =~= ua.take(i_));
            assert(ub.take(i_ + 1).drop_last() =~= ub.take(i_));
            assert(ua.take(i_ + 1).last() == ua[i_]);
            assert(ub.take(i_ + 1).last() == ub[i_]);
            lemma_vec_wf_vals(a@);
            lemma_vec_wf_vals(b@);
            assert(seq_wf(ua.take(i_)) && seq_wf(ub.take(i_)));
            lemma_fdot_den(ua.take(i_), ub.take(i_));
            crate::rational::lemma_den_nz(ua[i_], ub[i_]);
            let prev = fdot(ua.take(i_), ub.take(i_));
            assert(fdot(ua.take(i_ + 1), ub.take(i_ + 1)) == frac_add(
                prev,
                frac_mul(ua[i_], ub[i_]),
            ));
            lemma_add_cong(acc@, prev, term@, frac_mul(ua[i_], ub[i_]));
            lemma_frac_eq_trans(
                next@,
                frac_add(acc@, term@),
                frac_add(prev, frac_mul(ua[i_], ub[i_])),
            );
        }
        acc = next;
        i += 1;
    }
    proof {
        assert(vvals(a@).take(a@.len() as int) =~= vvals(a@));
        assert(vvals(b@).take(b@.len() as int) =~= vvals(b@));
    }
    acc
}

/// The squared Euclidean length.
pub fn magnitude_squared(v: &Vec<Scalar>) -> (r: Scalar)
    requires
        vec_wf(v@),
    ensures
        r.wf(),
        r.is_fin(),
        frac_eq(r@, fdot(vvals(v@), vvals(v@))),
        r@.n >= 0,
    {
    let r = mul_dot(v, v);
    proof {
        lemma_vec_wf_vals(v@);
        lemma_fdot_self_nonneg(vvals(v@));
        crate::rational::lemma_eq_sign(r@, fdot(vvals(v@), vvals(v@)));
    }
    r
}

/// The Euclidean length, rounded down to the fixed square-root precision.
pub fn magnitude(v: &Vec<Scalar>) -> (r: Scalar)
    requires
        vec_wf(v@),
    ensures
        r.wf(),
        r.is_fin(),
        r@.n >= 0,
        frac_eq(r@, crate::rational::frac_sqrt(canon(fdot(vvals(v@), vvals(v@))))),
        crate::rational::frac_sqrt(canon(fdot(vvals(v@), vvals(v@)))).d >= 1,
{
    let m = magnitude_squared(v);
    proof {
        lemma_vec_wf_vals(v@);
        lemma_fdot_den(vvals(v@), vvals(v@));
        lemma_canon_eq(fdot(vvals(v@), vvals(v@)), m@);
        assert(crate::rational::frac_sqrt(m@).d >= 1) by (nonlinear_arith)
            requires
                m@.d >= 1,
                crate::rational::frac_sqrt(m@).d == m@.d * (crate::rational::SQRT_SCALE as int),
                crate::rational::SQRT_SCALE >= 1,
        ;
    }
    m.sqrt_approx()
}

/// Every entry divided by the Euclidean length (rounded down to the fixed
/// square-root precision); `None` when that length rounds to zero.
pub fn normalize(v: &Vec<Scalar>) -> (r: Option<Vec<Scalar>>)
    requires
        vec_wf(v@),
    ensures
        (match r {
            Some(u) => {
                &&& vec_wf(u@)
                &&& u@.len() == v@.len()
                &&& crate::rational::frac_sqrt(canon(fdot(vvals(v@), vvals(v@)))).n != 0
                &&& fracs_eq(
                    vvals(u@),
                    Seq::new(
                        v@.len() as nat,
                        |i: int| crate::rational::frac_div(
                            vvals(v@)[i],
                            crate::rational::frac_sqrt(canon(fdot(vvals(v@), vvals(v@)))),
                        ),
                    ),
                )
            },
            None => crate::rational::frac_sqrt(canon(fdot(vvals(v@), vvals(v@)))).n == 0,
        }),
{
    broadcast use lemma_vvals_push;
    let m = magnitude(v);
    proof {
        crate::rational::lemma_eq_sign(
            m@,
            crate::rational::frac_sqrt(canon(fdot(vvals(v@), vvals(v@)))),
        );
    }
    if m.is_zero() {
        return None;
    }
    let mut r: Vec<Scalar> = Vec::new();
    let mut i: usize = 0;
    while i < v.len()
        invariant
            vec_wf(v@),
            m.wf(),
            m.is_fin(),
            m@.n != 0,
            frac_eq(m@, crate::rational::frac_sqrt(canon(fdot(vvals(v@), vvals(v@))))),
            vec_wf(r@),
            i <= v@.len(),
            r@.len() == i,
            forall|j: int| 0 <= j < i as int ==> frac_eq(
                #[trigger] vvals(r@)[j],
                crate::rational::frac_div(vvals(v@)[j], m@),
            ),
        decreases v@.len() - i,
    {
        let s = v[i].div(&m);
        let ghost r0 = r@;
        r.push(s);
        proof {
            assert forall|j: int| 0 <= j < i as int + 1 implies frac_eq(
                #[trigger] vvals(r@)[j],
                crate::rational::frac_div(vvals(v@)[j], m@),
            ) by {
                if j < i as int {
                    assert(vvals(r@)[j] == vvals(r0)[j]);
                } else {
                    assert(vvals(r@)[j] == s@);
                }
            }
        }
        i += 1;
    }
    proof {
        let ghost s = crate::rational::frac_sqrt(canon(fdot(vvals(v@), vvals(v@))));
        assert(s.n != 0) by {
            crate::rational::lemma_eq_sign(m@, s);
        }
        assert forall|j: int| 0 <= j < v@.len() implies frac_eq(
            #[trigger] vvals(r@)[j],
            crate::rational::frac_div(vvals(v@)[j], s),
        ) by {
            lemma_vec_wf_vals(v@);
            lemma_vec_wf_vals(r@);
            crate::rational::lemma_div_cong(vvals(v@)[j], vvals(v@)[j], m@, s);
            lemma_frac_eq_trans(
                vvals(r@)[j],
                crate::rational::frac_div(vvals(v@)[j], m@),
                crate::rational::frac_div(vvals(v@)[j], s),
            );
        }
    }
    Some(r)
}

/// Every entry divided by the scalar `s`.
pub fn div_each(v: &Vec<Scalar>, s: &Scalar) -> (r: Vec<Scalar>)
    requires
        vec_wf(v@),
        s.wf(),
        s.is_fin(),
        s@.n != 0,
    ensures
        vec_wf(r@),
        r@.len() == v@.len(),
        fracs_eq(vvals(r@), Seq::new(v@.len() as nat, |i: int| crate::rational::frac_div(
            vvals(v@)[i],
            s@,
        ))),
{
    broadcast use lemma_vvals_push;

    let mut r: Vec<Scalar> = Vec::new();
    let mut i: usize = 0;
    while i < v.len()
        invariant
            vec_wf(v@),
            s.wf(),
            s.is_fin(),
            s@.n != 0,
            vec_wf(r@),
            i <= v@.len(),
            r@.len() == i,
            forall|j: int| 0 <= j < i as int ==> frac_eq(
                #[trigger] vvals(r@)[j],
                crate::rational::frac_div(vvals(v@)[j], s@),
            ),
        decreases v@.len() - i,
    {
        let x = v[i].div(s);
        let ghost r0 = r@;
        r.push(x);
        proof {
            assert forall|j: int| 0 <= j < i as int + 1 implies frac_eq(
                #[trigger] vvals(r@)[j],
                crate::rational::frac_div(vvals(v@)[j], s@),
            ) by {
                if j < i as int {
                    assert(vvals(r@)[j] == vvals(r0)[j]);
                } else {
                    assert(vvals(r@)[j] == x@);
                }
            }
        }
        i += 1;
    }
    r
}

/// The cross product of two three-dimensional vectors.
pub fn mul_cross(a: &Vec<Scalar>, b: &Vec<Scalar>) -> (r: Vec<Scalar>)
    requires
        vec_wf(a@),
        vec_wf(b@),
        a@.len() == 3,
        b@.len() == 3,
    ensures
        vec_wf(r@),
        r@.len() == 3,
        fracs_eq(vvals(r@), fcross(vvals(a@), vvals(b@))),
{
    broadcast use lemma_vvals_push;
    let p0 = a[1].mul(&b[2]);
    let q0 = a[2].mul(&b[1]);
    let x = p0.sub(&q0);
    let p1 = a[2].mul(&b[0]);
    let q1 = a[0].mul(&b[2]);
    let y = p1.sub(&q1);
    let p2 = a[0].mul(&b[1]);
    let q2 = a[1].mul(&b[0]);
    let z = p2.sub(&q2);
    proof {
        let ghost ua = vvals(a@);
        let ghost ub = vvals(b@);
        lemma_vec_wf_vals(a@);
        lemma_vec_wf_vals(b@);
        crate::rational::lemma_den_nz(ua[1], ub[2]);
        crate::rational::lemma_den_nz(ua[2], ub[1]);
        crate::rational::lemma_den_nz(ua[2], ub[0]);
        crate::rational::lemma_den_nz(ua[0], ub[2]);
        crate::rational::lemma_den_nz(ua[0], ub[1]);
        crate::rational::lemma_den_nz(ua[1], ub[0]);
        lemma_sub_cong(p0@, frac_mul(ua[1], ub[2]), q0@, frac_mul(ua[2], ub[1]));
        lemma_frac_eq_trans(x@, frac_sub(p0@, q0@), fcross(ua, ub)[0]);
        lemma_sub_cong(p1@, frac_mul(ua[2], ub[0]), q1@, frac_mul(ua[0], ub[2]));
        lemma_frac_eq_trans(y@, frac_sub(p1@, q1@), fcross(ua, ub)[1]);
        lemma_sub_cong(p2@, frac_mul(ua[0], ub[1]), q2@, frac_mul(ua[1], ub[0]));
        lemma_frac_eq_trans(z@, frac_sub(p2@, q2@), fcross(ua, ub)[2]);
    }
    let mut r: Vec<Scalar> = Vec::new();
    r.push(x);
    r.push(y);
    r.push(z);
    r
}

} // verus!
