//! The affine transform decorator: any shape plus a pair of mutually inverse
//! linear maps.
//!
//! A query maps the ray's origin and the point it reaches at parameter one
//! through the inverse matrix, reconstructs a local ray from those two points,
//! and delegates to the wrapped shape.  A reported normal is mapped back to
//! world space by transforming the hit point and the hit point plus the local
//! normal through the forward matrix and subtracting: valid for the maps the
//! builders compose (rotations, scales, mirrors), though not for arbitrary
//! shears, where a normal transforms by the inverse transpose instead.
//! Distances are reported in the local ray's parametric units.

use vstd::prelude::*;

use crate::matrix::{canon_mat, diagonal_frac, identity_frac, mat_col, mat_mul, mat_vec, mat_wf,
    mvals};
use crate::matrix;
use crate::ray::{fprop, Ray, RayV};
use crate::rational::{canon, frac_add, frac_div, frac_eq, frac_int, frac_neg, frac_zero, is_canon,
    lemma_canon_eq, lemma_den_nz, Frac};
use crate::raytrace::{Raytrace, RaytraceWithNorm};
use crate::scalar::Scalar;
use crate::shapes::Shape;
use crate::vector::{canon_seq, fadd, fdot, fracs_eq, fsub, lemma_canon_seq_eq, lemma_fdot_den,
    lemma_seq_ops_nz, lemma_vec_wf_vals, lemma_wf_pos, seq_pos, seq_wf, vec_wf, vvals};
use crate::vector;

verus! {

/// A shape re-expressed by a linear map: the wrapped shape, the forward
/// matrix, and its inverse.
pub struct Transform<S> {
    /// The wrapped shape, in local coordinates.
    pub s: S,
    /// The forward map, from local to world coordinates.
    pub t: Vec<Vec<Scalar>>,
    /// The inverse map, from world to local coordinates.
    pub t_inv: Vec<Vec<Scalar>>,
}

/// The local-space ray a query hands to the wrapped shape: origin and the
/// parameter-one point mapped through the inverse matrix, direction their
/// difference.
pub open spec fn local_ray_v(t_inv: Seq<Seq<Frac>>, ray: RayV) -> RayV {
    let from = canon_seq(mat_vec(t_inv, ray.r));
    let to = canon_seq(mat_vec(t_inv, canon_seq(fadd(ray.r, ray.v))));
    RayV { r: from, v: canon_seq(fsub(to, from)) }
}

/// The world-space normal: the local hit point and the hit point plus the
/// local normal, both mapped through the forward matrix, subtracted.
pub open spec fn world_normal_v(tm: Seq<Seq<Frac>>, lray: RayV, t: Frac, n: Seq<Frac>) -> Seq<
    Frac,
> {
    let x0 = canon_seq(fprop(lray, t));
    let n1 = canon_seq(fadd(x0, n));
    let y0 = canon_seq(mat_vec(tm, x0));
    let y1 = canon_seq(mat_vec(tm, n1));
    canon_seq(fsub(y1, y0))
}

/// The two-dimensional rotation matrix with the given cosine and sine.
pub open spec fn rot2_frac(c: Frac, s: Frac) -> Seq<Seq<Frac>> {
    seq![seq![c, frac_neg(s)], seq![s, c]]
}

/// Its inverse: the rotation by the opposite angle.
pub open spec fn rot2_inv_frac(c: Frac, s: Frac) -> Seq<Seq<Frac>> {
    seq![seq![c, s], seq![frac_neg(s), c]]
}

/// The reciprocal of each entry, canonically.
pub open spec fn recip_seq(d: Seq<Frac>) -> Seq<Frac> {
    canon_seq(Seq::new(d.len(), |i: int| frac_div(frac_int(1), d[i])))
}

/// One rotation-matrix entry: `p * q * (1 - c)`, with `w` added or
/// subtracted, written with the canonical form the exact scalars produce.
pub open spec fn rot_ent(p: Frac, q: Frac, c1m: Frac, w: Frac, plus: bool) -> Frac {
    let pqc = canon(crate::rational::frac_mul(canon(crate::rational::frac_mul(p, q)), c1m));
    if plus {
        canon(frac_add(pqc, w))
    } else {
        canon(crate::rational::frac_sub(pqc, w))
    }
}

/// The rotation matrix about the axis `a` by the angle with cosine `c` and
/// sine `s`, after Rodrigues; meaningful when `a` is a unit vector.
pub open spec fn rot3_frac(a: Seq<Frac>, c: Frac, s: Frac) -> Seq<Seq<Frac>> {
    let c1m = canon(crate::rational::frac_sub(frac_int(1), c));
    let xs = canon(crate::rational::frac_mul(a[0], s));
    let ys = canon(crate::rational::frac_mul(a[1], s));
    let zs = canon(crate::rational::frac_mul(a[2], s));
    seq![
        seq![
            rot_ent(a[0], a[0], c1m, c, true),
            rot_ent(a[1], a[0], c1m, zs, false),
            rot_ent(a[2], a[0], c1m, ys, true),
        ],
        seq![
            rot_ent(a[0], a[1], c1m, zs, true),
            rot_ent(a[1], a[1], c1m, c, true),
            rot_ent(a[2], a[1], c1m, xs, false),
        ],
        seq![
            rot_ent(a[0], a[2], c1m, ys, false),
            rot_ent(a[1], a[2], c1m, xs, true),
            rot_ent(a[2], a[2], c1m, c, true),
        ],
    ]
}

/// The mirror (Householder) matrix across the plane with normal `nv`:
/// `I - 2 n n^T / (n . n)`, written with the canonical forms the exact
/// scalars produce.
pub open spec fn mirror_frac(nv: Seq<Frac>) -> Seq<Seq<Frac>> {
    let nn = canon(fdot(nv, nv));
    Seq::new(
        3,
        |i: int|
            Seq::new(
                3,
                |j: int|
                    {
                        let q = canon(
                            frac_div(
                                canon(
                                    crate::rational::frac_mul(
                                        frac_int(2),
                                        canon(crate::rational::frac_mul(nv[i], nv[j])),
                                    ),
                                ),
                                nn,
                            ),
                        );
                        if i == j {
                            canon(crate::rational::frac_sub(frac_int(1), q))
                        } else {
                            frac_neg(q)
                        }
                    },
            ),
    )
}

impl<S: Shape> Transform<S> {
    pub open spec fn dim(self) -> nat {
        self.t@.len()
    }

    /// The identity transform around a shape living in `dim` dimensions.
    pub fn new(s: S, dim: usize) -> (r: Transform<S>)
        requires
            s.wf(),
            s.fits(dim as nat),
        ensures
            r.wf(),
            r.fits(dim as nat),
            r.s == s,
            mvals(r.t@) == identity_frac(dim as nat),
            mvals(r.t_inv@) == identity_frac(dim as nat),
    {
        Transform { s, t: matrix::identity(dim), t_inv: matrix::identity(dim) }
    }

    /// A point mapped from local to world coordinates.
    pub fn transform_pos(&self, x: &Vec<Scalar>) -> (r: Vec<Scalar>)
        requires
            self.wf(),
            vec_wf(x@),
            x@.len() == self.dim(),
        ensures
            vec_wf(r@),
            r@.len() == self.dim(),
            vvals(r@) == canon_seq(mat_vec(mvals(self.t@), vvals(x@))),
    {
        let r = matrix::mul_matrix_collumn(&self.t, x);
        proof {
            lemma_mat_vec_canon(self.t@, x@, r@);
        }
        r
    }

    /// A point mapped from world to local coordinates.
    pub fn inv_transform_pos(&self, x: &Vec<Scalar>) -> (r: Vec<Scalar>)
        requires
            self.wf(),
            vec_wf(x@),
            x@.len() == self.dim(),
        ensures
            vec_wf(r@),
            r@.len() == self.dim(),
            vvals(r@) == canon_seq(mat_vec(mvals(self.t_inv@), vvals(x@))),
    {
        let r = matrix::mul_matrix_collumn(&self.t_inv, x);
        proof {
            lemma_mat_vec_canon(self.t_inv@, x@, r@);
        }
        r
    }

    /// The local-space ray that a query hands to the wrapped shape.
    fn local_ray(&self, ray: &Ray) -> (lr: Ray)
        requires
            self.wf(),
            ray.wf(),
            self.fits(ray.dim()),
        ensures
            lr.wf(),
            lr.dim() == ray.dim(),
            lr@ == local_ray_v(mvals(self.t_inv@), ray@),
    {
        let rt = ray.r_to();
        proof {
            lemma_vec_wf_vals(ray.r@);
            lemma_vec_wf_vals(ray.v@);
            lemma_vec_wf_vals(rt@);
            lemma_seq_ops_nz(ray@.r, ray@.v, frac_zero());
            lemma_canon_seq_eq(vvals(rt@), fadd(ray@.r, ray@.v));
        }
        let from = self.inv_transform_pos(&ray.r);
        let to = self.inv_transform_pos(&rt);
        proof {
            lemma_vec_wf_vals(from@);
            lemma_vec_wf_vals(to@);
        }
        let lr = Ray::new_from_to(from, to);
        proof {
            let lv = local_ray_v(mvals(self.t_inv@), ray@);
            lemma_vec_wf_vals(lr.v@);
            lemma_seq_ops_nz(vvals(to@), vvals(from@), frac_zero());
            lemma_canon_seq_eq(vvals(lr.v@), fsub(vvals(to@), vvals(from@)));
            assert(lr@.r == lv.r);
            assert(lr@.v == lv.v);
        }
        lr
    }

    /// Composes a further map (and its inverse) onto the transform: the new
    /// matrices are pre-multiplied onto the running ones.
    pub fn transform(self, t: Vec<Vec<Scalar>>, t_inv: Vec<Vec<Scalar>>) -> (r: Transform<S>)
        requires
            self.wf(),
            mat_wf(t@, self.dim()),
            mat_wf(t_inv@, self.dim()),
        ensures
            r.wf(),
            r.s == self.s,
            r.dim() == self.dim(),
            mvals(r.t@) == canon_mat(mat_mul(mvals(t@), mvals(self.t@))),
            mvals(r.t_inv@) == canon_mat(mat_mul(mvals(t_inv@), mvals(self.t_inv@))),
    {
        let n = self.t.len();
        let new_t = matrix::mul_matrix_matrix(&t, &self.t, n);
        let new_ti = matrix::mul_matrix_matrix(&t_inv, &self.t_inv, n);
        proof {
            lemma_mat_mul_canon(t@, self.t@, new_t@, n as nat);
            lemma_mat_mul_canon(t_inv@, self.t_inv@, new_ti@, n as nat);
        }
        Transform { s: self.s, t: new_t, t_inv: new_ti }
    }

    /// Scales each axis by the given factor; the inverse scales by the
    /// reciprocals.
    pub fn scale(self, factors: Vec<Scalar>) -> (r: Transform<S>)
        requires
            self.wf(),
            vec_wf(factors@),
            factors@.len() == self.dim(),
            forall|i: int| 0 <= i < factors@.len() ==> (#[trigger] vvals(factors@)[i]).n != 0,
        ensures
            r.wf(),
            r.s == self.s,
            r.dim() == self.dim(),
            mvals(r.t@) == canon_mat(
                mat_mul(diagonal_frac(vvals(factors@)), mvals(self.t@)),
            ),
            mvals(r.t_inv@) == canon_mat(
                mat_mul(diagonal_frac(recip_seq(vvals(factors@))), mvals(self.t_inv@)),
            ),
    {
        let one = Scalar::one();
        let mut recips: Vec<Scalar> = Vec::new();
        let mut i: usize = 0;
        while i < factors.len()
            invariant
                vec_wf(factors@),
                forall|p: int| 0 <= p < factors@.len() ==> (#[trigger] vvals(factors@)[p]).n != 0,
                one.wf(),
                one.is_fin(),
                one@ == frac_int(1),
                i <= factors@.len(),
                vec_wf(recips@),
                recips@.len() == i,
                forall|p: int| 0 <= p < i as int ==> #[trigger] vvals(recips@)[p] == recip_seq(
                    vvals(factors@),
                )[p],
            decreases factors@.len() - i,
        {
            proof {
                assert(vvals(factors@)[i as int] == factors@[i as int]@);
            }
            let e = one.div(&factors[i]);
            proof {
                lemma_den_nz(frac_int(1), vvals(factors@)[i as int]);
                lemma_canon_eq(frac_div(frac_int(1), vvals(factors@)[i as int]), e@);
            }
            let ghost r0 = recips@;
            recips.push(e);
            proof {
                assert forall|p: int| 0 <= p < i as int + 1 implies #[trigger] vvals(recips@)[p]
                    == recip_seq(vvals(factors@))[p] by {
                    if p < i as int {
                        assert(vvals(recips@)[p] == vvals(r0)[p]);
                    } else {
                        assert(vvals(recips@)[p] == e@);
                    }
                }
            }
            i += 1;
        }
        let fwd = matrix::diagonal(&factors);
        let inv = matrix::diagonal(&recips);
        proof {
            assert(vvals(recips@) =~= recip_seq(vvals(factors@)));
        }
        self.transform(fwd, inv)
    }

    /// Rotates a two-dimensional shape by the angle whose cosine and sine are
    /// given; the inverse rotates by the opposite angle.
    pub fn rotate(self, c: Scalar, s: Scalar) -> (r: Transform<S>)
        requires
            self.wf(),
            self.dim() == 2,
            c.wf(),
            c.is_fin(),
            s.wf(),
            s.is_fin(),
        ensures
            r.wf(),
            r.s == self.s,
            r.dim() == 2,
            mvals(r.t@) == canon_mat(mat_mul(rot2_frac(c@, s@), mvals(self.t@))),
            mvals(r.t_inv@) == canon_mat(mat_mul(rot2_inv_frac(c@, s@), mvals(self.t_inv@))),
    {
        let mut row0: Vec<Scalar> = Vec::new();
        row0.push(c.dup());
        row0.push(s.neg());
        let mut row1: Vec<Scalar> = Vec::new();
        row1.push(s.dup());
        row1.push(c.dup());
        let mut fwd: Vec<Vec<Scalar>> = Vec::new();
        fwd.push(row0);
        fwd.push(row1);
        let mut irow0: Vec<Scalar> = Vec::new();
        irow0.push(c.dup());
        irow0.push(s.dup());
        let mut irow1: Vec<Scalar> = Vec::new();
        irow1.push(s.neg());
        irow1.push(c.dup());
        let mut inv: Vec<Vec<Scalar>> = Vec::new();
        inv.push(irow0);
        inv.push(irow1);
        proof {
            assert(mvals(fwd@) =~= rot2_frac(c@, s@)) by {
                assert(vvals(fwd@[0]@) =~= rot2_frac(c@, s@)[0]);
                assert(vvals(fwd@[1]@) =~= rot2_frac(c@, s@)[1]);
            }
            assert(mvals(inv@) =~= rot2_inv_frac(c@, s@)) by {
                assert(vvals(inv@[0]@) =~= rot2_inv_frac(c@, s@)[0]);
                assert(vvals(inv@[1]@) =~= rot2_inv_frac(c@, s@)[1]);
            }
        }
        self.transform(fwd, inv)
    }

    /// Rotates a three-dimensional shape about the given unit axis by the
    /// angle whose cosine and sine are given; the inverse rotates by the
    /// opposite angle about the same axis.
    pub fn rotate_axis(self, axis: Vec<Scalar>, c: Scalar, s: Scalar) -> (r: Transform<S>)
        requires
            self.wf(),
            self.dim() == 3,
            vec_wf(axis@),
            axis@.len() == 3,
            c.wf(),
            c.is_fin(),
            s.wf(),
            s.is_fin(),
        ensures
            r.wf(),
            r.s == self.s,
            r.dim() == 3,
            mvals(r.t@) == canon_mat(
                mat_mul(rot3_frac(vvals(axis@), c@, s@), mvals(self.t@)),
            ),
            mvals(r.t_inv@) == canon_mat(
                mat_mul(rot3_frac(vvals(axis@), c@, frac_neg(s@)), mvals(self.t_inv@)),
            ),
    {
        let fwd = build_rotation(&axis, &c, &s);
        let sn = s.neg();
        let inv = build_rotation(&axis, &c, &sn);
        self.transform(fwd, inv)
    }

    /// Mirrors a three-dimensional shape across the plane through the origin
    /// with the given normal; the mirror matrix is its own inverse.
    pub fn mirror(self, n: Vec<Scalar>) -> (r: Transform<S>)
        requires
            self.wf(),
            self.dim() == 3,
            vec_wf(n@),
            n@.len() == 3,
            fdot(vvals(n@), vvals(n@)).n != 0,
        ensures
            r.wf(),
            r.s == self.s,
            r.dim() == 3,
            mvals(r.t@) == canon_mat(mat_mul(mirror_frac(vvals(n@)), mvals(self.t@))),
            mvals(r.t_inv@) == canon_mat(mat_mul(mirror_frac(vvals(n@)), mvals(self.t_inv@))),
    {
        let m1 = build_mirror(&n);
        let m2 = build_mirror(&n);
        self.transform(m1, m2)
    }
}

/// One rotation-matrix entry, exactly as `rot_ent` states it.
fn rot_entry(p: &Scalar, q: &Scalar, c1m: &Scalar, w: &Scalar, plus: bool) -> (r: Scalar)
    requires
        p.wf(),
        p.is_fin(),
        q.wf(),
        q.is_fin(),
        c1m.wf(),
        c1m.is_fin(),
        w.wf(),
        w.is_fin(),
    ensures
        r.wf(),
        r.is_fin(),
        r@ == rot_ent(p@, q@, c1m@, w@, plus),
{
    let pq = p.mul(q);
    proof {
        lemma_den_nz(p@, q@);
        lemma_canon_eq(crate::rational::frac_mul(p@, q@), pq@);
    }
    let pqc = pq.mul(c1m);
    proof {
        lemma_den_nz(pq@, c1m@);
        lemma_canon_eq(crate::rational::frac_mul(pq@, c1m@), pqc@);
    }
    if plus {
        let e = pqc.add(w);
        proof {
            lemma_den_nz(pqc@, w@);
            lemma_canon_eq(frac_add(pqc@, w@), e@);
        }
        e
    } else {
        let e = pqc.sub(w);
        proof {
            lemma_den_nz(pqc@, w@);
            lemma_canon_eq(crate::rational::frac_sub(pqc@, w@), e@);
        }
        e
    }
}

/// The Rodrigues rotation matrix for the given axis, cosine and sine.
fn build_rotation(axis: &Vec<Scalar>, c: &Scalar, s: &Scalar) -> (m: Vec<Vec<Scalar>>)
    requires
        vec_wf(axis@),
        axis@.len() == 3,
        c.wf(),
        c.is_fin(),
        s.wf(),
        s.is_fin(),
    ensures
        mat_wf(m@, 3),
        mvals(m@) == rot3_frac(vvals(axis@), c@, s@),
{
    let ghost av = vvals(axis@);
    proof {
        lemma_vec_wf_vals(axis@);
        assert(av[0] == axis@[0]@ && av[1] == axis@[1]@ && av[2] == axis@[2]@);
    }
    let one = Scalar::one();
    let c1m = one.sub(c);
    proof {
        lemma_den_nz(frac_int(1), c@);
        lemma_canon_eq(crate::rational::frac_sub(frac_int(1), c@), c1m@);
    }
    let xs = axis[0].mul(s);
    let ys = axis[1].mul(s);
    let zs = axis[2].mul(s);
    proof {
        lemma_den_nz(av[0], s@);
        lemma_den_nz(av[1], s@);
        lemma_den_nz(av[2], s@);
        lemma_canon_eq(crate::rational::frac_mul(av[0], s@), xs@);
        lemma_canon_eq(crate::rational::frac_mul(av[1], s@), ys@);
        lemma_canon_eq(crate::rational::frac_mul(av[2], s@), zs@);
    }
    let mut r0: Vec<Scalar> = Vec::new();
    r0.push(rot_entry(&axis[0], &axis[0], &c1m, c, true));
    r0.push(rot_entry(&axis[1], &axis[0], &c1m, &zs, false));
    r0.push(rot_entry(&axis[2], &axis[0], &c1m, &ys, true));
    let mut r1: Vec<Scalar> = Vec::new();
    r1.push(rot_entry(&axis[0], &axis[1], &c1m, &zs, true));
    r1.push(rot_entry(&axis[1], &axis[1], &c1m, c, true));
    r1.push(rot_entry(&axis[2], &axis[1], &c1m, &xs, false));
    let mut r2: Vec<Scalar> = Vec::new();
    r2.push(rot_entry(&axis[0], &axis[2], &c1m, &ys, false));
    r2.push(rot_entry(&axis[1], &axis[2], &c1m, &xs, true));
    r2.push(rot_entry(&axis[2], &axis[2], &c1m, c, true));
    proof {
        assert(vvals(r0@) =~= rot3_frac(av, c@, s@)[0]);
        assert(vvals(r1@) =~= rot3_frac(av, c@, s@)[1]);
        assert(vvals(r2@) =~= rot3_frac(av, c@, s@)[2]);
    }
    let mut m: Vec<Vec<Scalar>> = Vec::new();
    m.push(r0);
    m.push(r1);
    m.push(r2);
    proof {
        assert(mvals(m@) =~= rot3_frac(av, c@, s@));
    }
    m
}

/// The Householder mirror matrix for the given plane normal.
fn build_mirror(n: &Vec<Scalar>) -> (m: Vec<Vec<Scalar>>)
    requires
        vec_wf(n@),
        n@.len() == 3,
        fdot(vvals(n@), vvals(n@)).n != 0,
    ensures
        mat_wf(m@, 3),
        mvals(m@) == mirror_frac(vvals(n@)),
{
    let ghost nv = vvals(n@);
    proof {
        lemma_vec_wf_vals(n@);
        lemma_fdot_den(nv, nv);
    }
    let nn = vector::mul_dot(n, n);
    proof {
        lemma_canon_eq(fdot(nv, nv), nn@);
        crate::rational::lemma_eq_sign(nn@, fdot(nv, nv));
    }
    let two = Scalar::from_int(2);
    let one = Scalar::one();
    let mut m: Vec<Vec<Scalar>> = Vec::new();
    let mut i: usize = 0;
    while i < 3
        invariant
            vec_wf(n@),
            n@.len() == 3,
            nv == vvals(n@),
            fdot(nv, nv).n != 0,
            nn.wf(),
            nn.is_fin(),
            nn@ == canon(fdot(nv, nv)),
            nn@.n != 0,
            two.wf(),
            two.is_fin(),
            two@ == frac_int(2),
            one.wf(),
            one.is_fin(),
            one@ == frac_int(1),
            i <= 3,
            m@.len() == i,
            forall|p: int| 0 <= p < i as int ==> vec_wf((#[trigger] m@[p])@) && m@[p]@.len() == 3
                && vvals(m@[p]@) == mirror_frac(nv)[p],
        decreases 3 - i,
    {
        let mut row: Vec<Scalar> = Vec::new();
        let mut j: usize = 0;
        while j < 3
            invariant
                vec_wf(n@),
                n@.len() == 3,
                nv == vvals(n@),
                fdot(nv, nv).n != 0,
                nn.wf(),
                nn.is_fin(),
                nn@ == canon(fdot(nv, nv)),
                nn@.n != 0,
                two.wf(),
                two.is_fin(),
                two@ == frac_int(2),
                one.wf(),
                one.is_fin(),
                one@ == frac_int(1),
                i < 3,
                j <= 3,
                vec_wf(row@),
                row@.len() == j,
                forall|q: int| 0 <= q < j as int ==> vvals(row@)[q] == mirror_frac(
                    nv,
                )[i as int][q],
            decreases 3 - j,
        {
            proof {
                assert(nv[i as int] == n@[i as int]@ && nv[j as int] == n@[j as int]@);
            }
            let p = n[i].mul(&n[j]);
            proof {
                lemma_den_nz(nv[i as int], nv[j as int]);
                lemma_canon_eq(crate::rational::frac_mul(nv[i as int], nv[j as int]), p@);
            }
            let tp = two.mul(&p);
            proof {
                lemma_den_nz(frac_int(2), p@);
                lemma_canon_eq(crate::rational::frac_mul(frac_int(2), p@), tp@);
            }
            let qq = tp.div(&nn);
            proof {
                lemma_den_nz(tp@, nn@);
                lemma_canon_eq(frac_div(tp@, nn@), qq@);
            }
            let e = if j == i {
                let e0 = one.sub(&qq);
                proof {
                    lemma_den_nz(frac_int(1), qq@);
                    lemma_canon_eq(crate::rational::frac_sub(frac_int(1), qq@), e0@);
                }
                e0
            } else {
                qq.neg()
            };
            let ghost row0 = row@;
            row.push(e);
            proof {
                assert forall|q: int| 0 <= q < j as int + 1 implies vvals(row@)[q] == mirror_frac(
                    nv,
                )[i as int][q] by {
                    if q < j as int {
                        assert(vvals(row@)[q] == vvals(row0)[q]);
                    } else {
                        assert(vvals(row@)[q] == e@);
                    }
                }
            }
            j += 1;
        }
        proof {
            assert(vvals(row@) =~= mirror_frac(nv)[i as int]);
        }
        let ghost m0 = m@;
        m.push(row);
        proof {
            assert forall|p: int| 0 <= p < i as int + 1 implies vec_wf((#[trigger] m@[p])@)
                && m@[p]@.len() == 3 && vvals(m@[p]@) == mirror_frac(nv)[p] by {
                if p < i as int {
                    assert(m@[p] == m0[p]);
                }
            }
        }
        i += 1;
    }
    proof {
        assert(mvals(m@) =~= mirror_frac(nv));
    }
    m
}

/// A matrix-vector product of well-formed inputs equals the canonical form
/// of the model product.
proof fn lemma_mat_vec_canon(m: Seq<Vec<Scalar>>, x: Seq<Scalar>, r: Seq<Scalar>)
    requires
        mat_wf(m, x.len()),
        vec_wf(x),
        vec_wf(r),
        r.len() == m.len(),
        fracs_eq(vvals(r), mat_vec(mvals(m), vvals(x))),
    ensures
        vvals(r) == canon_seq(mat_vec(mvals(m), vvals(x))),
{
    lemma_vec_wf_vals(r);
    lemma_vec_wf_vals(x);
    assert forall|i: int| 0 <= i < m.len() implies (#[trigger] mat_vec(mvals(m), vvals(x))[i]).d
        != 0 by {
        lemma_vec_wf_vals(m[i]@);
        assert(mvals(m)[i] == vvals(m[i]@));
        lemma_fdot_den(mvals(m)[i], vvals(x));
    }
    lemma_canon_seq_eq(vvals(r), mat_vec(mvals(m), vvals(x)));
}

/// A matrix-matrix product of well-formed inputs equals the canonical form
/// of the model product.
proof fn lemma_mat_mul_canon(a: Seq<Vec<Scalar>>, b: Seq<Vec<Scalar>>, r: Seq<Vec<Scalar>>, n: nat)
    requires
        mat_wf(a, n),
        mat_wf(b, n),
        mat_wf(r, n),
        forall|i: int, j: int| 0 <= i < n as int && 0 <= j < n as int ==> frac_eq(
            #[trigger] mvals(r)[i][j],
            mat_mul(mvals(a), mvals(b))[i][j],
        ),
    ensures
        mvals(r) == canon_mat(mat_mul(mvals(a), mvals(b))),
{
    let mm = mat_mul(mvals(a), mvals(b));
    assert forall|i: int| 0 <= i < n as int implies mvals(r)[i] == canon_mat(mm)[i] by {
        lemma_vec_wf_vals(r[i]@);
        lemma_vec_wf_vals(a[i]@);
        assert(mvals(r)[i] == vvals(r[i]@));
        assert forall|j: int| 0 <= j < n as int implies (#[trigger] mm[i][j]).d != 0 by {
            assert(seq_pos(crate::matrix::mat_col(mvals(b), j))) by {
                assert forall|k: int|
                    0 <= k < n as int implies (#[trigger] crate::matrix::mat_col(mvals(b), j)[k]).d
                    >= 1 by {
                    lemma_vec_wf_vals(b[k]@);
                    assert(mvals(b)[k] == vvals(b[k]@));
                    assert(is_canon(vvals(b[k]@)[j]));
                }
            }
            lemma_wf_pos(vvals(a[i]@));
            lemma_fdot_den(mvals(a)[i], crate::matrix::mat_col(mvals(b), j));
        }
        assert(fracs_eq(vvals(r[i]@), mm[i])) by {
            assert forall|j: int| 0 <= j < n as int implies frac_eq(
                #[trigger] vvals(r[i]@)[j],
                mm[i][j],
            ) by {
                assert(mvals(r)[i][j] == vvals(r[i]@)[j]);
            }
        }
        lemma_canon_seq_eq(vvals(r[i]@), mm[i]);
    }
    assert(mvals(r) =~= canon_mat(mm));
}

/// A two-term linear combination of the two entries of a column.
pub open spec fn lin2(x: Frac, y: Frac, a: Frac, b: Frac) -> Frac {
    frac_add(crate::rational::frac_mul(x, a), crate::rational::frac_mul(y, b))
}

/// The dot product of two-entry vectors, written out.
proof fn lemma_fdot2(u: Seq<Frac>, v: Seq<Frac>)
    requires
        u.len() == 2,
        v.len() == 2,
    ensures
        fdot(u, v) == frac_add(
            crate::rational::frac_mul(u[0], v[0]),
            crate::rational::frac_mul(u[1], v[1]),
        ),
{
    assert(u.drop_last().len() == 1 && v.drop_last().len() == 1);
    assert(u.drop_last().drop_last().len() == 0 && v.drop_last().drop_last().len() == 0);
    assert(u.drop_last().last() == u[0] && v.drop_last().last() == v[0]);
    assert(u.last() == u[1] && v.last() == v[1]);
    assert(fdot(u.drop_last().drop_last(), v.drop_last().drop_last()) == frac_zero());
    assert(fdot(u.drop_last(), v.drop_last()) == frac_add(
        frac_zero(),
        crate::rational::frac_mul(u[0], v[0]),
    ));
    crate::rational::lemma_zero_add(crate::rational::frac_mul(u[0], v[0]));
    assert(fdot(u, v) == frac_add(
        fdot(u.drop_last(), v.drop_last()),
        crate::rational::frac_mul(u[1], v[1]),
    ));
}

/// One column of the rotation-composition argument: applying `(c1, s1)` and
/// then `(c2, s2)` to a column acts as the single rotation by the angle sum.
proof fn lemma_rot2_col(c1: Frac, s1: Frac, c2: Frac, s2: Frac, c3: Frac, s3: Frac, a: Frac, b: Frac)
    requires
        c1.d != 0,
        s1.d != 0,
        c2.d != 0,
        s2.d != 0,
        c3.d != 0,
        s3.d != 0,
        a.d != 0,
        b.d != 0,
        frac_eq(c3, crate::rational::frac_sub(
            crate::rational::frac_mul(c1, c2),
            crate::rational::frac_mul(s1, s2),
        )),
        frac_eq(s3, frac_add(
            crate::rational::frac_mul(s1, c2),
            crate::rational::frac_mul(c1, s2),
        )),
    ensures
        frac_eq(
            frac_add(
                crate::rational::frac_mul(c2, canon(lin2(c1, frac_neg(s1), a, b))),
                crate::rational::frac_mul(frac_neg(s2), canon(lin2(s1, c1, a, b))),
            ),
            lin2(c3, frac_neg(s3), a, b),
        ),
        frac_eq(
            frac_add(
                crate::rational::frac_mul(s2, canon(lin2(c1, frac_neg(s1), a, b))),
                crate::rational::frac_mul(c2, canon(lin2(s1, c1, a, b))),
            ),
            lin2(s3, c3, a, b),
        ),
{
    let a0 = lin2(c1, frac_neg(s1), a, b);
    let a1 = lin2(s1, c1, a, b);
    lemma_den_nz(s1, c2);
    lemma_den_nz(c1, s2);
    lemma_den_nz(c1, c2);
    lemma_den_nz(s1, s2);
    lemma_den_nz(s2, c1);
    lemma_den_nz(c2, s1);
    lemma_den_nz(
        crate::rational::frac_mul(c1, c2),
        crate::rational::frac_mul(s1, s2),
    );
    lemma_den_nz(
        crate::rational::frac_mul(s1, c2),
        crate::rational::frac_mul(c1, s2),
    );
    lemma_den_nz(c1, a);
    lemma_den_nz(s1, b);
    lemma_den_nz(s1, a);
    lemma_den_nz(c1, b);
    lemma_den_nz(crate::rational::frac_mul(c1, a), crate::rational::frac_mul(frac_neg(s1), b));
    lemma_den_nz(crate::rational::frac_mul(s1, a), crate::rational::frac_mul(c1, b));
    crate::rational::lemma_canon_exists(a0);
    crate::rational::lemma_canon_exists(a1);
    // Replace the canonical inner entries by their raw forms.
    crate::rational::lemma_mul_cong(c2, c2, canon(a0), a0);
    crate::rational::lemma_mul_cong(frac_neg(s2), frac_neg(s2), canon(a1), a1);
    crate::rational::lemma_mul_cong(s2, s2, canon(a0), a0);
    lemma_den_nz(c2, canon(a0));
    lemma_den_nz(frac_neg(s2), canon(a1));
    lemma_den_nz(s2, canon(a0));
    lemma_den_nz(c2, canon(a1));
    lemma_den_nz(c2, a0);
    lemma_den_nz(frac_neg(s2), a1);
    lemma_den_nz(s2, a0);
    lemma_den_nz(c2, a1);
    crate::rational::lemma_mul_cong(c2, c2, canon(a1), a1);
    crate::rational::lemma_add_cong(
        crate::rational::frac_mul(c2, canon(a0)),
        crate::rational::frac_mul(c2, a0),
        crate::rational::frac_mul(frac_neg(s2), canon(a1)),
        crate::rational::frac_mul(frac_neg(s2), a1),
    );
    crate::rational::lemma_add_cong(
        crate::rational::frac_mul(s2, canon(a0)),
        crate::rational::frac_mul(s2, a0),
        crate::rational::frac_mul(c2, canon(a1)),
        crate::rational::frac_mul(c2, a1),
    );
    // The combined coefficients.
    crate::rational::lemma_mul_comm(c2, c1);
    crate::rational::lemma_mul_neg_left(s2, s1);
    crate::rational::lemma_mul_comm(s2, s1);
    crate::rational::lemma_mul_comm(c1, c2);
    crate::rational::lemma_mul_comm(s1, s2);
    assert(frac_add(
        crate::rational::frac_mul(c2, c1),
        crate::rational::frac_mul(frac_neg(s2), s1),
    ) == crate::rational::frac_sub(
        crate::rational::frac_mul(c1, c2),
        crate::rational::frac_mul(s1, s2),
    )) by {
        crate::rational::lemma_add_neg(
            crate::rational::frac_mul(c1, c2),
            crate::rational::frac_mul(s1, s2),
        );
        assert(crate::rational::frac_mul(frac_neg(s2), s1) == frac_neg(
            crate::rational::frac_mul(s1, s2),
        ));
    }
    let w1a = crate::rational::frac_sub(
        crate::rational::frac_mul(c1, c2),
        crate::rational::frac_mul(s1, s2),
    );
    // Row 0: coefficients are c3 and -s3.
    assert(frac_eq(c3, frac_add(
        crate::rational::frac_mul(c2, c1),
        crate::rational::frac_mul(frac_neg(s2), s1),
    )));
    assert(frac_add(
        crate::rational::frac_mul(c2, frac_neg(s1)),
        crate::rational::frac_mul(frac_neg(s2), c1),
    ) == frac_neg(
        frac_add(crate::rational::frac_mul(s1, c2), crate::rational::frac_mul(c1, s2)),
    )) by {
        crate::rational::lemma_mul_comm(c2, frac_neg(s1));
        crate::rational::lemma_mul_neg_left(s1, c2);
        crate::rational::lemma_mul_neg_left(s2, c1);
        crate::rational::lemma_mul_comm(s2, c1);
        crate::rational::lemma_mul_comm(c1, s2);
        crate::rational::lemma_add_neg_both(
            crate::rational::frac_mul(s1, c2),
            crate::rational::frac_mul(c1, s2),
        );
    }
    crate::rational::lemma_neg_cong(s3, frac_add(
        crate::rational::frac_mul(s1, c2),
        crate::rational::frac_mul(c1, s2),
    ));
    assert(frac_eq(frac_neg(s3), frac_add(
        crate::rational::frac_mul(c2, frac_neg(s1)),
        crate::rational::frac_mul(frac_neg(s2), c1),
    )));
    crate::rational::lemma_lin_combine(c2, frac_neg(s2), c1, frac_neg(s1), s1, c1, a, b, c3, frac_neg(s3));
    lemma_den_nz(c2, a0);
    lemma_den_nz(frac_neg(s2), a1);
    lemma_den_nz(crate::rational::frac_mul(c2, a0), crate::rational::frac_mul(frac_neg(s2), a1));
    crate::rational::lemma_frac_eq_trans(
        frac_add(
            crate::rational::frac_mul(c2, canon(a0)),
            crate::rational::frac_mul(frac_neg(s2), canon(a1)),
        ),
        frac_add(crate::rational::frac_mul(c2, a0), crate::rational::frac_mul(frac_neg(s2), a1)),
        lin2(c3, frac_neg(s3), a, b),
    );
    // Row 1: coefficients are s3 and c3.
    crate::rational::lemma_mul_comm(s2, c1);
    crate::rational::lemma_mul_comm(c2, s1);
    crate::rational::lemma_add_comm(
        crate::rational::frac_mul(s1, c2),
        crate::rational::frac_mul(c1, s2),
    );
    lemma_den_nz(crate::rational::frac_mul(s1, c2), crate::rational::frac_mul(c1, s2));
    crate::rational::lemma_frac_eq_trans(
        s3,
        frac_add(crate::rational::frac_mul(s1, c2), crate::rational::frac_mul(c1, s2)),
        frac_add(crate::rational::frac_mul(s2, c1), crate::rational::frac_mul(c2, s1)),
    );
    assert(frac_add(
        crate::rational::frac_mul(s2, frac_neg(s1)),
        crate::rational::frac_mul(c2, c1),
    ) == frac_add(
        frac_neg(crate::rational::frac_mul(s1, s2)),
        crate::rational::frac_mul(c1, c2),
    )) by {
        crate::rational::lemma_mul_comm(s2, frac_neg(s1));
        crate::rational::lemma_mul_neg_left(s1, s2);
    }
    crate::rational::lemma_add_comm(
        frac_neg(crate::rational::frac_mul(s1, s2)),
        crate::rational::frac_mul(c1, c2),
    );
    crate::rational::lemma_add_neg(
        crate::rational::frac_mul(c1, c2),
        crate::rational::frac_mul(s1, s2),
    );
    lemma_den_nz(frac_neg(crate::rational::frac_mul(s1, s2)), crate::rational::frac_mul(c1, c2));
    crate::rational::lemma_frac_eq_trans(
        c3,
        w1a,
        frac_add(frac_neg(crate::rational::frac_mul(s1, s2)), crate::rational::frac_mul(c1, c2)),
    );
    crate::rational::lemma_frac_eq_sym(c3, frac_add(
        frac_neg(crate::rational::frac_mul(s1, s2)),
        crate::rational::frac_mul(c1, c2),
    ));
    crate::rational::lemma_frac_eq_sym(
        frac_add(frac_neg(crate::rational::frac_mul(s1, s2)), crate::rational::frac_mul(c1, c2)),
        c3,
    );
    assert(frac_eq(c3, frac_add(
        crate::rational::frac_mul(s2, frac_neg(s1)),
        crate::rational::frac_mul(c2, c1),
    )));
    crate::rational::lemma_lin_combine(s2, c2, c1, frac_neg(s1), s1, c1, a, b, s3, c3);
    lemma_den_nz(s2, a0);
    lemma_den_nz(c2, a1);
    lemma_den_nz(crate::rational::frac_mul(s2, a0), crate::rational::frac_mul(c2, a1));
    crate::rational::lemma_frac_eq_trans(
        frac_add(
            crate::rational::frac_mul(s2, canon(a0)),
            crate::rational::frac_mul(c2, canon(a1)),
        ),
        frac_add(crate::rational::frac_mul(s2, a0), crate::rational::frac_mul(c2, a1)),
        lin2(s3, c3, a, b),
    );
}

/// The inverse rotation matrix is the rotation by the opposite angle, so the
/// composition law below covers a transform's inverse matrix as well.
pub proof fn lemma_rot2_inv_is_rot2(c: Frac, s: Frac)
    ensures
        rot2_inv_frac(c, s) == rot2_frac(c, frac_neg(s)),
{
    assert(frac_neg(frac_neg(s)) == s);
    assert(rot2_inv_frac(c, s)[0] =~= rot2_frac(c, frac_neg(s))[0]);
    assert(rot2_inv_frac(c, s)[1] =~= rot2_frac(c, frac_neg(s))[1]);
    assert(rot2_inv_frac(c, s) =~= rot2_frac(c, frac_neg(s)));
}

/// Rotation composition: rotating a two-dimensional matrix by the angle with
/// cosine and sine `(c1, s1)` and then by `(c2, s2)` composes exactly the
/// matrix of the single rotation by the angle sum, whose cosine is
/// `c1 c2 - s1 s2` and sine `s1 c2 + c1 s2`.  Applied to a transform's
/// forward matrix and (with the sines negated) to its inverse matrix, it says
/// that two `rotate` calls build the same transform as one `rotate` by the
/// angle sum.
pub proof fn lemma_rotate_compose(
    c1: Frac,
    s1: Frac,
    c2: Frac,
    s2: Frac,
    c3: Frac,
    s3: Frac,
    tm: Seq<Seq<Frac>>,
)
    requires
        c1.d != 0,
        s1.d != 0,
        c2.d != 0,
        s2.d != 0,
        c3.d != 0,
        s3.d != 0,
        frac_eq(c3, crate::rational::frac_sub(
            crate::rational::frac_mul(c1, c2),
            crate::rational::frac_mul(s1, s2),
        )),
        frac_eq(s3, frac_add(
            crate::rational::frac_mul(s1, c2),
            crate::rational::frac_mul(c1, s2),
        )),
        tm.len() == 2,
        seq_wf(tm[0]),
        seq_wf(tm[1]),
        tm[0].len() == 2,
        tm[1].len() == 2,
    ensures
        canon_mat(mat_mul(rot2_frac(c2, s2), canon_mat(mat_mul(rot2_frac(c1, s1), tm))))
            == canon_mat(mat_mul(rot2_frac(c3, s3), tm)),
{
    let r1 = rot2_frac(c1, s1);
    let r2 = rot2_frac(c2, s2);
    let r3 = rot2_frac(c3, s3);
    let bm = canon_mat(mat_mul(r1, tm));
    let lm = canon_mat(mat_mul(r2, bm));
    let rm = canon_mat(mat_mul(r3, tm));
    assert forall|i: int, j: int| 0 <= i < 2 && 0 <= j < 2 implies lm[i][j] == rm[i][j] by {
        let a = tm[0][j];
        let b = tm[1][j];
        assert(is_canon(a) && is_canon(b));
        let colt = mat_col(tm, j);
        assert(colt.len() == 2 && colt[0] == a && colt[1] == b);
        lemma_fdot2(r1[0], colt);
        lemma_fdot2(r1[1], colt);
        let a0 = lin2(c1, frac_neg(s1), a, b);
        let a1 = lin2(s1, c1, a, b);
        assert(fdot(r1[0], colt) == a0);
        assert(fdot(r1[1], colt) == a1);
        let colb = mat_col(bm, j);
        assert(colb.len() == 2);
        assert(colb[0] == canon(a0) && colb[1] == canon(a1));
        lemma_fdot2(r2[i], colb);
        lemma_fdot2(r3[i], colt);
        lemma_rot2_col(c1, s1, c2, s2, c3, s3, a, b);
        lemma_den_nz(c1, a);
        lemma_den_nz(frac_neg(s1), b);
        lemma_den_nz(s1, a);
        lemma_den_nz(c1, b);
        lemma_den_nz(
            crate::rational::frac_mul(c1, a),
            crate::rational::frac_mul(frac_neg(s1), b),
        );
        lemma_den_nz(crate::rational::frac_mul(s1, a), crate::rational::frac_mul(c1, b));
        crate::rational::lemma_canon_exists(a0);
        crate::rational::lemma_canon_exists(a1);
        lemma_den_nz(c2, canon(a0));
        lemma_den_nz(frac_neg(s2), canon(a1));
        lemma_den_nz(s2, canon(a0));
        lemma_den_nz(c2, canon(a1));
        lemma_den_nz(c3, a);
        lemma_den_nz(frac_neg(s3), b);
        lemma_den_nz(s3, a);
        lemma_den_nz(c3, b);
        lemma_den_nz(
            crate::rational::frac_mul(c3, a),
            crate::rational::frac_mul(frac_neg(s3), b),
        );
        lemma_den_nz(crate::rational::frac_mul(s3, a), crate::rational::frac_mul(c3, b));
        if i == 0 {
            lemma_den_nz(
                crate::rational::frac_mul(c2, canon(a0)),
                crate::rational::frac_mul(frac_neg(s2), canon(a1)),
            );
            crate::rational::lemma_canon_cong(
                fdot(r2[0], colb),
                lin2(c3, frac_neg(s3), a, b),
            );
        } else {
            lemma_den_nz(
                crate::rational::frac_mul(s2, canon(a0)),
                crate::rational::frac_mul(c2, canon(a1)),
            );
            crate::rational::lemma_canon_cong(fdot(r2[1], colb), lin2(s3, c3, a, b));
        }
    }
    assert forall|i: int| 0 <= i < 2 implies lm[i] == rm[i] by {
        assert(lm[i] =~= rm[i]);
    }
    assert(lm =~= rm);
}

/// Transform identity: a transform whose inverse matrix is the identity
/// hands the wrapped shape the very ray it was given, so querying the
/// wrapped shape through it yields exactly the shape's own answer.
pub proof fn lemma_transform_identity<S: Shape>(t: Transform<S>, ray: RayV)
    requires
        t.wf(),
        mvals(t.t_inv@) == identity_frac(t.dim()),
        seq_wf(ray.r),
        seq_wf(ray.v),
        ray.r.len() == t.dim(),
        ray.v.len() == t.dim(),
    ensures
        local_ray_v(mvals(t.t_inv@), ray) == ray,
        t.spec_raytrace(ray) == t.s.spec_raytrace(ray),
        t.spec_normal(ray) is Some ==> t.spec_normal(ray) == (match t.s.spec_normal(ray) {
            Some(n) => Some(
                world_normal_v(mvals(t.t@), ray, t.s.spec_raytrace(ray), n),
            ),
            None => None::<Seq<Frac>>,
        }),
    {
    let n = t.dim();
    let im = identity_frac(n);
    let zed = frac_zero();
    lemma_wf_pos(ray.r);
    lemma_wf_pos(ray.v);
    crate::vector::lemma_pos_nz(ray.r);
    crate::vector::lemma_pos_nz(ray.v);
    assert forall|i: int| 0 <= i < n as int implies canon_seq(mat_vec(im, ray.r))[i]
        == ray.r[i] by {
        crate::vector::lemma_fdot_unit_row(im[i], ray.r, i);
        crate::rational::lemma_frac_eq_sym(fdot(im[i], ray.r), ray.r[i]);
        lemma_canon_eq(fdot(im[i], ray.r), ray.r[i]);
    }
    assert(canon_seq(mat_vec(im, ray.r)) =~= ray.r);
    let y = canon_seq(fadd(ray.r, ray.v));
    lemma_seq_ops_nz(ray.r, ray.v, zed);
    assert forall|i: int| 0 <= i < n as int implies is_canon(#[trigger] y[i]) && crate::rational::frac_eq(
        y[i],
        fadd(ray.r, ray.v)[i],
    ) by {
        crate::rational::lemma_canon_exists(fadd(ray.r, ray.v)[i]);
    }
    assert(seq_wf(y));
    crate::vector::lemma_pos_nz(y);
    crate::vector::lemma_wf_pos(y);
    assert forall|i: int| 0 <= i < n as int implies canon_seq(mat_vec(im, y))[i] == y[i] by {
        crate::vector::lemma_fdot_unit_row(im[i], y, i);
        crate::rational::lemma_frac_eq_sym(fdot(im[i], y), y[i]);
        lemma_canon_eq(fdot(im[i], y), y[i]);
    }
    assert(canon_seq(mat_vec(im, y)) =~= y);
    assert forall|i: int| 0 <= i < n as int implies canon_seq(fsub(y, ray.r))[i] == ray.v[i] by {
        let ri = ray.r[i];
        let vi = ray.v[i];
        crate::rational::lemma_den_nz(ri, vi);
        crate::rational::lemma_sub_cong(y[i], frac_add(ri, vi), ri, ri);
        crate::rational::lemma_add_then_sub_cancel(ri, vi);
        crate::rational::lemma_den_nz(frac_add(ri, vi), ri);
        crate::rational::lemma_frac_eq_trans(
            crate::rational::frac_sub(y[i], ri),
            crate::rational::frac_sub(frac_add(ri, vi), ri),
            vi,
        );
        crate::rational::lemma_frac_eq_sym(crate::rational::frac_sub(y[i], ri), vi);
        crate::rational::lemma_den_nz(y[i], ri);
        lemma_canon_eq(crate::rational::frac_sub(y[i], ri), vi);
    }
    assert(canon_seq(fsub(y, ray.r)) =~= ray.v);
    assert(local_ray_v(mvals(t.t_inv@), ray) == ray);
}

impl<S: Shape> Shape for Transform<S> {
    open spec fn wf(&self) -> bool {
        self.s.wf() && mat_wf(self.t@, self.dim()) && mat_wf(self.t_inv@, self.dim()) && self.s.fits(
            self.dim(),
        )
    }

    open spec fn fits(&self, dim: nat) -> bool {
        dim == self.dim()
    }

    open spec fn spec_raytrace(&self, ray: RayV) -> Frac {
        self.s.spec_raytrace(local_ray_v(mvals(self.t_inv@), ray))
    }

    open spec fn spec_normal(&self, ray: RayV) -> Option<Seq<Frac>> {
        let lray = local_ray_v(mvals(self.t_inv@), ray);
        match self.s.spec_normal(lray) {
            Some(n) => Some(
                world_normal_v(mvals(self.t@), lray, self.s.spec_raytrace(lray), n),
            ),
            None => None,
        }
    }

    fn raytrace(&self, ray: &Ray) -> (r: Raytrace) {
        let lr = self.local_ray(ray);
        self.s.raytrace(&lr)
    }

    fn raytrace_with_norm(&self, ray: &Ray) -> (r: RaytraceWithNorm) {
        let lr = self.local_ray(ray);
        let inner = self.s.raytrace_with_norm(&lr);
        let RaytraceWithNorm { raytrace, n } = inner;
        match n {
            Some(nv) => {
                let x0 = lr.propagate(&raytrace.t);
                proof {
                    lemma_vec_wf_vals(lr.r@);
                    lemma_vec_wf_vals(lr.v@);
                    lemma_vec_wf_vals(x0@);
                    lemma_seq_ops_nz(lr@.v, lr@.v, raytrace.t@);
                    lemma_seq_ops_nz(lr@.r, crate::vector::fscale(raytrace.t@, lr@.v), frac_zero());
                    lemma_canon_seq_eq(vvals(x0@), fprop(lr@, raytrace.t@));
                }
                let n1 = vector::add(&x0, &nv);
                proof {
                    lemma_vec_wf_vals(nv@);
                    lemma_vec_wf_vals(n1@);
                    lemma_seq_ops_nz(vvals(x0@), vvals(nv@), frac_zero());
                    lemma_canon_seq_eq(vvals(n1@), fadd(vvals(x0@), vvals(nv@)));
                }
                let y0 = self.transform_pos(&x0);
                let y1 = self.transform_pos(&n1);
                let w = vector::sub(&y1, &y0);
                proof {
                    lemma_vec_wf_vals(y0@);
                    lemma_vec_wf_vals(y1@);
                    lemma_vec_wf_vals(w@);
                    lemma_seq_ops_nz(vvals(y1@), vvals(y0@), frac_zero());
                    lemma_canon_seq_eq(vvals(w@), fsub(vvals(y1@), vvals(y0@)));
                }
                RaytraceWithNorm { raytrace, n: Some(w) }
            },
            None => RaytraceWithNorm { raytrace, n: None },
        }
    }
}

} // verus!
