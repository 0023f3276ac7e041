//! The bounded triangular plane: three vertices in three dimensions.
//!
//! The solver intersects the supporting plane (its normal is the cross
//! product of two edges), then classifies the hit point against each of the
//! triangle's three edges: the hit must lie on the same side of every edge as
//! the opposite vertex, measured along the component of the opposite-vertex
//! direction perpendicular to the edge.  A degenerate edge (two equal
//! vertices) makes every query a miss.

use vstd::prelude::*;

use crate::ray::{fprop, Ray, RayV};
use crate::rational::{frac_div, frac_eq, frac_mul, frac_nonneg, frac_sub, frac_zero,
    lemma_den_nz, lemma_div_cong, lemma_eq_sign, lemma_frac_eq_trans, lemma_mul_cong,
    lemma_nonneg_cong, lemma_sub_cong, Frac};
use crate::raytrace::{frac_hit, Raytrace, RaytraceWithNorm};
use crate::scalar::Scalar;
use crate::shapes::nd::hyperplane::{plane_t, HyperPlane};
use crate::shapes::Shape;
use crate::vector::{canon_seq, fcross, fdot, fscale, fsub, lemma_canon_seq_eq,
    lemma_fdot_cong, lemma_fdot_den, lemma_seq_ops_nz, lemma_seq_ops_pos, lemma_vec_wf_vals,
    seq_nz, vec_wf, vvals};
use crate::vector;

verus! {

/// A triangle in three dimensions, as its three vertices.
pub struct TriangularPlane {
    /// The three corner points.
    pub vertices: Vec<Vec<Scalar>>,
}

/// The supporting plane's normal: the cross product of two edges, as the
/// exact scalars compute it.
pub open spec fn tri_pn(verts: Seq<Seq<Frac>>) -> Seq<Frac> {
    canon_seq(
        fcross(canon_seq(fsub(verts[1], verts[0])), canon_seq(fsub(verts[2], verts[0]))),
    )
}

/// Whether `x` lies on the inner side of the edge opposite vertex `k`: the
/// edge runs from vertex `k + 1` to vertex `k + 2`, and `w` is the component
/// of the opposite-vertex direction perpendicular to it.  False for a
/// degenerate edge.
pub open spec fn tri_edge_ok(verts: Seq<Seq<Frac>>, x: Seq<Frac>, k: int) -> bool {
    let a = verts[k];
    let b = verts[(k + 1) % 3];
    let cc = verts[(k + 2) % 3];
    let e = fsub(cc, b);
    let ee = fdot(e, e);
    let ab = fsub(a, b);
    let w = fsub(ab, fscale(frac_div(fdot(e, ab), ee), e));
    ee.n != 0 && frac_nonneg(fdot(w, fsub(x, b)))
}

/// The distance a triangle reports: the supporting plane's hit, kept only
/// when the hit point passes all three edge tests.
pub open spec fn tri_t(verts: Seq<Seq<Frac>>, ray: RayV) -> Frac {
    let pt = plane_t(verts[0], tri_pn(verts), ray);
    if frac_hit(pt) {
        let x = canon_seq(fprop(ray, pt));
        if tri_edge_ok(verts, x, 0) && tri_edge_ok(verts, x, 1) && tri_edge_ok(verts, x, 2) {
            pt
        } else {
            crate::rational::inf_frac()
        }
    } else {
        pt
    }
}

/// The normal a triangle reports: the supporting plane's unit normal,
/// opposing the incoming ray.
pub open spec fn tri_normal(verts: Seq<Seq<Frac>>, ray: RayV) -> Option<Seq<Frac>> {
    if frac_hit(tri_t(verts, ray)) {
        crate::shapes::nd::hyperplane::plane_unit_normal(
            tri_pn(verts),
            fdot(ray.v, tri_pn(verts)),
        )
    } else {
        None
    }
}

/// The shape's vertices as fraction sequences.
pub open spec fn tri_verts(vs: Seq<Vec<Scalar>>) -> Seq<Seq<Frac>> {
    Seq::new(vs.len(), |i: int| vvals(vs[i]@))
}

impl TriangularPlane {
    pub fn new(vertices: Vec<Vec<Scalar>>) -> (s: TriangularPlane)
        requires
            vertices@.len() == 3,
            forall|i: int| 0 <= i < 3 ==> vec_wf((#[trigger] vertices@[i])@) && vertices@[i]@.len()
                == 3,
        ensures
            s.wf(),
            s.vertices == vertices,
    {
        TriangularPlane { vertices }
    }

    /// The supporting plane of the triangle.
    fn supporting_plane(&self) -> (hp: HyperPlane)
        requires
            self.wf(),
        ensures
            hp.wf(),
            hp.r@.len() == 3,
            vvals(hp.r@) == tri_verts(self.vertices@)[0],
            vvals(hp.n@) == tri_pn(tri_verts(self.vertices@)),
    {
        let ghost vs = tri_verts(self.vertices@);
        let e1 = vector::sub(&self.vertices[1], &self.vertices[0]);
        let e2 = vector::sub(&self.vertices[2], &self.vertices[0]);
        proof {
            lemma_vec_wf_vals(self.vertices@[0]@);
            lemma_vec_wf_vals(self.vertices@[1]@);
            lemma_vec_wf_vals(self.vertices@[2]@);
            lemma_vec_wf_vals(e1@);
            lemma_vec_wf_vals(e2@);
            lemma_seq_ops_nz(vs[1], vs[0], frac_zero());
            lemma_seq_ops_nz(vs[2], vs[0], frac_zero());
            lemma_canon_seq_eq(vvals(e1@), fsub(vs[1], vs[0]));
            lemma_canon_seq_eq(vvals(e2@), fsub(vs[2], vs[0]));
        }
        let nc = vector::mul_cross(&e1, &e2);
        proof {
            lemma_vec_wf_vals(nc@);
            let raw = fcross(vvals(e1@), vvals(e2@));
            assert forall|j: int| 0 <= j < 3 implies (#[trigger] raw[j]).d != 0 by {
                lemma_den_nz(vvals(e1@)[1], vvals(e2@)[2]);
                lemma_den_nz(vvals(e1@)[2], vvals(e2@)[1]);
                lemma_den_nz(vvals(e1@)[2], vvals(e2@)[0]);
                lemma_den_nz(vvals(e1@)[0], vvals(e2@)[2]);
                lemma_den_nz(vvals(e1@)[0], vvals(e2@)[1]);
                lemma_den_nz(vvals(e1@)[1], vvals(e2@)[0]);
                lemma_den_nz(
                    frac_mul(vvals(e1@)[1], vvals(e2@)[2]),
                    frac_mul(vvals(e1@)[2], vvals(e2@)[1]),
                );
                lemma_den_nz(
                    frac_mul(vvals(e1@)[2], vvals(e2@)[0]),
                    frac_mul(vvals(e1@)[0], vvals(e2@)[2]),
                );
                lemma_den_nz(
                    frac_mul(vvals(e1@)[0], vvals(e2@)[1]),
                    frac_mul(vvals(e1@)[1], vvals(e2@)[0]),
                );
            }
            lemma_canon_seq_eq(vvals(nc@), raw);
        }
        let r0 = vector::dup_vec(&self.vertices[0]);
        HyperPlane { r: r0, n: nc }
    }

    /// One edge test on the propagated hit point.
    fn edge_ok(&self, x: &Vec<Scalar>, k: usize) -> (r: bool)
        requires
            self.wf(),
            vec_wf(x@),
            x@.len() == 3,
            k < 3,
        ensures
            r == tri_edge_ok(tri_verts(self.vertices@), vvals(x@), k as int),
    {
        let ghost vs = tri_verts(self.vertices@);
        let ghost kk = k as int;
        let a = &self.vertices[k];
        let b = &self.vertices[(k + 1) % 3];
        let cc = &self.vertices[(k + 2) % 3];
        proof {
            lemma_vec_wf_vals(a@);
            lemma_vec_wf_vals(b@);
            lemma_vec_wf_vals(cc@);
            lemma_vec_wf_vals(x@);
            assert(((k + 1) % 3) as int == (kk + 1) % 3);
            assert(((k + 2) % 3) as int == (kk + 2) % 3);
            assert(vvals(a@) == vs[kk]);
            assert(vvals(b@) == vs[(kk + 1) % 3]);
            assert(vvals(cc@) == vs[(kk + 2) % 3]);
        }
        let ghost e_m = fsub(vs[(kk + 2) % 3], vs[(kk + 1) % 3]);
        let ghost ab_m = fsub(vs[kk], vs[(kk + 1) % 3]);
        let e = vector::sub(cc, b);
        let ee = vector::mul_dot(&e, &e);
        proof {
            lemma_vec_wf_vals(e@);
            lemma_seq_ops_nz(vvals(cc@), vvals(b@), frac_zero());
            lemma_seq_ops_pos(vvals(cc@), vvals(b@), frac_zero());
            crate::vector::lemma_fdot_den(e_m, e_m);
            lemma_fdot_cong(vvals(e@), e_m, vvals(e@), e_m);
            lemma_frac_eq_trans(ee@, fdot(vvals(e@), vvals(e@)), fdot(e_m, e_m));
            lemma_eq_sign(ee@, fdot(e_m, e_m));
        }
        if ee.is_zero() {
            return false;
        }
        let ab = vector::sub(a, b);
        let eab = vector::mul_dot(&e, &ab);
        let q = eab.div(&ee);
        let ghost q_m = frac_div(fdot(e_m, ab_m), fdot(e_m, e_m));
        proof {
            lemma_vec_wf_vals(ab@);
            lemma_seq_ops_nz(vs[kk], vs[(kk + 1) % 3], frac_zero());
            lemma_fdot_cong(vvals(e@), e_m, vvals(ab@), ab_m);
            lemma_frac_eq_trans(eab@, fdot(vvals(e@), vvals(ab@)), fdot(e_m, ab_m));
            lemma_div_cong(eab@, fdot(e_m, ab_m), ee@, fdot(e_m, e_m));
            lemma_den_nz(eab@, ee@);
            lemma_frac_eq_trans(q@, frac_div(eab@, ee@), q_m);
        }
        let proj = vector::scale(&q, &e);
        let w = vector::sub(&ab, &proj);
        let ghost w_m = fsub(ab_m, fscale(q_m, e_m));
        proof {
            lemma_vec_wf_vals(proj@);
            lemma_vec_wf_vals(w@);
            lemma_seq_ops_pos(vvals(a@), vvals(b@), frac_zero());
            crate::vector::lemma_fdot_den(e_m, ab_m);
            lemma_den_nz(fdot(e_m, ab_m), fdot(e_m, e_m));
            assert forall|j: int| 0 <= j < 3 implies frac_eq(#[trigger] vvals(w@)[j], w_m[j])
                && w_m[j].d != 0 by {
                lemma_mul_cong(q@, q_m, vvals(e@)[j], e_m[j]);
                lemma_frac_eq_trans(vvals(proj@)[j], frac_mul(q@, vvals(e@)[j]), frac_mul(
                    q_m,
                    e_m[j],
                ));
                lemma_den_nz(q_m, e_m[j]);
                lemma_den_nz(q@, vvals(e@)[j]);
                lemma_den_nz(ab_m[j], frac_mul(q_m, e_m[j]));
                lemma_sub_cong(vvals(ab@)[j], ab_m[j], vvals(proj@)[j], frac_mul(q_m, e_m[j]));
                lemma_frac_eq_trans(vvals(w@)[j], frac_sub(vvals(ab@)[j], vvals(proj@)[j]), w_m[j]);
            }
        }
        let xb = vector::sub(x, b);
        let dd = vector::mul_dot(&w, &xb);
        let ghost xb_m = fsub(vvals(x@), vs[(kk + 1) % 3]);
        proof {
            lemma_vec_wf_vals(xb@);
            lemma_vec_wf_vals(w@);
            lemma_seq_ops_nz(vvals(x@), vs[(kk + 1) % 3], frac_zero());
            assert(seq_nz(w_m)) by {
                assert forall|j: int| 0 <= j < 3 implies (#[trigger] w_m[j]).d != 0 by {
                    assert(frac_eq(vvals(w@)[j], w_m[j]) && w_m[j].d != 0);
                }
            }
            lemma_fdot_cong(vvals(w@), w_m, vvals(xb@), xb_m);
            lemma_frac_eq_trans(dd@, fdot(vvals(w@), vvals(xb@)), fdot(w_m, xb_m));
            lemma_den_nz(dd@, dd@);
            lemma_nonneg_cong(dd@, fdot(w_m, xb_m));
            crate::rational::lemma_nonneg_canon(dd@);
        }
        dd.is_nonneg()
    }
}

impl Shape for TriangularPlane {
    open spec fn wf(&self) -> bool {
        self.vertices@.len() == 3 && forall|i: int| 0 <= i < 3 ==> vec_wf(
            (#[trigger] self.vertices@[i])@,
        ) && self.vertices@[i]@.len() == 3
    }

    open spec fn fits(&self, dim: nat) -> bool {
        dim == 3
    }

    open spec fn spec_raytrace(&self, ray: RayV) -> Frac {
        tri_t(tri_verts(self.vertices@), ray)
    }

    open spec fn spec_normal(&self, ray: RayV) -> Option<Seq<Frac>> {
        tri_normal(tri_verts(self.vertices@), ray)
    }

    fn raytrace(&self, ray: &Ray) -> (r: Raytrace) {
        let hp = self.supporting_plane();
        let base = hp.raytrace(ray);
        if base.is_miss() {
            return base;
        }
        let x = ray.propagate(&base.t);
        proof {
            lemma_vec_wf_vals(ray.r@);
            lemma_vec_wf_vals(ray.v@);
            lemma_vec_wf_vals(x@);
            lemma_seq_ops_nz(ray@.v, ray@.v, base.t@);
            lemma_seq_ops_nz(ray@.r, fscale(base.t@, ray@.v), frac_zero());
            lemma_canon_seq_eq(vvals(x@), fprop(ray@, base.t@));
        }
        if self.edge_ok(&x, 0) && self.edge_ok(&x, 1) && self.edge_ok(&x, 2) {
            base
        } else {
            Raytrace::miss()
        }
    }

    fn raytrace_with_norm(&self, ray: &Ray) -> (r: RaytraceWithNorm) {
        let hp = self.supporting_plane();
        let base = hp.raytrace_with_norm(ray);
        let RaytraceWithNorm { raytrace, n } = base;
        if raytrace.is_miss() {
            return RaytraceWithNorm { raytrace, n: None };
        }
        let x = ray.propagate(&raytrace.t);
        proof {
            lemma_vec_wf_vals(ray.r@);
            lemma_vec_wf_vals(ray.v@);
            lemma_vec_wf_vals(x@);
            lemma_seq_ops_nz(ray@.v, ray@.v, raytrace.t@);
            lemma_seq_ops_nz(ray@.r, fscale(raytrace.t@, ray@.v), frac_zero());
            lemma_canon_seq_eq(vvals(x@), fprop(ray@, raytrace.t@));
        }
        if self.edge_ok(&x, 0) && self.edge_ok(&x, 1) && self.edge_ok(&x, 2) {
            RaytraceWithNorm { raytrace, n }
        } else {
            RaytraceWithNorm::miss()
        }
    }
}

} // verus!
