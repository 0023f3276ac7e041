//! Rays: an origin point and a direction vector in D-dimensional space.
//!
//! The direction need not be unit length: every solver in this crate divides
//! by the direction's magnitude only where its geometry calls for it.

use vstd::prelude::*;

use crate::rational::{frac_add, frac_eq, frac_mul, lemma_add_cong, lemma_den_nz,
    lemma_frac_eq_refl, lemma_frac_eq_trans, Frac};
use crate::scalar::Scalar;
use crate::vector::{fadd, fracs_eq, fscale, fsub, lemma_vec_wf_vals, vec_wf, vvals};
use crate::vector;

verus! {

/// A ray `origin + t * direction`, for parameters `t >= 0`.
pub struct Ray {
    /// The origin point.
    pub r: Vec<Scalar>,
    /// The direction vector.
    pub v: Vec<Scalar>,
}

/// The mathematical content of a ray.
pub ghost struct RayV {
    pub r: Seq<Frac>,
    pub v: Seq<Frac>,
}

impl View for Ray {
    type V = RayV;

    open spec fn view(&self) -> RayV {
        RayV { r: vvals(self.r@), v: vvals(self.v@) }
    }
}

/// The point a ray reaches at parameter `t`.
pub open spec fn fprop(ray: RayV, t: Frac) -> Seq<Frac> {
    fadd(ray.r, fscale(t, ray.v))
}

impl Ray {
    pub open spec fn wf(self) -> bool {
        vec_wf(self.r@) && vec_wf(self.v@) && self.r@.len() == self.v@.len()
    }

    pub open spec fn dim(self) -> nat {
        self.r@.len()
    }

    /// The ray from one point toward another: the direction is their difference.
    pub fn new_from_to(r_from: Vec<Scalar>, r_to: Vec<Scalar>) -> (s: Ray)
        requires
            vec_wf(r_from@),
            vec_wf(r_to@),
            r_from@.len() == r_to@.len(),
        ensures
            s.wf(),
            s.dim() == r_from@.len(),
            s@.r == vvals(r_from@),
            fracs_eq(s@.v, fsub(vvals(r_to@), vvals(r_from@))),
    {
        let v = vector::sub(&r_to, &r_from);
        Ray { r: r_from, v }
    }

    /// The point `origin + direction * t`.
    pub fn propagate(&self, t: &Scalar) -> (p: Vec<Scalar>)
        requires
            self.wf(),
            t.wf(),
            t.is_fin(),
        ensures
            vec_wf(p@),
            p@.len() == self.dim(),
            fracs_eq(vvals(p@), fprop(self@, t@)),
    {
        let step = vector::scale(t, &self.v);
        let p = vector::add(&self.r, &step);
        proof {
            lemma_vec_wf_vals(self.r@);
            lemma_vec_wf_vals(self.v@);
            lemma_vec_wf_vals(step@);
            assert forall|j: int| 0 <= j < p@.len() implies frac_eq(
                #[trigger] vvals(p@)[j],
                fprop(self@, t@)[j],
            ) by {
                let rj = vvals(self.r@)[j];
                let sj = vvals(step@)[j];
                let mj = frac_mul(t@, vvals(self.v@)[j]);
                lemma_den_nz(t@, vvals(self.v@)[j]);
                lemma_frac_eq_refl(rj);
                lemma_add_cong(rj, rj, sj, mj);
                lemma_frac_eq_trans(vvals(p@)[j], frac_add(rj, sj), frac_add(rj, mj));
            }
        }
        p
    }

    /// The point the ray reaches at parameter one: `origin + direction`.
    pub fn r_to(&self) -> (p: Vec<Scalar>)
        requires
            self.wf(),
        ensures
            vec_wf(p@),
            p@.len() == self.dim(),
            fracs_eq(vvals(p@), fadd(self@.r, self@.v)),
    {
        vector::add(&self.r, &self.v)
    }
}

} // verus!
