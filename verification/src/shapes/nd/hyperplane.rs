//! The hyperplane: a point on the plane and a normal vector, of infinite
//! extent in any dimension.
//!
//! The solver resolves `(r_plane - r_ray) . n == t * (v . n)`: the hit is at
//! parameter `t = ((r_plane - r_ray) . n) / (v . n)`, rejected when the ray is
//! parallel to the plane (`v . n == 0`) or the hit lies behind the origin
//! (`t < 0`).  The reported normal is the stored normal, unit-normalized and
//! sign-flipped to oppose the incoming ray.

use vstd::prelude::*;

use crate::ray::{fprop, Ray, RayV};
use crate::rational::{canon, frac_add, frac_div, frac_eq, frac_mul, frac_neg, frac_nonneg, frac_sub,
    frac_sqrt, inf_frac, lemma_canon_eq, lemma_den_nz, lemma_div_cong, lemma_eq_sign,
    lemma_frac_eq_trans, lemma_neg_cong, lemma_nonneg_canon, lemma_nonneg_cong, Frac};
use crate::raytrace::{frac_hit, Raytrace, RaytraceWithNorm};
use crate::scalar::Scalar;
use crate::shapes::Shape;
use crate::vector::{canon_seq, fcross, fdot, fsub, lemma_canon_seq_eq, lemma_fdot_cong,
    lemma_fdot_den, lemma_pos_nz, lemma_seq_ops_nz, lemma_seq_ops_pos, lemma_vec_wf_vals,
    lemma_wf_pos, seq_wf, vec_wf, vvals};
use crate::vector;

verus! {

/// A plane of any dimension: a point on it, and a normal vector.
pub struct HyperPlane {
    /// A point on the plane.
    pub r: Vec<Scalar>,
    /// The plane's normal vector (any nonzero length).
    pub n: Vec<Scalar>,
}

/// The distance a hyperplane reports: `((pr - ray.r) . pn) / (ray.v . pn)`
/// in canonical form when that is defined and nonnegative, else a miss.
pub open spec fn plane_t(pr: Seq<Frac>, pn: Seq<Frac>, ray: RayV) -> Frac {
    let vn = fdot(ray.v, pn);
    if vn.n == 0 {
        inf_frac()
    } else {
        let t = frac_div(fdot(fsub(pr, ray.r), pn), vn);
        if frac_nonneg(t) {
            canon(t)
        } else {
            inf_frac()
        }
    }
}

/// The stored normal, divided by its own magnitude with the sign opposite
/// to that of `ray.v . pn`: a unit vector opposing the incoming ray.  `None`
/// when the magnitude rounds to zero.
pub open spec fn plane_unit_normal(pn: Seq<Frac>, vn: Frac) -> Option<Seq<Frac>> {
    let mag = frac_sqrt(canon(fdot(pn, pn)));
    if mag.n == 0 {
        None
    } else {
        let ms = if vn.n < 0 {
            mag
        } else {
            frac_neg(mag)
        };
        Some(canon_seq(Seq::new(pn.len(), |i: int| frac_div(pn[i], ms))))
    }
}

/// The normal a hyperplane reports: present exactly on a hit whose stored
/// normal has a nonzero magnitude.
pub open spec fn plane_normal(pr: Seq<Frac>, pn: Seq<Frac>, ray: RayV) -> Option<Seq<Frac>> {
    if frac_hit(plane_t(pr, pn, ray)) {
        plane_unit_normal(pn, fdot(ray.v, pn))
    } else {
        None
    }
}

/// Round trip: when a hyperplane reports a hit, the ray propagated to the
/// reported distance lies exactly on the plane: `(prop(t) - pr) . pn == 0`.
pub proof fn lemma_plane_hit_on_plane(pr: Seq<Frac>, pn: Seq<Frac>, ray: RayV)
    requires
        seq_wf(pr),
        seq_wf(pn),
        seq_wf(ray.r),
        seq_wf(ray.v),
        pr.len() == pn.len(),
        ray.r.len() == pn.len(),
        ray.v.len() == pn.len(),
        frac_hit(plane_t(pr, pn, ray)),
    ensures
        frac_eq(fdot(fsub(fprop(ray, plane_t(pr, pn, ray)), pr), pn), crate::rational::frac_zero()),
{
    let neg1 = Frac { n: -1, d: 1 };
    let zed = crate::rational::frac_zero();
    lemma_wf_pos(pr);
    lemma_wf_pos(pn);
    lemma_wf_pos(ray.r);
    lemma_wf_pos(ray.v);
    lemma_pos_nz(pr);
    lemma_pos_nz(pn);
    lemma_pos_nz(ray.r);
    lemma_pos_nz(ray.v);
    let vn = fdot(ray.v, pn);
    let num = fdot(fsub(pr, ray.r), pn);
    let traw = frac_div(num, vn);
    let t = plane_t(pr, pn, ray);
    assert(vn.n != 0);
    lemma_fdot_den(ray.v, pn);
    lemma_seq_ops_pos(pr, ray.r, zed);
    lemma_seq_ops_nz(pr, ray.r, zed);
    lemma_fdot_den(fsub(pr, ray.r), pn);
    lemma_den_nz(num, vn);
    crate::rational::lemma_canon_exists(traw);
    assert(t == canon(traw) && frac_eq(t, traw) && crate::rational::is_canon(t));
    let rr = ray.r;
    let rv = ray.v;
    let sv = crate::vector::fscale(t, rv);
    let prop = crate::vector::fadd(rr, sv);
    lemma_seq_ops_nz(rv, rv, t);
    lemma_seq_ops_nz(rr, sv, zed);
    crate::vector::lemma_fsub_as_add(prop, pr);
    lemma_seq_ops_nz(pr, pr, neg1);
    let npr = crate::vector::fscale(neg1, pr);
    crate::vector::lemma_fdot_add_left(prop, npr, pn);
    crate::vector::lemma_fdot_add_left(rr, sv, pn);
    crate::vector::lemma_fdot_scale_left(t, rv, pn);
    crate::vector::lemma_fdot_scale_left(neg1, pr, pn);
    let a_ = fdot(rr, pn);
    let p_ = fdot(pr, pn);
    let s_ = fdot(sv, pn);
    lemma_fdot_den(rr, pn);
    lemma_fdot_den(pr, pn);
    lemma_fdot_cong(sv, sv, pn, pn);
    // s_ is numerically num: t * vn == traw * vn == num.
    lemma_den_nz(t, vn);
    lemma_den_nz(traw, vn);
    crate::rational::lemma_mul_cong(t, traw, vn, vn);
    crate::rational::lemma_div_mul_cancel(num, vn);
    lemma_frac_eq_trans(frac_mul(t, vn), frac_mul(traw, vn), num);
    lemma_frac_eq_trans(s_, frac_mul(t, vn), num);
    // num is numerically p_ - a_.
    crate::vector::lemma_fsub_as_add(pr, rr);
    lemma_seq_ops_nz(rr, rr, neg1);
    crate::vector::lemma_fdot_add_left(pr, crate::vector::fscale(neg1, rr), pn);
    crate::vector::lemma_fdot_scale_left(neg1, rr, pn);
    lemma_den_nz(neg1, a_);
    lemma_den_nz(p_, frac_mul(neg1, a_));
    crate::rational::lemma_add_neg_is_sub(p_, a_);
    lemma_fdot_cong(crate::vector::fscale(neg1, rr), crate::vector::fscale(neg1, rr), pn, pn);
    crate::rational::lemma_add_cong(
        p_,
        p_,
        fdot(crate::vector::fscale(neg1, rr), pn),
        frac_mul(neg1, a_),
    );
    lemma_frac_eq_trans(
        num,
        frac_add(p_, fdot(crate::vector::fscale(neg1, rr), pn)),
        frac_add(p_, frac_mul(neg1, a_)),
    );
    // Assemble: D == (a_ + s_) + (-1) * p_.
    let d_ = fdot(fsub(prop, pr), pn);
    lemma_den_nz(a_, s_);
    lemma_den_nz(neg1, p_);
    crate::rational::lemma_add_cong(fdot(prop, pn), frac_add(a_, s_), fdot(npr, pn), frac_mul(
        neg1,
        p_,
    ));
    lemma_den_nz(frac_add(a_, s_), frac_mul(neg1, p_));
    lemma_frac_eq_trans(
        d_,
        frac_add(fdot(prop, pn), fdot(npr, pn)),
        frac_add(frac_add(a_, s_), frac_mul(neg1, p_)),
    );
    // Replace s_ by p_ - a_ inside.
    lemma_den_nz(p_, a_);
    crate::rational::lemma_add_neg_is_sub(p_, a_);
    lemma_frac_eq_trans(s_, num, frac_sub(p_, a_));
    crate::rational::lemma_add_cong(a_, a_, s_, frac_sub(p_, a_));
    crate::rational::lemma_add_sub_cancel(a_, p_);
    lemma_den_nz(a_, frac_sub(p_, a_));
    lemma_frac_eq_trans(frac_add(a_, s_), frac_add(a_, frac_sub(p_, a_)), p_);
    crate::rational::lemma_add_cong(frac_add(a_, s_), p_, frac_mul(neg1, p_), frac_mul(neg1, p_));
    crate::rational::lemma_add_neg_is_sub(p_, p_);
    crate::rational::lemma_sub_self(p_);
    lemma_den_nz(p_, frac_mul(neg1, p_));
    lemma_frac_eq_trans(
        frac_add(frac_add(a_, s_), frac_mul(neg1, p_)),
        frac_add(p_, frac_mul(neg1, p_)),
        zed,
    );
    lemma_frac_eq_trans(d_, frac_add(frac_add(a_, s_), frac_mul(neg1, p_)), zed);
}

impl HyperPlane {
    pub open spec fn dim(self) -> nat {
        self.r@.len()
    }

    pub fn new(r: Vec<Scalar>, n: Vec<Scalar>) -> (s: HyperPlane)
        requires
            vec_wf(r@),
            vec_wf(n@),
            r@.len() == n@.len(),
        ensures
            s.wf(),
            s.r == r,
            s.n == n,
    {
        HyperPlane { r, n }
    }

    /// The plane through three points: the normal is the cross product of two
    /// edge vectors.
    pub fn from_vertices(r: Vec<Scalar>, v1: Vec<Scalar>, v2: Vec<Scalar>) -> (s: HyperPlane)
        requires
            vec_wf(r@),
            vec_wf(v1@),
            vec_wf(v2@),
            r@.len() == 3,
            v1@.len() == 3,
            v2@.len() == 3,
        ensures
            s.wf(),
            s.r@.len() == 3,
            vvals(s.r@) == vvals(r@),
            vvals(s.n@) == canon_seq(
                fcross(
                    canon_seq(fsub(vvals(v1@), vvals(r@))),
                    canon_seq(fsub(vvals(v2@), vvals(r@))),
                ),
            ),
    {
        let e1 = vector::sub(&v1, &r);
        let e2 = vector::sub(&v2, &r);
        proof {
            lemma_vec_wf_vals(r@);
            lemma_vec_wf_vals(v1@);
            lemma_vec_wf_vals(v2@);
            lemma_vec_wf_vals(e1@);
            lemma_vec_wf_vals(e2@);
            lemma_seq_ops_nz(vvals(v1@), vvals(r@), crate::rational::frac_zero());
            lemma_seq_ops_nz(vvals(v2@), vvals(r@), crate::rational::frac_zero());
            lemma_canon_seq_eq(vvals(e1@), fsub(vvals(v1@), vvals(r@)));
            lemma_canon_seq_eq(vvals(e2@), fsub(vvals(v2@), vvals(r@)));
        }
        let nc = vector::mul_cross(&e1, &e2);
        proof {
            lemma_vec_wf_vals(nc@);
            crate::vector::lemma_wf_pos(vvals(e1@));
            crate::vector::lemma_wf_pos(vvals(e2@));
            crate::vector::lemma_fcross_nz(vvals(e1@), vvals(e2@));
            lemma_canon_seq_eq(vvals(nc@), crate::vector::fcross(vvals(e1@), vvals(e2@)));
        }
        HyperPlane { r, n: nc }
    }

    /// The plane through three points; the same construction as
    /// `from_vertices`.
    pub fn new_from_vertices(r: Vec<Scalar>, v1: Vec<Scalar>, v2: Vec<Scalar>) -> (s: HyperPlane)
        requires
            vec_wf(r@),
            vec_wf(v1@),
            vec_wf(v2@),
            r@.len() == 3,
            v1@.len() == 3,
            v2@.len() == 3,
        ensures
            s.wf(),
            s.r@.len() == 3,
            vvals(s.r@) == vvals(r@),
            vvals(s.n@) == canon_seq(
                fcross(
                    canon_seq(fsub(vvals(v1@), vvals(r@))),
                    canon_seq(fsub(vvals(v2@), vvals(r@))),
                ),
            ),
    {
        HyperPlane::from_vertices(r, v1, v2)
    }

    /// The distance part of the solver, shared by both entry points.
    fn solve(&self, ray: &Ray) -> (r: Raytrace)
        requires
            self.wf(),
            ray.wf(),
            self.fits(ray.dim()),
        ensures
            r.wf(),
            r.t@ == plane_t(vvals(self.r@), vvals(self.n@), ray@),
    {
        let ghost pr = vvals(self.r@);
        let ghost pn = vvals(self.n@);
        proof {
            lemma_vec_wf_vals(self.r@);
            lemma_vec_wf_vals(self.n@);
            lemma_vec_wf_vals(ray.r@);
            lemma_vec_wf_vals(ray.v@);
            lemma_fdot_den(ray@.v, pn);
        }
        let vn = vector::mul_dot(&ray.v, &self.n);
        proof {
            lemma_eq_sign(vn@, fdot(ray@.v, pn));
        }
        if vn.is_zero() {
            return Raytrace::miss();
        }
        let diff = vector::sub(&self.r, &ray.r);
        let num = vector::mul_dot(&diff, &self.n);
        let ghost num_m = fdot(fsub(pr, ray@.r), pn);
        let ghost t_m = frac_div(num_m, fdot(ray@.v, pn));
        proof {
            lemma_vec_wf_vals(diff@);
            lemma_seq_ops_nz(pr, ray@.r, fdot(ray@.v, pn));
            lemma_fdot_cong(vvals(diff@), fsub(pr, ray@.r), pn, pn);
            lemma_frac_eq_trans(num@, fdot(vvals(diff@), pn), num_m);
        }
        let t = num.div(&vn);
        proof {
            lemma_div_cong(num@, num_m, vn@, fdot(ray@.v, pn));
            lemma_den_nz(num@, vn@);
            lemma_den_nz(num_m, fdot(ray@.v, pn));
            lemma_frac_eq_trans(t@, frac_div(num@, vn@), t_m);
            lemma_nonneg_cong(t@, t_m);
            lemma_nonneg_canon(t@);
        }
        if t.is_nonneg() {
            proof {
                lemma_canon_eq(t_m, t@);
            }
            Raytrace::new(t)
        } else {
            Raytrace::miss()
        }
    }
}

impl Shape for HyperPlane {
    open spec fn wf(&self) -> bool {
        vec_wf(self.r@) && vec_wf(self.n@) && self.r@.len() == self.n@.len()
    }

    open spec fn fits(&self, dim: nat) -> bool {
        dim == self.r@.len()
    }

    open spec fn spec_raytrace(&self, ray: RayV) -> Frac {
        plane_t(vvals(self.r@), vvals(self.n@), ray)
    }

    open spec fn spec_normal(&self, ray: RayV) -> Option<Seq<Frac>> {
        plane_normal(vvals(self.r@), vvals(self.n@), ray)
    }

    fn raytrace(&self, ray: &Ray) -> (r: Raytrace) {
        self.solve(ray)
    }

    fn raytrace_with_norm(&self, ray: &Ray) -> (r: RaytraceWithNorm) {
        let ghost pr = vvals(self.r@);
        let ghost pn = vvals(self.n@);
        let base = self.solve(ray);
        if base.is_miss() {
            return RaytraceWithNorm { raytrace: base, n: None };
        }
        proof {
            lemma_vec_wf_vals(self.n@);
            lemma_vec_wf_vals(ray.v@);
            lemma_fdot_den(ray@.v, pn);
        }
        let vn = vector::mul_dot(&ray.v, &self.n);
        proof {
            lemma_eq_sign(vn@, fdot(ray@.v, pn));
        }
        let mag = vector::magnitude(&self.n);
        let ghost mag_m = frac_sqrt(canon(fdot(pn, pn)));
        proof {
            lemma_eq_sign(mag@, mag_m);
        }
        if mag.is_zero() {
            return RaytraceWithNorm { raytrace: base, n: None };
        }
        let ms = if vn.is_nonneg() {
            mag.neg()
        } else {
            mag
        };
        let ghost ms_m = if fdot(ray@.v, pn).n < 0 {
            mag_m
        } else {
            frac_neg(mag_m)
        };
        proof {
            lemma_neg_cong(mag@, mag_m);
            assert(frac_eq(ms@, ms_m));
            assert(ms_m.n != 0 && ms_m.d >= 1);
        }
        let w = vector::div_each(&self.n, &ms);
        proof {
            let raw = Seq::new(pn.len(), |i: int| frac_div(pn[i], ms_m));
            assert forall|j: int| 0 <= j < pn.len() implies frac_eq(
                #[trigger] vvals(w@)[j],
                raw[j],
            ) && raw[j].d != 0 by {
                lemma_div_cong(pn[j], pn[j], ms@, ms_m);
                lemma_den_nz(pn[j], ms@);
                lemma_den_nz(pn[j], ms_m);
                lemma_frac_eq_trans(vvals(w@)[j], frac_div(pn[j], ms@), raw[j]);
            }
            assert forall|j: int| 0 <= j < raw.len() implies (#[trigger] raw[j]).d != 0 by {
                lemma_den_nz(pn[j], ms_m);
            }
            lemma_vec_wf_vals(w@);
            lemma_canon_seq_eq(vvals(w@), raw);
        }
        RaytraceWithNorm { raytrace: base, n: Some(w) }
    }
}

} // verus!
