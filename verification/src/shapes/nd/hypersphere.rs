//! The hypersphere: a center point and a radius, in any dimension.
//!
//! The solver is the classic quadratic-root projection, carried out in exact
//! rational arithmetic.  With `u = (c - o) . v`, `vv = v . v`, `dsq` the
//! squared distance from origin to center and `disc = u^2 + vv (r^2 - dsq)`,
//! the parametric hit is `t = (u +- sqrt(disc)) / vv`: the far root when the
//! origin is inside the sphere, the near root otherwise.  The ray misses when
//! it points away from an outside sphere (`u < 0`) or the discriminant is
//! negative.  The one rounded step is the square root; when rounding makes an
//! inside hit marginally negative, the hit is reported at distance zero.

use vstd::prelude::*;

use crate::ray::{fprop, Ray, RayV};
use crate::rational::{canon, frac_add, frac_div, frac_eq, frac_lt, frac_mul, frac_nonneg,
    frac_sqrt, frac_sub, frac_zero, inf_frac, lemma_add_cong, lemma_canon_eq, lemma_den_nz,
    lemma_div_cong, lemma_eq_sign, lemma_frac_eq_trans, lemma_lt_cong, lemma_mul_cong,
    lemma_nonneg_canon, lemma_nonneg_cong, lemma_sub_cong, Frac};
use crate::raytrace::{frac_hit, Raytrace, RaytraceWithNorm};
use crate::scalar::Scalar;
use crate::shapes::Shape;
use crate::vector::{canon_seq, fdot, fsub, lemma_canon_seq_eq, lemma_fdot_cong,
    lemma_fdot_den, lemma_seq_ops_nz, lemma_seq_ops_pos, lemma_vec_wf_vals, lemma_wf_pos, vec_wf, vvals};
use crate::vector;

verus! {

/// A sphere of any dimension: its center and its radius.
pub struct HyperSphere {
    /// The center point.
    pub r0: Vec<Scalar>,
    /// The radius; positive.
    pub r: Scalar,
}

/// The discriminant of the sphere quadratic, in canonical form:
/// `u^2 + vv (r^2 - dsq)`.
pub open spec fn sphere_disc(u: Frac, vv: Frac, r2: Frac, dsq: Frac) -> Frac {
    canon(frac_add(frac_mul(u, u), frac_mul(vv, frac_sub(r2, dsq))))
}

/// The distance a hypersphere reports.
pub open spec fn sphere_t(c: Seq<Frac>, rad: Frac, ray: RayV) -> Frac {
    let vv = fdot(ray.v, ray.v);
    if vv.n == 0 {
        inf_frac()
    } else {
        let d = fsub(c, ray.r);
        let dsq = fdot(d, d);
        let u = fdot(d, ray.v);
        let r2 = frac_mul(rad, rad);
        let inside = frac_lt(dsq, r2);
        if u.n >= 0 || inside {
            let disc = sphere_disc(u, vv, r2, dsq);
            if disc.n >= 0 {
                let s = frac_sqrt(disc);
                if inside {
                    let tt = frac_div(frac_add(u, s), vv);
                    if frac_nonneg(tt) {
                        canon(tt)
                    } else {
                        frac_zero()
                    }
                } else {
                    canon(frac_div(frac_sub(u, s), vv))
                }
            } else {
                inf_frac()
            }
        } else {
            inf_frac()
        }
    }
}

/// The normal a hypersphere reports on a hit: the unit vector from the
/// center to the hit point.
pub open spec fn sphere_normal(c: Seq<Frac>, rad: Frac, ray: RayV) -> Option<Seq<Frac>> {
    let t = sphere_t(c, rad, ray);
    if frac_hit(t) {
        let x = canon_seq(fprop(ray, t));
        let nv = canon_seq(fsub(x, c));
        let mag = frac_sqrt(canon(fdot(nv, nv)));
        if mag.n == 0 {
            None
        } else {
            Some(canon_seq(Seq::new(nv.len(), |i: int| frac_div(nv[i], mag))))
        }
    } else {
        None
    }
}

/// A ray that starts outside a sphere and points away from it misses: the
/// reported distance is plus infinity and no normal is reported.
pub proof fn lemma_sphere_points_away_misses(c: Seq<Frac>, rad: Frac, ray: RayV)
    requires
        fdot(fsub(c, ray.r), ray.v).n < 0,
        !frac_lt(fdot(fsub(c, ray.r), fsub(c, ray.r)), frac_mul(rad, rad)),
    ensures
        sphere_t(c, rad, ray) == inf_frac(),
        sphere_normal(c, rad, ray) == None::<Seq<Frac>>,
{
}

impl HyperSphere {
    pub open spec fn dim(self) -> nat {
        self.r0@.len()
    }

    pub fn new(r0: Vec<Scalar>, r: Scalar) -> (s: HyperSphere)
        requires
            vec_wf(r0@),
            r.wf(),
            r.is_fin(),
            r@.n > 0,
        ensures
            s.wf(),
            s.r0 == r0,
            s.r == r,
    {
        HyperSphere { r0, r }
    }

    /// The distance part of the solver, shared by both entry points.
    fn solve(&self, ray: &Ray) -> (res: Raytrace)
        requires
            self.wf(),
            ray.wf(),
            self.fits(ray.dim()),
        ensures
            res.wf(),
            res.t@ == sphere_t(vvals(self.r0@), self.r@, ray@),
    {
        let ghost c = vvals(self.r0@);
        let ghost rv = ray@.r;
        let ghost vw = ray@.v;
        proof {
            lemma_vec_wf_vals(self.r0@);
            lemma_vec_wf_vals(ray.r@);
            lemma_vec_wf_vals(ray.v@);
            lemma_fdot_den(vw, vw);
            lemma_seq_ops_pos(c, rv, frac_zero());
            lemma_seq_ops_nz(c, rv, frac_zero());
            lemma_fdot_den(fsub(c, rv), fsub(c, rv));
            lemma_fdot_den(fsub(c, rv), vw);
            lemma_den_nz(self.r@, self.r@);
        }
        let ghost d_m = fsub(c, rv);
        let ghost vv_m = fdot(vw, vw);
        let ghost dsq_m = fdot(d_m, d_m);
        let ghost u_m = fdot(d_m, vw);
        let ghost r2_m = frac_mul(self.r@, self.r@);

        let vv = vector::mul_dot(&ray.v, &ray.v);
        proof {
            lemma_eq_sign(vv@, vv_m);
        }
        if vv.is_zero() {
            return Raytrace::miss();
        }
        let d = vector::sub(&self.r0, &ray.r);
        let dsq = vector::mul_dot(&d, &d);
        let u = vector::mul_dot(&d, &ray.v);
        let r2 = self.r.mul(&self.r);
        proof {
            lemma_vec_wf_vals(d@);
            lemma_fdot_cong(vvals(d@), d_m, vvals(d@), d_m);
            lemma_frac_eq_trans(dsq@, fdot(vvals(d@), vvals(d@)), dsq_m);
            lemma_fdot_cong(vvals(d@), d_m, vw, vw);
            lemma_frac_eq_trans(u@, fdot(vvals(d@), vw), u_m);
            lemma_eq_sign(u@, u_m);
            lemma_lt_cong(dsq@, dsq_m, r2@, r2_m);
        }
        let inside = dsq.lt(&r2);
        let u_fwd = u.is_nonneg();
        if !u_fwd && !inside {
            return Raytrace::miss();
        }
        // disc = u^2 + vv * (r2 - dsq)
        let uu = u.mul(&u);
        let rd = r2.sub(&dsq);
        let vrd = vv.mul(&rd);
        let disc = uu.add(&vrd);
        let ghost disc_raw = frac_add(frac_mul(u_m, u_m), frac_mul(vv_m, frac_sub(r2_m, dsq_m)));
        proof {
            lemma_den_nz(r2_m, dsq_m);
            lemma_den_nz(u_m, u_m);
            lemma_den_nz(vv_m, frac_sub(r2_m, dsq_m));
            lemma_mul_cong(u@, u_m, u@, u_m);
            lemma_frac_eq_trans(uu@, frac_mul(u@, u@), frac_mul(u_m, u_m));
            lemma_sub_cong(r2@, r2_m, dsq@, dsq_m);
            lemma_frac_eq_trans(rd@, frac_sub(r2@, dsq@), frac_sub(r2_m, dsq_m));
            lemma_mul_cong(vv@, vv_m, rd@, frac_sub(r2_m, dsq_m));
            lemma_frac_eq_trans(vrd@, frac_mul(vv@, rd@), frac_mul(vv_m, frac_sub(r2_m, dsq_m)));
            lemma_add_cong(uu@, frac_mul(u_m, u_m), vrd@, frac_mul(vv_m, frac_sub(r2_m, dsq_m)));
            lemma_frac_eq_trans(disc@, frac_add(uu@, vrd@), disc_raw);
            lemma_den_nz(frac_mul(u_m, u_m), frac_mul(vv_m, frac_sub(r2_m, dsq_m)));
            lemma_canon_eq(disc_raw, disc@);
        }
        if !disc.is_nonneg() {
            return Raytrace::miss();
        }
        let s = disc.sqrt_approx();
        let ghost s_m = frac_sqrt(sphere_disc(u_m, vv_m, r2_m, dsq_m));
        proof {
            assert(s_m == frac_sqrt(disc@));
            assert(s_m.d >= 1) by (nonlinear_arith)
                requires
                    s_m.d == disc@.d * (crate::rational::SQRT_SCALE as int),
                    disc@.d >= 1,
                    crate::rational::SQRT_SCALE >= 1,
            ;
        }
        if inside {
            let us = u.add(&s);
            let tt = us.div(&vv);
            let ghost tt_m = frac_div(frac_add(u_m, s_m), vv_m);
            proof {
                lemma_add_cong(u@, u_m, s@, s_m);
                lemma_frac_eq_trans(us@, frac_add(u@, s@), frac_add(u_m, s_m));
                lemma_den_nz(u_m, s_m);
                lemma_div_cong(us@, frac_add(u_m, s_m), vv@, vv_m);
                lemma_den_nz(us@, vv@);
                lemma_frac_eq_trans(tt@, frac_div(us@, vv@), tt_m);
                lemma_den_nz(frac_add(u_m, s_m), vv_m);
                lemma_nonneg_cong(tt@, tt_m);
                lemma_nonneg_canon(tt@);
            }
            if tt.is_nonneg() {
                proof {
                    lemma_canon_eq(tt_m, tt@);
                }
                Raytrace::new(tt)
            } else {
                Raytrace::new(Scalar::zero())
            }
        } else {
            let us = u.sub(&s);
            let tt = us.div(&vv);
            let ghost tt_m = frac_div(frac_sub(u_m, s_m), vv_m);
            proof {
                lemma_sub_cong(u@, u_m, s@, s_m);
                lemma_frac_eq_trans(us@, frac_sub(u@, s@), frac_sub(u_m, s_m));
                lemma_den_nz(u_m, s_m);
                lemma_div_cong(us@, frac_sub(u_m, s_m), vv@, vv_m);
                lemma_den_nz(us@, vv@);
                lemma_frac_eq_trans(tt@, frac_div(us@, vv@), tt_m);
                lemma_den_nz(frac_sub(u_m, s_m), vv_m);
                lemma_canon_eq(tt_m, tt@);
            }
            Raytrace::new(tt)
        }
    }
}

impl Shape for HyperSphere {
    open spec fn wf(&self) -> bool {
        vec_wf(self.r0@) && self.r.wf() && self.r.is_fin() && self.r@.n > 0
    }

    open spec fn fits(&self, dim: nat) -> bool {
        dim == self.r0@.len()
    }

    open spec fn spec_raytrace(&self, ray: RayV) -> Frac {
        sphere_t(vvals(self.r0@), self.r@, ray)
    }

    open spec fn spec_normal(&self, ray: RayV) -> Option<Seq<Frac>> {
        sphere_normal(vvals(self.r0@), self.r@, ray)
    }

    fn raytrace(&self, ray: &Ray) -> (r: Raytrace) {
        self.solve(ray)
    }

    fn raytrace_with_norm(&self, ray: &Ray) -> (res: RaytraceWithNorm) {
        let ghost c = vvals(self.r0@);
        let base = self.solve(ray);
        if base.is_miss() {
            return RaytraceWithNorm { raytrace: base, n: None };
        }
        proof {
            lemma_vec_wf_vals(self.r0@);
            lemma_vec_wf_vals(ray.r@);
            lemma_vec_wf_vals(ray.v@);
        }
        let x = ray.propagate(&base.t);
        let ghost x_m = canon_seq(fprop(ray@, base.t@));
        proof {
            lemma_vec_wf_vals(x@);
            lemma_seq_ops_nz(ray@.v, ray@.v, base.t@);
            lemma_seq_ops_nz(ray@.r, crate::vector::fscale(base.t@, ray@.v), frac_zero());
            lemma_canon_seq_eq(vvals(x@), fprop(ray@, base.t@));
        }
        let nv = vector::sub(&x, &self.r0);
        let ghost nv_m = canon_seq(fsub(x_m, c));
        proof {
            lemma_vec_wf_vals(nv@);
            lemma_seq_ops_nz(vvals(x@), c, frac_zero());
            lemma_canon_seq_eq(vvals(nv@), fsub(x_m, c));
        }
        let mag = vector::magnitude(&nv);
        let ghost mag_m = frac_sqrt(canon(fdot(nv_m, nv_m)));
        proof {
            assert(frac_eq(mag@, mag_m));
            lemma_eq_sign(mag@, mag_m);
        }
        if mag.is_zero() {
            return RaytraceWithNorm { raytrace: base, n: None };
        }
        let w = vector::div_each(&nv, &mag);
        proof {
            let raw = Seq::new(nv_m.len(), |i: int| frac_div(nv_m[i], mag_m));
            lemma_wf_pos(nv_m);
            assert forall|j: int| 0 <= j < nv_m.len() implies frac_eq(
                #[trigger] vvals(w@)[j],
                raw[j],
            ) by {
                lemma_div_cong(nv_m[j], nv_m[j], mag@, mag_m);
                lemma_den_nz(nv_m[j], mag@);
                lemma_frac_eq_trans(vvals(w@)[j], frac_div(nv_m[j], mag@), raw[j]);
            }
            assert forall|j: int| 0 <= j < raw.len() implies (#[trigger] raw[j]).d != 0 by {
                lemma_den_nz(nv_m[j], mag_m);
            }
            lemma_vec_wf_vals(w@);
            lemma_canon_seq_eq(vvals(w@), raw);
        }
        RaytraceWithNorm { raytrace: base, n: Some(w) }
    }
}

} // verus!
