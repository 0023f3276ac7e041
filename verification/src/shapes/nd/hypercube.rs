//! The hypercube: a center and a half-width, in any dimension.  It answers
//! queries as the axis-aligned box whose corners are `center - radius` and
//! `center + radius` on every axis.

use vstd::prelude::*;

use crate::ray::{Ray, RayV};
use crate::rational::{frac_add, frac_le, frac_sub, lemma_canon_eq, lemma_den_nz,
    lemma_lt_cong, Frac};
use crate::raytrace::{Raytrace, RaytraceWithNorm};
use crate::scalar::Scalar;
use crate::shapes::nd::hyperrectangle::{box_normal, box_t, HyperRectangle};
use crate::shapes::Shape;
use crate::vector::{canon_seq, lemma_vec_wf_vals, vec_wf, vvals};

verus! {

/// A cube of any dimension: its center and its half-width.
pub struct HyperCube {
    /// The center point.
    pub center: Vec<Scalar>,
    /// Half the side length; positive.
    pub radius: Scalar,
}

/// The low corner: the center less the radius on every axis.
pub open spec fn cube_c1(c: Seq<Frac>, rad: Frac) -> Seq<Frac> {
    canon_seq(Seq::new(c.len(), |i: int| frac_sub(c[i], rad)))
}

/// The high corner: the center plus the radius on every axis.
pub open spec fn cube_c2(c: Seq<Frac>, rad: Frac) -> Seq<Frac> {
    canon_seq(Seq::new(c.len(), |i: int| frac_add(c[i], rad)))
}

impl HyperCube {
    pub open spec fn dim(self) -> nat {
        self.center@.len()
    }

    pub fn new(center: Vec<Scalar>, radius: Scalar) -> (s: HyperCube)
        requires
            vec_wf(center@),
            radius.wf(),
            radius.is_fin(),
            radius@.n > 0,
        ensures
            s.wf(),
            s.center == center,
            s.radius == radius,
    {
        HyperCube { center, radius }
    }

    /// The box with the same extent.
    pub fn to_rectangle(&self) -> (r: HyperRectangle)
        requires
            self.wf(),
        ensures
            r.wf(),
            r.c1@.len() == self.dim(),
            vvals(r.c1@) == cube_c1(vvals(self.center@), self.radius@),
            vvals(r.c2@) == cube_c2(vvals(self.center@), self.radius@),
    {
        let ghost cv = vvals(self.center@);
        let ghost rad = self.radius@;
        let mut lo: Vec<Scalar> = Vec::new();
        let mut hi: Vec<Scalar> = Vec::new();
        let mut i: usize = 0;
        while i < self.center.len()
            invariant
                self.wf(),
                cv == vvals(self.center@),
                rad == self.radius@,
                i <= self.center@.len(),
                vec_wf(lo@),
                vec_wf(hi@),
                lo@.len() == i,
                hi@.len() == i,
                forall|p: int| 0 <= p < i as int ==> #[trigger] vvals(lo@)[p] == cube_c1(cv, rad)[p]
                    && vvals(hi@)[p] == cube_c2(cv, rad)[p] && frac_le(
                    vvals(lo@)[p],
                    vvals(hi@)[p],
                ),
            decreases self.center@.len() - i,
        {
            proof {
                lemma_vec_wf_vals(self.center@);
                assert(cv[i as int] == self.center@[i as int]@);
            }
            let a = self.center[i].sub(&self.radius);
            let b = self.center[i].add(&self.radius);
            proof {
                lemma_den_nz(cv[i as int], rad);
                lemma_canon_eq(frac_sub(cv[i as int], rad), a@);
                lemma_canon_eq(frac_add(cv[i as int], rad), b@);
                assert(frac_le(frac_sub(cv[i as int], rad), frac_add(cv[i as int], rad)))
                    by (nonlinear_arith)
                    requires
                        cv[i as int].d >= 1,
                        rad.d >= 1,
                        rad.n > 0,
                ;
                lemma_lt_cong(a@, frac_sub(cv[i as int], rad), b@, frac_add(cv[i as int], rad));
            }
            let ghost lo0 = lo@;
            let ghost hi0 = hi@;
            lo.push(a);
            hi.push(b);
            proof {
                assert forall|p: int| 0 <= p < i as int + 1 implies #[trigger] vvals(lo@)[p]
                    == cube_c1(cv, rad)[p] && vvals(hi@)[p] == cube_c2(cv, rad)[p] && frac_le(
                    vvals(lo@)[p],
                    vvals(hi@)[p],
                ) by {
                    if p < i as int {
                        assert(vvals(lo@)[p] == vvals(lo0)[p]);
                        assert(vvals(hi@)[p] == vvals(hi0)[p]);
                    } else {
                        assert(vvals(lo@)[p] == a@);
                        assert(vvals(hi@)[p] == b@);
                    }
                }
            }
            i += 1;
        }
        proof {
            assert forall|p: int| 0 <= p < self.center@.len() implies vvals(hi@)[p] == cube_c2(
                cv,
                rad,
            )[p] && vvals(lo@)[p] == cube_c1(cv, rad)[p] by {
                assert(vvals(lo@)[p] == cube_c1(cv, rad)[p]);
            }
            assert(vvals(lo@) =~= cube_c1(cv, rad));
            assert(vvals(hi@) =~= cube_c2(cv, rad));
        }
        HyperRectangle { c1: lo, c2: hi }
    }
}

impl Shape for HyperCube {
    open spec fn wf(&self) -> bool {
        vec_wf(self.center@) && self.radius.wf() && self.radius.is_fin() && self.radius@.n > 0
    }

    open spec fn fits(&self, dim: nat) -> bool {
        dim == self.center@.len()
    }

    open spec fn spec_raytrace(&self, ray: RayV) -> Frac {
        box_t(
            cube_c1(vvals(self.center@), self.radius@),
            cube_c2(vvals(self.center@), self.radius@),
            ray,
        )
    }

    open spec fn spec_normal(&self, ray: RayV) -> Option<Seq<Frac>> {
        box_normal(
            cube_c1(vvals(self.center@), self.radius@),
            cube_c2(vvals(self.center@), self.radius@),
            ray,
        )
    }

    fn raytrace(&self, ray: &Ray) -> (r: Raytrace) {
        let rect = self.to_rectangle();
        rect.raytrace(ray)
    }

    fn raytrace_with_norm(&self, ray: &Ray) -> (r: RaytraceWithNorm) {
        let rect = self.to_rectangle();
        rect.raytrace_with_norm(ray)
    }
}

} // verus!
