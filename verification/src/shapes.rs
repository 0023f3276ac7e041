//! The shape capability and its implementations.
//!
//! A shape answers one question: where does a ray first hit it?  `raytrace`
//! reports the closest forward intersection distance (plus infinity on a
//! miss); `raytrace_with_norm` also reports the surface normal at the hit
//! point, oriented against the incoming ray.  Any ordered collection of
//! shapes is itself a shape whose answer is the minimum-distance hit among
//! its members.

use vstd::prelude::*;

use crate::ray::{Ray, RayV};
use crate::rational::{ext_lt, inf_frac, Frac};
use crate::raytrace::{frac_hit, Raytrace, RaytraceWithNorm};

pub mod _2d;
pub mod _3d;
pub mod nd;
mod transform;

pub use transform::Transform;

verus! {

/// The capability of a geometric shape: report the closest forward
/// intersection of a ray, optionally with the surface normal there.
pub trait Shape: Sized {
    /// The shape's internal invariant.
    spec fn wf(&self) -> bool;

    /// Whether the shape lives in a space of `dim` dimensions.
    spec fn fits(&self, dim: nat) -> bool;

    /// The distance that `raytrace` reports: a canonical nonnegative
    /// fraction on a hit, plus infinity on a miss.
    spec fn spec_raytrace(&self, ray: RayV) -> Frac;

    /// The normal that `raytrace_with_norm` reports, when it reports one.
    spec fn spec_normal(&self, ray: RayV) -> Option<Seq<Frac>>;

    /// The closest forward intersection distance; plus infinity on a miss.
    fn raytrace(&self, ray: &Ray) -> (r: Raytrace)
        requires
            self.wf(),
            ray.wf(),
            self.fits(ray.dim()),
        ensures
            r.wf(),
            r.t@ == self.spec_raytrace(ray@),
    ;

    /// The closest forward intersection distance, with the surface normal at
    /// the hit point.  A normal is reported only on a hit.
    fn raytrace_with_norm(&self, ray: &Ray) -> (r: RaytraceWithNorm)
        requires
            self.wf(),
            ray.wf(),
            self.fits(ray.dim()),
        ensures
            r.wf(ray.dim()),
            r.raytrace.t@ == self.spec_raytrace(ray@),
            r.norm_vals() == self.spec_normal(ray@),
            r.n is Some ==> frac_hit(self.spec_raytrace(ray@)),
    ;
}

/// The distance a composite reports: the minimum of its members' distances,
/// reduced left to right; the empty composite reports a miss.
pub open spec fn composite_t<S: Shape>(s: Seq<S>, ray: RayV) -> Frac
    decreases s.len(),
{
    if s.len() == 0 {
        inf_frac()
    } else {
        let prev = composite_t(s.drop_last(), ray);
        let last = s.last().spec_raytrace(ray);
        if ext_lt(last, prev) {
            last
        } else {
            prev
        }
    }
}

/// The result a composite reports with normals: the member result of least
/// distance, earlier members winning ties.
pub open spec fn composite_tn<S: Shape>(s: Seq<S>, ray: RayV) -> (Frac, Option<Seq<Frac>>)
    decreases s.len(),
{
    if s.len() == 0 {
        (inf_frac(), None::<Seq<Frac>>)
    } else {
        let prev = composite_tn(s.drop_last(), ray);
        let last = (s.last().spec_raytrace(ray), s.last().spec_normal(ray));
        if ext_lt(last.0, prev.0) {
            last
        } else {
            prev
        }
    }
}

/// The two composite reductions agree on the reported distance.
pub proof fn lemma_composite_tn_t<S: Shape>(s: Seq<S>, ray: RayV)
    ensures
        composite_tn(s, ray).0 == composite_t(s, ray),
    decreases s.len(),
{
    if s.len() != 0 {
        lemma_composite_tn_t(s.drop_last(), ray);
    }
}

/// Composite minimum: a two-member composite reports the smaller of its
/// members' distances (a tie keeps the first member), and the normal of the
/// member that won.  The hypotheses ask only that each member's reported
/// distance is a canonical fraction or plus infinity, which every shape in
/// this crate guarantees.
pub proof fn lemma_composite_pair<S: Shape>(v: Seq<S>, ray: RayV)
    requires
        v.len() == 2,
        crate::rational::ext_wf(v[0].spec_raytrace(ray)),
        crate::rational::ext_wf(v[1].spec_raytrace(ray)),
        v[0].spec_normal(ray) is Some ==> frac_hit(v[0].spec_raytrace(ray)),
        v[1].spec_normal(ray) is Some ==> frac_hit(v[1].spec_raytrace(ray)),
    ensures
        composite_t(v, ray) == (if ext_lt(v[1].spec_raytrace(ray), v[0].spec_raytrace(ray)) {
            v[1].spec_raytrace(ray)
        } else {
            v[0].spec_raytrace(ray)
        }),
        composite_tn(v, ray).1 == (if ext_lt(v[1].spec_raytrace(ray), v[0].spec_raytrace(ray)) {
            v[1].spec_normal(ray)
        } else {
            v[0].spec_normal(ray)
        }),
{
    let s1 = v.drop_last();
    assert(s1.len() == 1 && s1.last() == v[0]);
    assert(s1.drop_last().len() == 0);
    let t0 = v[0].spec_raytrace(ray);
    let t1 = v[1].spec_raytrace(ray);
    assert(composite_t(s1.drop_last(), ray) == inf_frac());
    assert(composite_tn(s1.drop_last(), ray).0 == inf_frac());
    if t0.d == 0 {
        assert(t0 == inf_frac());
    }
    lemma_composite_tn_t(s1, ray);
    lemma_composite_tn_t(v, ray);
}

/// An ordered collection of shapes is itself a shape: its intersection is
/// the minimum-distance hit among its members.
impl<S: Shape> Shape for Vec<S> {
    open spec fn wf(&self) -> bool {
        forall|i: int| 0 <= i < self@.len() ==> (#[trigger] self@[i]).wf()
    }

    open spec fn fits(&self, dim: nat) -> bool {
        forall|i: int| 0 <= i < self@.len() ==> (#[trigger] self@[i]).fits(dim)
    }

    open spec fn spec_raytrace(&self, ray: RayV) -> Frac {
        composite_t(self@, ray)
    }

    open spec fn spec_normal(&self, ray: RayV) -> Option<Seq<Frac>> {
        composite_tn(self@, ray).1
    }

    fn raytrace(&self, ray: &Ray) -> (r: Raytrace) {
        let mut acc = Raytrace::miss();
        let mut i: usize = 0;
        while i < self.len()
            invariant
                self.wf(),
                ray.wf(),
                self.fits(ray.dim()),
                i <= self@.len(),
                acc.wf(),
                acc.t@ == composite_t(self@.take(i as int), ray@),
            decreases self@.len() - i,
        {
            let cur = self[i].raytrace(ray);
            proof {
                assert(self@.take(i as int + 1).drop_last() =~= self@.take(i as int));
                assert(self@.take(i as int + 1).last() == self@[i as int]);
            }
            acc = acc.min(cur);
            i += 1;
        }
        proof {
            assert(self@.take(self@.len() as int) =~= self@);
        }
        acc
    }

    fn raytrace_with_norm(&self, ray: &Ray) -> (r: RaytraceWithNorm) {
        let mut acc = RaytraceWithNorm::miss();
        let mut i: usize = 0;
        while i < self.len()
            invariant
                self.wf(),
                ray.wf(),
                self.fits(ray.dim()),
                i <= self@.len(),
                acc.wf(ray.dim()),
                acc.raytrace.t@ == composite_tn(self@.take(i as int), ray@).0,
                acc.norm_vals() == composite_tn(self@.take(i as int), ray@).1,
                acc.n is Some ==> frac_hit(composite_tn(self@.take(i as int), ray@).0),
            decreases self@.len() - i,
        {
            let cur = self[i].raytrace_with_norm(ray);
            proof {
                assert(self@.take(i as int + 1).drop_last() =~= self@.take(i as int));
                assert(self@.take(i as int + 1).last() == self@[i as int]);
            }
            acc = acc.min(cur);
            i += 1;
        }
        proof {
            assert(self@.take(self@.len() as int) =~= self@);
            lemma_composite_tn_t(self@, ray@);
        }
        acc
    }
}

} // verus!
