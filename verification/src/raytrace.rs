//! Intersection results: a hit distance, and optionally the surface normal.
//!
//! A distance of plus infinity denotes a miss.  A result that was asked for a
//! normal but carries none also counts as a miss: this guards against solvers
//! that found a numeric distance but could not classify the surface.

use vstd::prelude::*;

use crate::rational::{ext_lt, inf_frac, Frac};
use crate::scalar::Scalar;
use crate::vector::{vec_wf, vvals};

verus! {

/// The outcome of testing one ray against one shape: the hit distance alone.
pub struct Raytrace {
    /// The parametric hit distance; plus infinity on a miss.
    pub t: Scalar,
}

/// Whether a distance value denotes a hit: finite and not negative.
pub open spec fn frac_hit(t: Frac) -> bool {
    t.d != 0 && t.n >= 0
}

impl Raytrace {
    pub open spec fn wf(self) -> bool {
        self.t.wf()
    }

    pub open spec fn hit(self) -> bool {
        frac_hit(self.t@)
    }

    /// The missing result: its distance is plus infinity.
    pub fn miss() -> (r: Raytrace)
        ensures
            r.wf(),
            r.t@ == inf_frac(),
            !r.hit(),
    {
        Raytrace { t: Scalar::infinity() }
    }

    pub fn new(t: Scalar) -> (r: Raytrace)
        requires
            t.wf(),
        ensures
            r.wf(),
            r.t == t,
    {
        Raytrace { t }
    }

    pub fn is_hit(&self) -> (r: bool)
        requires
            self.wf(),
        ensures
            r == self.hit(),
    {
        self.t.is_finite() && self.t.is_nonneg()
    }

    pub fn is_miss(&self) -> (r: bool)
        requires
            self.wf(),
        ensures
            r == !self.hit(),
    {
        !self.is_hit()
    }

    /// Attaches a normal: kept only when the result is a hit.
    pub fn with_norm(self, n: Vec<Scalar>) -> (r: RaytraceWithNorm)
        requires
            self.wf(),
            vec_wf(n@),
        ensures
            r.raytrace == self,
            r.n == (if self.hit() {
                Some(n)
            } else {
                None
            }),
    {
        let keep = self.is_hit();
        RaytraceWithNorm {
            raytrace: self,
            n: if keep {
                Some(n)
            } else {
                None
            },
        }
    }

    /// The operand with the smaller distance; ties keep the left operand,
    /// and infinity sorts after every finite distance.
    pub fn min(self, rhs: Raytrace) -> (r: Raytrace)
        requires
            self.wf(),
            rhs.wf(),
        ensures
            r.wf(),
            r == (if ext_lt(rhs.t@, self.t@) {
                rhs
            } else {
                self
            }),
    {
        if rhs.t.lt_ext(&self.t) {
            rhs
        } else {
            self
        }
    }

    /// The operand with the larger distance; ties keep the left operand.
    pub fn max(self, rhs: Raytrace) -> (r: Raytrace)
        requires
            self.wf(),
            rhs.wf(),
        ensures
            r.wf(),
            r == (if ext_lt(self.t@, rhs.t@) {
                rhs
            } else {
                self
            }),
    {
        if self.t.lt_ext(&rhs.t) {
            rhs
        } else {
            self
        }
    }
}

/// The outcome of testing one ray against one shape, with the surface normal
/// at the hit point when one was found.
pub struct RaytraceWithNorm {
    pub raytrace: Raytrace,
    /// The normal at the hit point, oriented against the incoming ray.
    pub n: Option<Vec<Scalar>>,
}

impl RaytraceWithNorm {
    pub open spec fn wf(self, dim: nat) -> bool {
        &&& self.raytrace.wf()
        &&& (match self.n {
            Some(v) => vec_wf(v@) && v@.len() == dim,
            None => true,
        })
    }

    /// A result is a hit only when it also carries its normal.
    pub open spec fn hit(self) -> bool {
        self.raytrace.hit() && self.n is Some
    }

    /// The fractions of the carried normal.
    pub open spec fn norm_vals(self) -> Option<Seq<Frac>> {
        match self.n {
            Some(v) => Some(vvals(v@)),
            None => None,
        }
    }

    pub fn miss() -> (r: RaytraceWithNorm)
        ensures
            r.wf(0),
            r.raytrace.t@ == inf_frac(),
            r.n is None,
            !r.hit(),
    {
        RaytraceWithNorm { raytrace: Raytrace::miss(), n: None }
    }

    pub fn is_hit(&self) -> (r: bool)
        requires
            self.raytrace.wf(),
        ensures
            r == self.hit(),
    {
        let base = self.raytrace.is_hit();
        base && self.n.is_some()
    }

    pub fn is_miss(&self) -> (r: bool)
        requires
            self.raytrace.wf(),
        ensures
            r == !self.hit(),
    {
        !self.is_hit()
    }

    /// The same result without its normal.
    pub fn without_norm(&self) -> (r: Raytrace)
        requires
            self.raytrace.wf(),
        ensures
            r.wf(),
            r.t@ == self.raytrace.t@,
            r.hit() == self.raytrace.hit(),
    {
        Raytrace { t: self.raytrace.t.dup() }
    }

    /// Applies `map` to the carried normal, if there is one.
    pub fn map_norm<F: FnOnce(Vec<Scalar>) -> Vec<Scalar>>(self, map: F) -> (r: RaytraceWithNorm)
        requires
            (match self.n {
                Some(v) => call_requires(map, (v,)),
                None => true,
            }),
        ensures
            r.raytrace == self.raytrace,
            self.n is None ==> r.n is None,
            (match (self.n, r.n) {
                (Some(v), Some(w)) => call_ensures(map, (v,), w),
                (None, None) => true,
                _ => false,
            }),
    {
        let RaytraceWithNorm { raytrace, n } = self;
        RaytraceWithNorm {
            raytrace,
            n: match n {
                Some(v) => Some(map(v)),
                None => None,
            },
        }
    }

    /// The operand with the smaller distance; ties keep the left operand.
    pub fn min(self, rhs: RaytraceWithNorm) -> (r: RaytraceWithNorm)
        requires
            self.raytrace.wf(),
            rhs.raytrace.wf(),
        ensures
            r == (if ext_lt(rhs.raytrace.t@, self.raytrace.t@) {
                rhs
            } else {
                self
            }),
    {
        if rhs.raytrace.t.lt_ext(&self.raytrace.t) {
            rhs
        } else {
            self
        }
    }

    /// The operand with the larger distance; ties keep the left operand.
    pub fn max(self, rhs: RaytraceWithNorm) -> (r: RaytraceWithNorm)
        requires
            self.raytrace.wf(),
            rhs.raytrace.wf(),
        ensures
            r == (if ext_lt(self.raytrace.t@, rhs.raytrace.t@) {
                rhs
            } else {
                self
            }),
    {
        if self.raytrace.t.lt_ext(&rhs.raytrace.t) {
            rhs
        } else {
            self
        }
    }
}

} // verus!
