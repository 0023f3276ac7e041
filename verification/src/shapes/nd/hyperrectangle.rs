//! The axis-aligned hyperrectangle: two opposite corners, in any dimension.
//!
//! The solver is a slab test: for each axis with a nonzero ray-direction
//! component it tries the low and the high face, accepts a candidate when the
//! propagated point lies within every other axis's extent (exactly: the exact
//! arithmetic needs no tolerance), and keeps the smallest accepted parameter.
//! The normal is the winning axis's unit vector, signed outward, or inward
//! when the ray origin started inside the box (decided once per query).

use vstd::prelude::*;

use crate::ray::{fprop, Ray, RayV};
use crate::rational::{canon, ext_lt, frac_div, frac_int, frac_le, frac_sub, frac_zero,
    inf_frac, lemma_canon_eq, lemma_den_nz, lemma_div_cong, lemma_frac_eq_trans, Frac};
use crate::raytrace::{frac_hit, Raytrace, RaytraceWithNorm};
use crate::scalar::Scalar;
use crate::shapes::Shape;
use crate::vector::{canon_seq, lemma_canon_seq_eq, lemma_seq_ops_nz, lemma_vec_wf_vals,
    vec_wf, vvals};

verus! {

/// An axis-aligned box: its two opposite corners.
pub struct HyperRectangle {
    /// The corner with the smaller coordinate on every axis.
    pub c1: Vec<Scalar>,
    /// The corner with the larger coordinate on every axis.
    pub c2: Vec<Scalar>,
}

/// Whether the point `x` lies within the box's extent on every axis but `k`.
pub open spec fn slab_ok(c1: Seq<Frac>, c2: Seq<Frac>, x: Seq<Frac>, k: int) -> bool {
    forall|j: int| 0 <= j < c1.len() && j != k ==> frac_le(#[trigger] c1[j], x[j]) && frac_le(
        x[j],
        c2[j],
    )
}

/// Whether the point `o` lies within the box on every axis.
pub open spec fn box_inside(c1: Seq<Frac>, c2: Seq<Frac>, o: Seq<Frac>) -> bool {
    forall|j: int| 0 <= j < c1.len() ==> frac_le(#[trigger] c1[j], o[j]) && frac_le(o[j], c2[j])
}

/// The accepted hit parameter of one face, if any: axis `i`, low or high
/// face.  A candidate needs a nonzero direction component, a nonnegative
/// parameter, and (unless the origin is inside) containment on the other axes.
pub open spec fn box_cand(
    c1: Seq<Frac>,
    c2: Seq<Frac>,
    ray: RayV,
    inside: bool,
    i: int,
    low: bool,
) -> Option<Frac> {
    if ray.v[i].n == 0 {
        None
    } else {
        let c = if low {
            c1[i]
        } else {
            c2[i]
        };
        let t = canon(frac_div(frac_sub(c, ray.r[i]), ray.v[i]));
        if t.n >= 0 && (inside || slab_ok(c1, c2, canon_seq(fprop(ray, t)), i)) {
            Some(t)
        } else {
            None
        }
    }
}

/// The best (smallest-parameter) accepted face among the axes below `k`,
/// trying each axis's low face before its high face: the parameter, and the
/// winning axis with its face.
pub open spec fn box_scan(c1: Seq<Frac>, c2: Seq<Frac>, ray: RayV, inside: bool, k: nat) -> (
    Frac,
    Option<(int, bool)>,
)
    decreases k,
{
    if k == 0 {
        (inf_frac(), None::<(int, bool)>)
    } else {
        let prev = box_scan(c1, c2, ray, inside, (k - 1) as nat);
        let i = k - 1;
        let lo = box_cand(c1, c2, ray, inside, i, true);
        let mid = if lo is Some && ext_lt(lo->0, prev.0) {
            (lo->0, Some((i, true)))
        } else {
            prev
        };
        let hi = box_cand(c1, c2, ray, inside, i, false);
        if hi is Some && ext_lt(hi->0, mid.0) {
            (hi->0, Some((i, false)))
        } else {
            mid
        }
    }
}

/// The distance a hyperrectangle reports.
pub open spec fn box_t(c1: Seq<Frac>, c2: Seq<Frac>, ray: RayV) -> Frac {
    box_scan(c1, c2, ray, box_inside(c1, c2, ray.r), c1.len()).0
}

/// The unit vector of axis `i` among `dim` axes, with the given sign.
pub open spec fn axis_unit(dim: nat, i: int, positive: bool) -> Seq<Frac> {
    Seq::new(
        dim,
        |j: int|
            if j == i {
                if positive {
                    frac_int(1)
                } else {
                    frac_int(-1)
                }
            } else {
                frac_zero()
            },
    )
}

/// The normal a hyperrectangle reports: the winning face's axis unit vector,
/// outward, or inward when the ray origin started inside.
pub open spec fn box_normal(c1: Seq<Frac>, c2: Seq<Frac>, ray: RayV) -> Option<Seq<Frac>> {
    let inside = box_inside(c1, c2, ray.r);
    match box_scan(c1, c2, ray, inside, c1.len()).1 {
        Some((i, low)) => Some(axis_unit(c1.len(), i, low == inside)),
        None => None,
    }
}

/// A face accepted by the scan carries a hit parameter.
proof fn lemma_box_scan_hit(c1: Seq<Frac>, c2: Seq<Frac>, ray: RayV, inside: bool, k: nat)
    ensures
        box_scan(c1, c2, ray, inside, k).1 is Some ==> frac_hit(box_scan(c1, c2, ray, inside, k).0),
    decreases k,
{
    if k != 0 {
        lemma_box_scan_hit(c1, c2, ray, inside, (k - 1) as nat);
    }
}

impl HyperRectangle {
    pub open spec fn dim(self) -> nat {
        self.c1@.len()
    }

    /// Whether the ray origin lies inside the box.
    fn origin_inside(&self, ray: &Ray) -> (r: bool)
        requires
            self.wf(),
            ray.wf(),
            self.fits(ray.dim()),
        ensures
            r == box_inside(vvals(self.c1@), vvals(self.c2@), ray@.r),
    {
        let mut j: usize = 0;
        while j < self.c1.len()
            invariant
                self.wf(),
                ray.wf(),
                self.fits(ray.dim()),
                j <= self.c1@.len(),
                forall|i: int| 0 <= i < j as int ==> frac_le(
                    #[trigger] vvals(self.c1@)[i],
                    ray@.r[i],
                ) && frac_le(ray@.r[i], vvals(self.c2@)[i]),
            decreases self.c1@.len() - j,
        {
            proof {
                assert(vvals(self.c1@)[j as int] == self.c1@[j as int]@);
                assert(vvals(self.c2@)[j as int] == self.c2@[j as int]@);
                assert(ray@.r[j as int] == ray.r@[j as int]@);
            }
            if !(self.c1[j].le(&ray.r[j]) && ray.r[j].le(&self.c2[j])) {
                return false;
            }
            j += 1;
        }
        true
    }

    /// Whether the point `x` lies within the box's extent on every axis but `k`.
    fn other_axes_ok(&self, x: &Vec<Scalar>, k: usize) -> (r: bool)
        requires
            self.wf(),
            vec_wf(x@),
            x@.len() == self.c1@.len(),
        ensures
            r == slab_ok(vvals(self.c1@), vvals(self.c2@), vvals(x@), k as int),
    {
        let mut j: usize = 0;
        while j < self.c1.len()
            invariant
                self.wf(),
                vec_wf(x@),
                x@.len() == self.c1@.len(),
                j <= self.c1@.len(),
                forall|i: int| 0 <= i < j as int && i != k as int ==> frac_le(
                    #[trigger] vvals(self.c1@)[i],
                    vvals(x@)[i],
                ) && frac_le(vvals(x@)[i], vvals(self.c2@)[i]),
            decreases self.c1@.len() - j,
        {
            proof {
                assert(vvals(self.c1@)[j as int] == self.c1@[j as int]@);
                assert(vvals(self.c2@)[j as int] == self.c2@[j as int]@);
                assert(vvals(x@)[j as int] == x@[j as int]@);
            }
            if j != k {
                if !(self.c1[j].le(&x[j]) && x[j].le(&self.c2[j])) {
                    return false;
                }
            }
            proof {
                assert forall|i: int|
                    0 <= i < j as int + 1 && i != k as int implies frac_le(
                    #[trigger] vvals(self.c1@)[i],
                    vvals(x@)[i],
                ) && frac_le(vvals(x@)[i], vvals(self.c2@)[i]) by {
                    if i == j as int {
                        assert(frac_le(vvals(self.c1@)[i], vvals(x@)[i]));
                    }
                }
            }
            j += 1;
        }
        true
    }

    /// One face's accepted candidate, if any.
    fn face_cand(&self, ray: &Ray, inside: bool, k: usize, low: bool) -> (r: Option<Scalar>)
        requires
            self.wf(),
            ray.wf(),
            self.fits(ray.dim()),
            k < self.c1@.len(),
            inside == box_inside(vvals(self.c1@), vvals(self.c2@), ray@.r),
        ensures
            (match r {
                Some(t) => {
                    &&& t.wf()
                    &&& t.is_fin()
                    &&& box_cand(
                        vvals(self.c1@),
                        vvals(self.c2@),
                        ray@,
                        inside,
                        k as int,
                        low,
                    ) == Some(t@)
                },
                None => box_cand(
                    vvals(self.c1@),
                    vvals(self.c2@),
                    ray@,
                    inside,
                    k as int,
                    low,
                ) is None,
            }),
    {
        let ghost c1v = vvals(self.c1@);
        let ghost c2v = vvals(self.c2@);
        proof {
            lemma_vec_wf_vals(self.c1@);
            lemma_vec_wf_vals(self.c2@);
            lemma_vec_wf_vals(ray.r@);
            lemma_vec_wf_vals(ray.v@);
        }
        if ray.v[k].is_zero() {
            return None;
        }
        let corner = if low {
            &self.c1
        } else {
            &self.c2
        };
        let diff = corner[k].sub(&ray.r[k]);
        let t = diff.div(&ray.v[k]);
        let ghost cm = if low {
            c1v[k as int]
        } else {
            c2v[k as int]
        };
        let ghost t_m = frac_div(frac_sub(cm, ray@.r[k as int]), ray@.v[k as int]);
        proof {
            lemma_den_nz(cm, ray@.r[k as int]);
            let vk = ray@.v[k as int];
            lemma_div_cong(diff@, frac_sub(cm, ray@.r[k as int]), vk, vk);
            lemma_den_nz(diff@, ray@.v[k as int]);
            lemma_frac_eq_trans(t@, frac_div(diff@, ray@.v[k as int]), t_m);
            lemma_den_nz(frac_sub(cm, ray@.r[k as int]), ray@.v[k as int]);
            lemma_canon_eq(t_m, t@);
        }
        if !t.is_nonneg() {
            return None;
        }
        if inside {
            return Some(t);
        }
        let x = ray.propagate(&t);
        proof {
            lemma_vec_wf_vals(x@);
            lemma_seq_ops_nz(ray@.v, ray@.v, t@);
            lemma_seq_ops_nz(ray@.r, crate::vector::fscale(t@, ray@.v), frac_zero());
            lemma_canon_seq_eq(vvals(x@), fprop(ray@, t@));
        }
        if self.other_axes_ok(&x, k) {
            Some(t)
        } else {
            None
        }
    }

    /// The scan over all faces: the least accepted parameter and the winning
    /// face.
    fn solve(&self, ray: &Ray) -> (r: (Raytrace, Option<(usize, bool)>))
        requires
            self.wf(),
            ray.wf(),
            self.fits(ray.dim()),
        ensures
            r.0.wf(),
            r.0.t@ == box_t(vvals(self.c1@), vvals(self.c2@), ray@),
            (match r.1 {
                Some((i, low)) => box_scan(
                    vvals(self.c1@),
                    vvals(self.c2@),
                    ray@,
                    box_inside(vvals(self.c1@), vvals(self.c2@), ray@.r),
                    self.c1@.len(),
                ).1 == Some((i as int, low)) && (i as int) < self.c1@.len(),
                None => box_scan(
                    vvals(self.c1@),
                    vvals(self.c2@),
                    ray@,
                    box_inside(vvals(self.c1@), vvals(self.c2@), ray@.r),
                    self.c1@.len(),
                ).1 is None,
            }),
    {
        let ghost c1v = vvals(self.c1@);
        let ghost c2v = vvals(self.c2@);
        let inside = self.origin_inside(ray);
        let ghost scan_of = |k: int| box_scan(c1v, c2v, ray@, inside, k as nat);
        let mut tmin = Raytrace::miss();
        let mut best: Option<(usize, bool)> = None;
        let mut k: usize = 0;
        while k < self.c1.len()
            invariant
                self.wf(),
                ray.wf(),
                self.fits(ray.dim()),
                k <= self.c1@.len(),
                c1v == vvals(self.c1@),
                c2v == vvals(self.c2@),
                inside == box_inside(c1v, c2v, ray@.r),
                tmin.wf(),
                tmin.t@ == box_scan(c1v, c2v, ray@, inside, k as nat).0,
                (match best {
                    Some((i, low)) => box_scan(c1v, c2v, ray@, inside, k as nat).1 == Some(
                        (i as int, low),
                    ) && (i as int) < k as int,
                    None => box_scan(c1v, c2v, ray@, inside, k as nat).1 is None,
                }),
            decreases self.c1@.len() - k,
        {
            let ghost prev = box_scan(c1v, c2v, ray@, inside, k as nat);
            let lo = self.face_cand(ray, inside, k, true);
            match lo {
                Some(t) => {
                    if t.lt_ext(&tmin.t) {
                        tmin = Raytrace::new(t);
                        best = Some((k, true));
                    }
                },
                None => {},
            }
            let ghost mid = {
                let lo_m = box_cand(c1v, c2v, ray@, inside, k as int, true);
                if lo_m is Some && ext_lt(lo_m->0, prev.0) {
                    (lo_m->0, Some((k as int, true)))
                } else {
                    prev
                }
            };
            proof {
                assert(tmin.t@ == mid.0);
            }
            let hi = self.face_cand(ray, inside, k, false);
            match hi {
                Some(t) => {
                    if t.lt_ext(&tmin.t) {
                        tmin = Raytrace::new(t);
                        best = Some((k, false));
                    }
                },
                None => {},
            }
            proof {
                assert(box_scan(c1v, c2v, ray@, inside, k as nat + 1).0 == tmin.t@);
            }
            k += 1;
        }
        (tmin, best)
    }
}

impl Shape for HyperRectangle {
    open spec fn wf(&self) -> bool {
        &&& vec_wf(self.c1@)
        &&& vec_wf(self.c2@)
        &&& self.c1@.len() == self.c2@.len()
        &&& forall|i: int| 0 <= i < self.c1@.len() ==> frac_le(
            #[trigger] vvals(self.c1@)[i],
            vvals(self.c2@)[i],
        )
    }

    open spec fn fits(&self, dim: nat) -> bool {
        dim == self.c1@.len()
    }

    open spec fn spec_raytrace(&self, ray: RayV) -> Frac {
        box_t(vvals(self.c1@), vvals(self.c2@), ray)
    }

    open spec fn spec_normal(&self, ray: RayV) -> Option<Seq<Frac>> {
        box_normal(vvals(self.c1@), vvals(self.c2@), ray)
    }

    fn raytrace(&self, ray: &Ray) -> (r: Raytrace) {
        let (t, _) = self.solve(ray);
        t
    }

    fn raytrace_with_norm(&self, ray: &Ray) -> (r: RaytraceWithNorm) {
        let inside = self.origin_inside(ray);
        let (t, best) = self.solve(ray);
        match best {
            Some((i, low)) => {
                let w = axis_unit_vec(self.c1.len(), i, low == inside);
                proof {
                    lemma_box_scan_hit(
                        vvals(self.c1@),
                        vvals(self.c2@),
                        ray@,
                        box_inside(vvals(self.c1@), vvals(self.c2@), ray@.r),
                        self.c1@.len(),
                    );
                }
                RaytraceWithNorm { raytrace: t, n: Some(w) }
            },
            None => RaytraceWithNorm { raytrace: t, n: None },
        }
    }
}

/// The unit vector of axis `i`, as exact scalars.
fn axis_unit_vec(dim: usize, i: usize, positive: bool) -> (r: Vec<Scalar>)
    requires
        i < dim,
    ensures
        vec_wf(r@),
        r@.len() == dim,
        vvals(r@) == axis_unit(dim as nat, i as int, positive),
{
    let mut r: Vec<Scalar> = Vec::new();
    let mut j: usize = 0;
    while j < dim
        invariant
            i < dim,
            j <= dim,
            vec_wf(r@),
            r@.len() == j,
            forall|q: int| 0 <= q < j as int ==> vvals(r@)[q] == axis_unit(
                dim as nat,
                i as int,
                positive,
            )[q],
        decreases dim - j,
    {
        let x = if j == i {
            if positive {
                Scalar::from_int(1)
            } else {
                Scalar::from_int(-1)
            }
        } else {
            Scalar::zero()
        };
        let ghost r0 = r@;
        r.push(x);
        proof {
            assert forall|q: int| 0 <= q < j as int + 1 implies vvals(r@)[q] == axis_unit(
                dim as nat,
                i as int,
                positive,
            )[q] by {
                if q < j as int {
                    assert(vvals(r@)[q] == vvals(r0)[q]);
                } else {
                    assert(vvals(r@)[q] == x@);
                }
            }
        }
        j += 1;
    }
    proof {
        assert(vvals(r@) =~= axis_unit(dim as nat, i as int, positive));
    }
    r
}

} // verus!
