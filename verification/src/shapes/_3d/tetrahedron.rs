//! The tetrahedron: a center and four face diameters.
//!
//! Its four vertices come from a fixed regular-tetrahedron template (the
//! alternating corners `(1,1,1)`, `(1,-1,-1)`, `(-1,1,-1)`, `(-1,-1,1)` of a
//! cube, which have exact rational coordinates), each scaled by half its own
//! diameter and offset by the center; four independent diameters allow
//! non-regular tetrahedra.  Face `i` is the plane through vertices `i`,
//! `i + 1`, `i + 2`; a face's hit counts only when the hit point lies on the
//! same side of each other face as that face's opposite vertex.  The normal
//! is the winning face's plane normal, unit-normalized, its sign flipped when
//! the ray origin started outside.

use vstd::prelude::*;

use crate::matrix::mvals;
use crate::ray::{fprop, Ray, RayV};
use crate::rational::{canon, ext_lt, frac_add, frac_div, frac_eq, frac_int, frac_mul,
    frac_neg, frac_nonneg, frac_sqrt, frac_sub, frac_zero, inf_frac, lemma_canon_eq, lemma_den_nz,
    lemma_div_cong, lemma_eq_sign, lemma_frac_eq_trans, lemma_nonneg_cong,
    Frac};
use crate::raytrace::{frac_hit, Raytrace, RaytraceWithNorm};
use crate::scalar::Scalar;
use crate::shapes::nd::hyperplane::{plane_t, HyperPlane};
use crate::shapes::Shape;
use crate::vector::{canon_seq, fcross, fdot, fsub, lemma_canon_seq_eq, lemma_fdot_cong,
    lemma_seq_ops_nz, lemma_vec_wf_vals, lemma_wf_pos, vec_wf, vvals};
use crate::vector;

verus! {

/// A tetrahedron: its center and its four face diameters.
pub struct Tetrahedron {
    /// The center point.
    pub center: Vec<Scalar>,
    /// The four diameters, one per vertex of the template.
    pub diameters: Vec<Scalar>,
}

/// The sign of template vertex `i` on axis `j`: the template vertices are the
/// even-parity corners of the cube, `(1,1,1)`, `(1,-1,-1)`, `(-1,1,-1)`,
/// `(-1,-1,1)`.
pub open spec fn tet_template_plus(i: int, j: int) -> bool {
    if i == 0 {
        true
    } else if i == 1 {
        j == 0
    } else if i == 2 {
        j == 1
    } else {
        j == 2
    }
}

/// Vertex `i`: the center offset by half the diameter along the template signs.
pub open spec fn tet_vertex(c: Seq<Frac>, di: Frac, i: int) -> Seq<Frac> {
    let h = canon(frac_div(di, frac_int(2)));
    Seq::new(
        3,
        |j: int|
            if tet_template_plus(i, j) {
                canon(frac_add(c[j], h))
            } else {
                canon(frac_sub(c[j], h))
            },
    )
}

/// The four vertices.
pub open spec fn tet_verts(c: Seq<Frac>, d: Seq<Frac>) -> Seq<Seq<Frac>> {
    Seq::new(4, |i: int| tet_vertex(c, d[i], i))
}

/// The normal of face `i`: the cross product of two of its edges.
pub open spec fn tet_face_pn(verts: Seq<Seq<Frac>>, i: int) -> Seq<Frac> {
    canon_seq(
        fcross(
            canon_seq(fsub(verts[(i + 1) % 4], verts[i])),
            canon_seq(fsub(verts[(i + 2) % 4], verts[i])),
        ),
    )
}

/// Whether `x` lies on the same side of face `j` as that face's opposite
/// vertex.
pub open spec fn tet_side_ok(verts: Seq<Seq<Frac>>, x: Seq<Frac>, j: int) -> bool {
    let n = tet_face_pn(verts, j);
    let v1 = verts[j];
    let vo = verts[(j + 3) % 4];
    frac_nonneg(fdot(n, fsub(vo, v1))) == frac_nonneg(fdot(n, fsub(x, v1)))
}

/// Whether `x` lies on the inner side of every face but `i`.
pub open spec fn tet_contains(verts: Seq<Seq<Frac>>, x: Seq<Frac>, i: int) -> bool {
    forall|j: int| 0 <= j < 4 && j != i ==> tet_side_ok(verts, x, j)
}

/// Whether the point `o` lies inside the tetrahedron.
pub open spec fn tet_inside(verts: Seq<Seq<Frac>>, o: Seq<Frac>) -> bool {
    forall|j: int| 0 <= j < 4 ==> tet_side_ok(verts, o, j)
}

/// The best accepted face among those below `k`: a face's plane hit counts
/// when it is strictly closer than everything before it and its hit point is
/// contained by the other three faces.
pub open spec fn tet_scan(verts: Seq<Seq<Frac>>, ray: RayV, k: nat) -> (Frac, Option<int>)
    decreases k,
{
    if k == 0 {
        (inf_frac(), None::<int>)
    } else {
        let prev = tet_scan(verts, ray, (k - 1) as nat);
        let i = k - 1;
        let pt = plane_t(verts[i], tet_face_pn(verts, i), ray);
        if frac_hit(pt) && ext_lt(pt, prev.0) && tet_contains(
            verts,
            canon_seq(fprop(ray, pt)),
            i,
        ) {
            (pt, Some(i))
        } else {
            prev
        }
    }
}

/// The unit normal of the winning face, pointed by whether the origin was
/// inside.
pub open spec fn tet_unit_normal(pn: Seq<Frac>, inside: bool) -> Option<Seq<Frac>> {
    let mag = frac_sqrt(canon(fdot(pn, pn)));
    if mag.n == 0 {
        None
    } else {
        let ms = if inside {
            mag
        } else {
            frac_neg(mag)
        };
        Some(canon_seq(Seq::new(pn.len(), |i: int| frac_div(pn[i], ms))))
    }
}

/// A face accepted by the scan carries a hit parameter.
proof fn lemma_tet_scan_hit(verts: Seq<Seq<Frac>>, ray: RayV, k: nat)
    ensures
        tet_scan(verts, ray, k).1 is Some ==> frac_hit(tet_scan(verts, ray, k).0),
        (match tet_scan(verts, ray, k).1 {
            Some(i) => 0 <= i < k as int,
            None => true,
        }),
    decreases k,
{
    if k != 0 {
        lemma_tet_scan_hit(verts, ray, (k - 1) as nat);
    }
}

/// The vertex list as a well-formed matrix of fractions.
pub open spec fn tet_rows_wf(vs: Seq<Vec<Scalar>>) -> bool {
    vs.len() == 4 && forall|i: int| 0 <= i < 4 ==> vec_wf((#[trigger] vs[i])@) && vs[i]@.len() == 3
}

impl Tetrahedron {
    pub fn new(center: Vec<Scalar>, diameters: Vec<Scalar>) -> (s: Tetrahedron)
        requires
            vec_wf(center@),
            center@.len() == 3,
            vec_wf(diameters@),
            diameters@.len() == 4,
        ensures
            s.wf(),
            s.center == center,
            s.diameters == diameters,
    {
        Tetrahedron { center, diameters }
    }

    /// The four vertices, as exact points.
    fn build_vertices(&self) -> (vs: Vec<Vec<Scalar>>)
        requires
            self.wf(),
        ensures
            tet_rows_wf(vs@),
            mvals(vs@) == tet_verts(vvals(self.center@), vvals(self.diameters@)),
    {
        let ghost cv = vvals(self.center@);
        let ghost dv = vvals(self.diameters@);
        let two = Scalar::from_int(2);
        let mut vs: Vec<Vec<Scalar>> = Vec::new();
        let mut i: usize = 0;
        while i < 4
            invariant
                self.wf(),
                cv == vvals(self.center@),
                dv == vvals(self.diameters@),
                two.wf(),
                two.is_fin(),
                two@ == frac_int(2),
                i <= 4,
                vs@.len() == i,
                forall|p: int| 0 <= p < i as int ==> vec_wf((#[trigger] vs@[p])@) && vs@[p]@.len()
                    == 3 && vvals(vs@[p]@) == tet_verts(cv, dv)[p],
            decreases 4 - i,
        {
            proof {
                lemma_vec_wf_vals(self.diameters@);
                assert(vvals(self.diameters@)[i as int] == self.diameters@[i as int]@);
            }
            let half = self.diameters[i].div(&two);
            proof {
                lemma_den_nz(dv[i as int], frac_int(2));
                lemma_canon_eq(frac_div(dv[i as int], frac_int(2)), half@);
            }
            let mut row: Vec<Scalar> = Vec::new();
            let mut j: usize = 0;
            while j < 3
                invariant
                    self.wf(),
                    cv == vvals(self.center@),
                    i < 4,
                    j <= 3,
                    half.wf(),
                    half.is_fin(),
                    half@ == canon(frac_div(vvals(self.diameters@)[i as int], frac_int(2))),
                    vec_wf(row@),
                    row@.len() == j,
                    forall|q: int| 0 <= q < j as int ==> vvals(row@)[q] == tet_vertex(
                        cv,
                        vvals(self.diameters@)[i as int],
                        i as int,
                    )[q],
                decreases 3 - j,
            {
                proof {
                    lemma_vec_wf_vals(self.center@);
                    assert(cv[j as int] == self.center@[j as int]@);
                }
                let plus = if i == 0 {
                    true
                } else if i == 1 {
                    j == 0
                } else if i == 2 {
                    j == 1
                } else {
                    j == 2
                };
                let x = if plus {
                    self.center[j].add(&half)
                } else {
                    self.center[j].sub(&half)
                };
                proof {
                    lemma_den_nz(cv[j as int], half@);
                    if plus {
                        lemma_canon_eq(frac_add(cv[j as int], half@), x@);
                    } else {
                        lemma_canon_eq(frac_sub(cv[j as int], half@), x@);
                    }
                }
                let ghost row0 = row@;
                row.push(x);
                proof {
                    assert forall|q: int| 0 <= q < j as int + 1 implies vvals(row@)[q]
                        == tet_vertex(cv, vvals(self.diameters@)[i as int], i as int)[q] by {
                        if q < j as int {
                            assert(vvals(row@)[q] == vvals(row0)[q]);
                        } else {
                            assert(vvals(row@)[q] == x@);
                        }
                    }
                }
                j += 1;
            }
            proof {
                assert(vvals(row@) =~= tet_vertex(cv, dv[i as int], i as int));
            }
            let ghost vs0 = vs@;
            vs.push(row);
            proof {
                assert forall|p: int| 0 <= p < i as int + 1 implies vec_wf((#[trigger] vs@[p])@)
                    && vs@[p]@.len() == 3 && vvals(vs@[p]@) == tet_verts(cv, dv)[p] by {
                    if p < i as int {
                        assert(vs@[p] == vs0[p]);
                    }
                }
            }
            i += 1;
        }
        proof {
            assert(mvals(vs@) =~= tet_verts(cv, dv));
        }
        vs
    }

    /// The plane of face `i`.
    fn face_plane(vs: &Vec<Vec<Scalar>>, i: usize) -> (hp: HyperPlane)
        requires
            tet_rows_wf(vs@),
            i < 4,
        ensures
            hp.wf(),
            hp.r@.len() == 3,
            vvals(hp.r@) == mvals(vs@)[i as int],
            vvals(hp.n@) == tet_face_pn(mvals(vs@), i as int),
    {
        let ghost vm = mvals(vs@);
        let ghost ii = i as int;
        let a = &vs[i];
        let b = &vs[(i + 1) % 4];
        let cc = &vs[(i + 2) % 4];
        proof {
            lemma_vec_wf_vals(a@);
            lemma_vec_wf_vals(b@);
            lemma_vec_wf_vals(cc@);
            assert(((i + 1) % 4) as int == (ii + 1) % 4);
            assert(((i + 2) % 4) as int == (ii + 2) % 4);
            assert(vvals(a@) == vm[ii]);
            assert(vvals(b@) == vm[(ii + 1) % 4]);
            assert(vvals(cc@) == vm[(ii + 2) % 4]);
        }
        let e1 = vector::sub(b, a);
        let e2 = vector::sub(cc, a);
        proof {
            lemma_vec_wf_vals(e1@);
            lemma_vec_wf_vals(e2@);
            lemma_seq_ops_nz(vvals(b@), vvals(a@), frac_zero());
            lemma_seq_ops_nz(vvals(cc@), vvals(a@), frac_zero());
            lemma_canon_seq_eq(vvals(e1@), fsub(vm[(ii + 1) % 4], vm[ii]));
            lemma_canon_seq_eq(vvals(e2@), fsub(vm[(ii + 2) % 4], vm[ii]));
        }
        let nc = vector::mul_cross(&e1, &e2);
        proof {
            lemma_vec_wf_vals(nc@);
            let raw = fcross(vvals(e1@), vvals(e2@));
            assert forall|j: int| 0 <= j < 3 implies (#[trigger] raw[j]).d != 0 by {
                lemma_den_nz(vvals(e1@)[1], vvals(e2@)[2]);
                lemma_den_nz(vvals(e1@)[2], vvals(e2@)[1]);
                lemma_den_nz(vvals(e1@)[2], vvals(e2@)[0]);
                lemma_den_nz(vvals(e1@)[0], vvals(e2@)[2]);
                lemma_den_nz(vvals(e1@)[0], vvals(e2@)[1]);
                lemma_den_nz(vvals(e1@)[1], vvals(e2@)[0]);
                lemma_den_nz(
                    frac_mul(vvals(e1@)[1], vvals(e2@)[2]),
                    frac_mul(vvals(e1@)[2], vvals(e2@)[1]),
                );
                lemma_den_nz(
                    frac_mul(vvals(e1@)[2], vvals(e2@)[0]),
                    frac_mul(vvals(e1@)[0], vvals(e2@)[2]),
                );
                lemma_den_nz(
                    frac_mul(vvals(e1@)[0], vvals(e2@)[1]),
                    frac_mul(vvals(e1@)[1], vvals(e2@)[0]),
                );
            }
            lemma_canon_seq_eq(vvals(nc@), raw);
        }
        let r0 = vector::dup_vec(&vs[i]);
        HyperPlane { r: r0, n: nc }
    }

    /// Whether `x` lies on the same side of face `j` as its opposite vertex.
    fn side_ok(vs: &Vec<Vec<Scalar>>, x: &Vec<Scalar>, j: usize) -> (r: bool)
        requires
            tet_rows_wf(vs@),
            vec_wf(x@),
            x@.len() == 3,
            j < 4,
        ensures
            r == tet_side_ok(mvals(vs@), vvals(x@), j as int),
    {
        let ghost vm = mvals(vs@);
        let ghost jj = j as int;
        let hp = Self::face_plane(vs, j);
        let v1 = &vs[j];
        let vo = &vs[(j + 3) % 4];
        proof {
            lemma_vec_wf_vals(v1@);
            lemma_vec_wf_vals(vo@);
            lemma_vec_wf_vals(x@);
            lemma_vec_wf_vals(hp.n@);
            assert(((j + 3) % 4) as int == (jj + 3) % 4);
            assert(vvals(v1@) == vm[jj]);
            assert(vvals(vo@) == vm[(jj + 3) % 4]);
        }
        let d1v = vector::sub(vo, v1);
        let d2v = vector::sub(x, v1);
        let d1 = vector::mul_dot(&hp.n, &d1v);
        let d2 = vector::mul_dot(&hp.n, &d2v);
        let ghost n_m = tet_face_pn(vm, jj);
        let ghost m1 = fdot(n_m, fsub(vm[(jj + 3) % 4], vm[jj]));
        let ghost m2 = fdot(n_m, fsub(vvals(x@), vm[jj]));
        proof {
            lemma_vec_wf_vals(d1v@);
            lemma_vec_wf_vals(d2v@);
            lemma_seq_ops_nz(vvals(vo@), vvals(v1@), frac_zero());
            lemma_seq_ops_nz(vvals(x@), vvals(v1@), frac_zero());
            lemma_fdot_cong(vvals(hp.n@), n_m, vvals(d1v@), fsub(vm[(jj + 3) % 4], vm[jj]));
            lemma_frac_eq_trans(d1@, fdot(vvals(hp.n@), vvals(d1v@)), m1);
            lemma_fdot_cong(vvals(hp.n@), n_m, vvals(d2v@), fsub(vvals(x@), vm[jj]));
            lemma_frac_eq_trans(d2@, fdot(vvals(hp.n@), vvals(d2v@)), m2);
            lemma_nonneg_cong(d1@, m1);
            lemma_nonneg_cong(d2@, m2);
            crate::rational::lemma_nonneg_canon(d1@);
            crate::rational::lemma_nonneg_canon(d2@);
        }
        let s1 = d1.is_nonneg();
        let s2 = d2.is_nonneg();
        s1 == s2
    }

    /// Whether `x` lies on the inner side of every face but `i`.
    fn contains(vs: &Vec<Vec<Scalar>>, x: &Vec<Scalar>, i: usize) -> (r: bool)
        requires
            tet_rows_wf(vs@),
            vec_wf(x@),
            x@.len() == 3,
        ensures
            r == tet_contains(mvals(vs@), vvals(x@), i as int),
    {
        let mut j: usize = 0;
        while j < 4
            invariant
                tet_rows_wf(vs@),
                vec_wf(x@),
                x@.len() == 3,
                j <= 4,
                forall|p: int| 0 <= p < j as int && p != i as int ==> tet_side_ok(
                    mvals(vs@),
                    vvals(x@),
                    p,
                ),
            decreases 4 - j,
        {
            if j != i {
                if !Self::side_ok(vs, x, j) {
                    return false;
                }
            }
            j += 1;
        }
        true
    }

    /// Whether the point lies inside the tetrahedron.
    fn point_inside(vs: &Vec<Vec<Scalar>>, o: &Vec<Scalar>) -> (r: bool)
        requires
            tet_rows_wf(vs@),
            vec_wf(o@),
            o@.len() == 3,
        ensures
            r == tet_inside(mvals(vs@), vvals(o@)),
    {
        let mut j: usize = 0;
        while j < 4
            invariant
                tet_rows_wf(vs@),
                vec_wf(o@),
                o@.len() == 3,
                j <= 4,
                forall|p: int| 0 <= p < j as int ==> tet_side_ok(mvals(vs@), vvals(o@), p),
            decreases 4 - j,
        {
            if !Self::side_ok(vs, o, j) {
                return false;
            }
            j += 1;
        }
        true
    }

    /// The scan over the four faces: the least accepted hit and its face.
    fn solve(&self, ray: &Ray) -> (r: (Raytrace, Option<usize>))
        requires
            self.wf(),
            ray.wf(),
            self.fits(ray.dim()),
        ensures
            r.0.wf(),
            r.0.t@ == tet_scan(
                tet_verts(vvals(self.center@), vvals(self.diameters@)),
                ray@,
                4,
            ).0,
            (match r.1 {
                Some(i) => tet_scan(
                    tet_verts(vvals(self.center@), vvals(self.diameters@)),
                    ray@,
                    4,
                ).1 == Some(i as int) && i < 4,
                None => tet_scan(
                    tet_verts(vvals(self.center@), vvals(self.diameters@)),
                    ray@,
                    4,
                ).1 is None,
            }),
    {
        let vs = self.build_vertices();
        let ghost vm = mvals(vs@);
        let mut tmin = Raytrace::miss();
        let mut best: Option<usize> = None;
        let mut i: usize = 0;
        while i < 4
            invariant
                self.wf(),
                ray.wf(),
                ray@.r.len() == 3,
                tet_rows_wf(vs@),
                vm == mvals(vs@),
                vm == tet_verts(vvals(self.center@), vvals(self.diameters@)),
                i <= 4,
                tmin.wf(),
                tmin.t@ == tet_scan(vm, ray@, i as nat).0,
                (match best {
                    Some(b) => tet_scan(vm, ray@, i as nat).1 == Some(b as int) && b < 4,
                    None => tet_scan(vm, ray@, i as nat).1 is None,
                }),
            decreases 4 - i,
        {
            let hp = Self::face_plane(&vs, i);
            let cand = hp.raytrace(ray);
            let ghost pt = plane_t(vm[i as int], tet_face_pn(vm, i as int), ray@);
            proof {
                assert(cand.t@ == pt);
            }
            if cand.is_hit() && cand.t.lt_ext(&tmin.t) {
                let x = ray.propagate(&cand.t);
                proof {
                    lemma_vec_wf_vals(ray.r@);
                    lemma_vec_wf_vals(ray.v@);
                    lemma_vec_wf_vals(x@);
                    lemma_seq_ops_nz(ray@.v, ray@.v, cand.t@);
                    lemma_seq_ops_nz(ray@.r, crate::vector::fscale(cand.t@, ray@.v), frac_zero());
                    lemma_canon_seq_eq(vvals(x@), fprop(ray@, cand.t@));
                }
                if Self::contains(&vs, &x, i) {
                    tmin = cand;
                    best = Some(i);
                }
            }
            i += 1;
        }
        (tmin, best)
    }
}

impl Shape for Tetrahedron {
    open spec fn wf(&self) -> bool {
        vec_wf(self.center@) && self.center@.len() == 3 && vec_wf(self.diameters@)
            && self.diameters@.len() == 4
    }

    open spec fn fits(&self, dim: nat) -> bool {
        dim == 3
    }

    open spec fn spec_raytrace(&self, ray: RayV) -> Frac {
        tet_scan(tet_verts(vvals(self.center@), vvals(self.diameters@)), ray, 4).0
    }

    open spec fn spec_normal(&self, ray: RayV) -> Option<Seq<Frac>> {
        let verts = tet_verts(vvals(self.center@), vvals(self.diameters@));
        match tet_scan(verts, ray, 4).1 {
            Some(i) => tet_unit_normal(tet_face_pn(verts, i), tet_inside(verts, ray.r)),
            None => None,
        }
    }

    fn raytrace(&self, ray: &Ray) -> (r: Raytrace) {
        let (t, _) = self.solve(ray);
        t
    }

    fn raytrace_with_norm(&self, ray: &Ray) -> (r: RaytraceWithNorm) {
        let ghost verts = tet_verts(vvals(self.center@), vvals(self.diameters@));
        let (t, best) = self.solve(ray);
        match best {
            Some(i) => {
                let vs = self.build_vertices();
                let inside = Self::point_inside(&vs, &ray.r);
                let hp = Self::face_plane(&vs, i);
                let ghost pn = tet_face_pn(verts, i as int);
                let mag = vector::magnitude(&hp.n);
                let ghost mag_m = frac_sqrt(canon(fdot(pn, pn)));
                proof {
                    lemma_vec_wf_vals(hp.n@);
                    lemma_eq_sign(mag@, mag_m);
                    lemma_tet_scan_hit(verts, ray@, 4);
                }
                if mag.is_zero() {
                    return RaytraceWithNorm { raytrace: t, n: None };
                }
                let ms = if inside {
                    mag
                } else {
                    mag.neg()
                };
                let ghost ms_m = if tet_inside(verts, ray@.r) {
                    mag_m
                } else {
                    frac_neg(mag_m)
                };
                proof {
                    crate::rational::lemma_neg_cong(mag@, mag_m);
                    assert(frac_eq(ms@, ms_m));
                    assert(ms_m.n != 0 && ms_m.d >= 1);
                }
                let w = vector::div_each(&hp.n, &ms);
                proof {
                    let raw = Seq::new(pn.len(), |q: int| frac_div(pn[q], ms_m));
                    lemma_wf_pos(pn);
                    assert forall|q: int| 0 <= q < pn.len() implies frac_eq(
                        #[trigger] vvals(w@)[q],
                        raw[q],
                    ) by {
                        lemma_div_cong(pn[q], pn[q], ms@, ms_m);
                        lemma_den_nz(pn[q], ms@);
                        lemma_frac_eq_trans(vvals(w@)[q], frac_div(pn[q], ms@), raw[q]);
                    }
                    assert forall|q: int| 0 <= q < raw.len() implies (#[trigger] raw[q]).d
                        != 0 by {
                        lemma_den_nz(pn[q], ms_m);
                    }
                    lemma_vec_wf_vals(w@);
                    lemma_canon_seq_eq(vvals(w@), raw);
                }
                RaytraceWithNorm { raytrace: t, n: Some(w) }
            },
            None => RaytraceWithNorm { raytrace: t, n: None },
        }
    }
}

} // verus!
