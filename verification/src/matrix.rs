//! Square-matrix arithmetic over exact scalars: identity and diagonal
//! construction, matrix-vector and matrix-matrix products.

use vstd::prelude::*;

use crate::rational::{frac_eq, frac_int, frac_zero, Frac};
use crate::scalar::Scalar;
use crate::vector::{canon_seq, fdot, fracs_eq, vec_wf, vvals};
use crate::vector;

verus! {

/// The fractions a matrix of scalars holds, row by row.
pub open spec fn mvals(m: Seq<Vec<Scalar>>) -> Seq<Seq<Frac>> {
    Seq::new(m.len(), |i: int| vvals(m[i]@))
}

/// A well-formed `n` by `n` matrix of finite scalars.
pub open spec fn mat_wf(m: Seq<Vec<Scalar>>, n: nat) -> bool {
    m.len() == n && forall|i: int| 0 <= i < m.len() ==> vec_wf((#[trigger] m[i])@) && m[i]@.len()
        == n
}

/// Column `j` of a fraction matrix.
pub open spec fn mat_col(m: Seq<Seq<Frac>>, j: int) -> Seq<Frac> {
    Seq::new(m.len(), |k: int| m[k][j])
}

/// The matrix-vector product: each entry is the dot of a row with `x`.
pub open spec fn mat_vec(m: Seq<Seq<Frac>>, x: Seq<Frac>) -> Seq<Frac> {
    Seq::new(m.len(), |i: int| fdot(m[i], x))
}

/// The matrix-matrix product of square matrices.
pub open spec fn mat_mul(a: Seq<Seq<Frac>>, b: Seq<Seq<Frac>>) -> Seq<Seq<Frac>> {
    Seq::new(a.len(), |i: int| Seq::new(a.len(), |j: int| fdot(a[i], mat_col(b, j))))
}

/// Each entry in canonical form.
pub open spec fn canon_mat(m: Seq<Seq<Frac>>) -> Seq<Seq<Frac>> {
    Seq::new(m.len(), |i: int| canon_seq(m[i]))
}

/// The identity matrix of fractions.
pub open spec fn identity_frac(n: nat) -> Seq<Seq<Frac>> {
    Seq::new(
        n,
        |i: int| Seq::new(n, |j: int| if i == j {
            frac_int(1)
        } else {
            frac_zero()
        }),
    )
}

/// The diagonal matrix with the entries of `d` on its diagonal.
pub open spec fn diagonal_frac(d: Seq<Frac>) -> Seq<Seq<Frac>> {
    Seq::new(
        d.len(),
        |i: int| Seq::new(d.len(), |j: int| if i == j {
            d[i]
        } else {
            frac_zero()
        }),
    )
}

/// Exposes the identity matrix of a scalar representation; the original role
/// of this trait is to let the representation choose how it is built.
pub trait IdentitySpec: Sized {
    fn _identity(n: usize) -> (m: Vec<Vec<Scalar>>)
        ensures
            mat_wf(m@, n as nat),
            mvals(m@) == identity_frac(n as nat),
    ;
}

impl IdentitySpec for Scalar {
    fn _identity(n: usize) -> (m: Vec<Vec<Scalar>>) {
        let mut m: Vec<Vec<Scalar>> = Vec::new();
        let mut i: usize = 0;
        while i < n
            invariant
                i <= n,
                m@.len() == i,
                forall|p: int| 0 <= p < i as int ==> vec_wf((#[trigger] m@[p])@) && m@[p]@.len()
                    == n && vvals(m@[p]@) == identity_frac(n as nat)[p],
            decreases n - i,
        {
            let mut row: Vec<Scalar> = Vec::new();
            let mut j: usize = 0;
            while j < n
                invariant
                    i < n,
                    j <= n,
                    vec_wf(row@),
                    row@.len() == j,
                    forall|q: int| 0 <= q < j as int ==> vvals(row@)[q] == identity_frac(
                        n as nat,
                    )[i as int][q],
                decreases n - j,
            {
                let x = if j == i {
                    Scalar::from_int(1)
                } else {
                    Scalar::zero()
                };
                let ghost row0 = row@;
                row.push(x);
                proof {
                    assert forall|q: int| 0 <= q < j as int + 1 implies vvals(row@)[q]
                        == identity_frac(n as nat)[i as int][q] by {
                        if q < j as int {
                            assert(vvals(row@)[q] == vvals(row0)[q]);
                        } else {
                            assert(vvals(row@)[q] == x@);
                        }
                    }
                }
                j += 1;
            }
            proof {
                assert(vvals(row@) =~= identity_frac(n as nat)[i as int]);
            }
            let ghost m0 = m@;
            m.push(row);
            proof {
                assert forall|p: int| 0 <= p < i as int + 1 implies vec_wf((#[trigger] m@[p])@)
                    && m@[p]@.len() == n && vvals(m@[p]@) == identity_frac(n as nat)[p] by {
                    if p < i as int {
                        assert(m@[p] == m0[p]);
                    }
                }
            }
            i += 1;
        }
        proof {
            assert(mvals(m@) =~= identity_frac(n as nat));
        }
        m
    }
}

/// The identity matrix.
pub fn identity(n: usize) -> (m: Vec<Vec<Scalar>>)
    ensures
        mat_wf(m@, n as nat),
        mvals(m@) == identity_frac(n as nat),
{
    Scalar::_identity(n)
}

/// The diagonal matrix with the given entries on its diagonal.
pub fn diagonal(d: &Vec<Scalar>) -> (m: Vec<Vec<Scalar>>)
    requires
        vec_wf(d@),
    ensures
        mat_wf(m@, d@.len()),
        mvals(m@) == diagonal_frac(vvals(d@)),
{
    let n = d.len();
    let mut m: Vec<Vec<Scalar>> = Vec::new();
    let mut i: usize = 0;
    while i < n
        invariant
            vec_wf(d@),
            n == d@.len(),
            i <= n,
            m@.len() == i,
            forall|p: int| 0 <= p < i as int ==> vec_wf((#[trigger] m@[p])@) && m@[p]@.len() == n
                && vvals(m@[p]@) == diagonal_frac(vvals(d@))[p],
        decreases n - i,
    {
        let mut row: Vec<Scalar> = Vec::new();
        let mut j: usize = 0;
        while j < n
            invariant
                vec_wf(d@),
                n == d@.len(),
                i < n,
                j <= n,
                vec_wf(row@),
                row@.len() == j,
                forall|q: int| 0 <= q < j as int ==> vvals(row@)[q] == diagonal_frac(
                    vvals(d@),
                )[i as int][q],
            decreases n - j,
        {
            let x = if j == i {
                d[i].dup()
            } else {
                Scalar::zero()
            };
            let ghost row0 = row@;
            row.push(x);
            proof {
                assert forall|q: int| 0 <= q < j as int + 1 implies vvals(row@)[q] == diagonal_frac(
                    vvals(d@),
                )[i as int][q] by {
                    if q < j as int {
                        assert(vvals(row@)[q] == vvals(row0)[q]);
                    } else {
                        assert(vvals(row@)[q] == x@);
                    }
                }
            }
            j += 1;
        }
        proof {
            assert(vvals(row@) =~= diagonal_frac(vvals(d@))[i as int]);
        }
        let ghost m0 = m@;
        m.push(row);
        proof {
            assert forall|p: int| 0 <= p < i as int + 1 implies vec_wf((#[trigger] m@[p])@)
                && m@[p]@.len() == n && vvals(m@[p]@) == diagonal_frac(vvals(d@))[p] by {
                if p < i as int {
                    assert(m@[p] == m0[p]);
                }
            }
        }
        i += 1;
    }
    proof {
        assert(mvals(m@) =~= diagonal_frac(vvals(d@)));
    }
    m
}

/// The matrix-vector product: entry-wise numerically equal to `mat_vec`.
pub fn mul_matrix_collumn(m: &Vec<Vec<Scalar>>, x: &Vec<Scalar>) -> (r: Vec<Scalar>)
    requires
        mat_wf(m@, x@.len()),
        vec_wf(x@),
    ensures
        vec_wf(r@),
        r@.len() == m@.len(),
        fracs_eq(vvals(r@), mat_vec(mvals(m@), vvals(x@))),
{
    let mut r: Vec<Scalar> = Vec::new();
    let mut i: usize = 0;
    while i < m.len()
        invariant
            mat_wf(m@, x@.len()),
            vec_wf(x@),
            i <= m@.len(),
            vec_wf(r@),
            r@.len() == i,
            forall|p: int| 0 <= p < i as int ==> frac_eq(
                #[trigger] vvals(r@)[p],
                mat_vec(mvals(m@), vvals(x@))[p],
            ),
        decreases m@.len() - i,
    {
        let e = vector::mul_dot(&m[i], x);
        let ghost r0 = r@;
        r.push(e);
        proof {
            assert forall|p: int| 0 <= p < i as int + 1 implies frac_eq(
                #[trigger] vvals(r@)[p],
                mat_vec(mvals(m@), vvals(x@))[p],
            ) by {
                if p < i as int {
                    assert(vvals(r@)[p] == vvals(r0)[p]);
                } else {
                    assert(vvals(r@)[p] == e@);
                    assert(mvals(m@)[p] == vvals(m@[p]@));
                }
            }
        }
        i += 1;
    }
    r
}

/// One column of a matrix, as an owned vector.
fn column(m: &Vec<Vec<Scalar>>, j: usize, n: usize) -> (r: Vec<Scalar>)
    requires
        mat_wf(m@, n as nat),
        j < n,
    ensures
        vec_wf(r@),
        r@.len() == m@.len(),
        vvals(r@) == mat_col(mvals(m@), j as int),
{
    let mut r: Vec<Scalar> = Vec::new();
    let mut k: usize = 0;
    while k < m.len()
        invariant
            mat_wf(m@, n as nat),
            j < n,
            k <= m@.len(),
            vec_wf(r@),
            r@.len() == k,
            forall|p: int| 0 <= p < k as int ==> vvals(r@)[p] == mat_col(mvals(m@), j as int)[p],
        decreases m@.len() - k,
    {
        let e = m[k][j].dup();
        let ghost r0 = r@;
        r.push(e);
        proof {
            assert forall|p: int| 0 <= p < k as int + 1 implies vvals(r@)[p] == mat_col(
                mvals(m@),
                j as int,
            )[p] by {
                if p < k as int {
                    assert(vvals(r@)[p] == vvals(r0)[p]);
                } else {
                    assert(vvals(r@)[p] == e@);
                    assert(mvals(m@)[p] == vvals(m@[p]@));
                }
            }
        }
        k += 1;
    }
    proof {
        assert(vvals(r@) =~= mat_col(mvals(m@), j as int));
    }
    r
}

/// The matrix-matrix product of two square matrices: entry-wise numerically
/// equal to `mat_mul`.
pub fn mul_matrix_matrix(a: &Vec<Vec<Scalar>>, b: &Vec<Vec<Scalar>>, n: usize) -> (r: Vec<
    Vec<Scalar>,
>)
    requires
        mat_wf(a@, n as nat),
        mat_wf(b@, n as nat),
    ensures
        mat_wf(r@, n as nat),
        forall|i: int, j: int| 0 <= i < n as int && 0 <= j < n as int ==> frac_eq(
            #[trigger] mvals(r@)[i][j],
            mat_mul(mvals(a@), mvals(b@))[i][j],
        ),
{
    let mut r: Vec<Vec<Scalar>> = Vec::new();
    let mut i: usize = 0;
    while i < n
        invariant
            mat_wf(a@, n as nat),
            mat_wf(b@, n as nat),
            i <= n,
            r@.len() == i,
            forall|p: int| 0 <= p < i as int ==> vec_wf((#[trigger] r@[p])@) && r@[p]@.len() == n,
            forall|p: int, j: int| 0 <= p < i as int && 0 <= j < n as int ==> frac_eq(
                #[trigger] mvals(r@)[p][j],
                mat_mul(mvals(a@), mvals(b@))[p][j],
            ),
        decreases n - i,
    {
        let mut row: Vec<Scalar> = Vec::new();
        let mut j: usize = 0;
        while j < n
            invariant
                mat_wf(a@, n as nat),
                mat_wf(b@, n as nat),
                i < n,
                j <= n,
                vec_wf(row@),
                row@.len() == j,
                forall|q: int| 0 <= q < j as int ==> frac_eq(
                    #[trigger] vvals(row@)[q],
                    mat_mul(mvals(a@), mvals(b@))[i as int][q],
                ),
            decreases n - j,
        {
            let col = column(b, j, n);
            let e = vector::mul_dot(&a[i], &col);
            let ghost row0 = row@;
            row.push(e);
            proof {
                assert forall|q: int| 0 <= q < j as int + 1 implies frac_eq(
                    #[trigger] vvals(row@)[q],
                    mat_mul(mvals(a@), mvals(b@))[i as int][q],
                ) by {
                    if q < j as int {
                        assert(vvals(row@)[q] == vvals(row0)[q]);
                    } else {
                        assert(vvals(row@)[q] == e@);
                        assert(mvals(a@)[i as int] == vvals(a@[i as int]@));
                    }
                }
            }
            j += 1;
        }
        let ghost r0 = r@;
        r.push(row);
        proof {
            assert forall|p: int, j: int|
                0 <= p < i as int + 1 && 0 <= j < n as int implies frac_eq(
                #[trigger] mvals(r@)[p][j],
                mat_mul(mvals(a@), mvals(b@))[p][j],
            ) by {
                if p < i as int {
                    assert(r@[p] == r0[p]);
                    assert(mvals(r@)[p] == mvals(r0)[p]);
                } else {
                    assert(mvals(r@)[p] == vvals(r@[p]@));
                }
            }
        }
        i += 1;
    }
    r
}

} // verus!
