//! The multiplication engine: the three naive loop orderings i-j-k, i-k-j
//! and k-i-j, and the cache-blocked (tiled) variant. Each accumulates with
//! wrapping 64-bit arithmetic, and each is proved to return exactly
//! `mat_product` of its operands, so all four agree entry for entry and
//! the blocked result does not depend on the tile size.

use crate::matrix::MatError;
use crate::matrix::Matrix;
use crate::model::lemma_acc_step;
use crate::model::lemma_pointwise_product;
use crate::model::lemma_wrap_fits;
use crate::model::mat_product;
use crate::model::product_entry;
use crate::model::psum;
use crate::model::wrap;
use vstd::prelude::*;

verus! {

/// The contract every naive multiplication variant meets: the operands'
/// dimensions agree and the result is the product matrix, or else the
/// dimensions disagree and the mismatch is reported.
pub open spec fn mul_spec(a: &Matrix, b: &Matrix, r: Result<Matrix, MatError>) -> bool {
    match r {
        Ok(c) => {
            &&& a.dim() == b.dim()
            &&& c.wf()
            &&& c.dim() == a.dim()
            &&& c@ == mat_product(a@, b@, a.dim())
        },
        Err(e) => {
            &&& a.dim() != b.dim()
            &&& e == MatError::DimensionMismatch
        },
    }
}

/// Naive multiplication in i-j-k order: row, column, then reduction
/// index innermost (which walks the right operand column-wise).
#[verifier::loop_isolation(false)]
pub fn matmul_ijk(a: &Matrix, b: &Matrix) -> (r: Result<Matrix, MatError>)
    requires
        a.wf(),
        b.wf(),
    ensures
        mul_spec(a, b, r),
{
    let n = a.size();
    if n != b.size() {
        return Err(MatError::DimensionMismatch);
    }
    let mut c = Matrix::zero(n);
    proof {
        lemma_wrap_fits(0);
    }
    let mut i: usize = 0;
    while i < n
        invariant
            i <= n,
            c.wf(),
            c.dim() == n as int,
            forall|r0: int, c0: int|
                0 <= r0 < n as int && 0 <= c0 < n as int ==> #[trigger] c@[r0][c0] == (if r0 < i
                    as int {
                    product_entry(a@, b@, n as int, r0, c0)
                } else {
                    0i64
                }),
        decreases n - i,
    {
        let mut j: usize = 0;
        while j < n
            invariant
                j <= n,
                c.wf(),
                c.dim() == n as int,
                forall|r0: int, c0: int|
                    0 <= r0 < n as int && 0 <= c0 < n as int ==> #[trigger] c@[r0][c0] == (if r0
                        < i as int || (r0 == i as int && c0 < j as int) {
                        product_entry(a@, b@, n as int, r0, c0)
                    } else {
                        0i64
                    }),
            decreases n - j,
        {
            let mut k: usize = 0;
            while k < n
                invariant
                    k <= n,
                    c.wf(),
                    c.dim() == n as int,
                    c@[i as int][j as int] == wrap(psum(a@, b@, i as int, j as int, k as int)),
                    forall|r0: int, c0: int|
                        0 <= r0 < n as int && 0 <= c0 < n as int && !(r0 == i as int && c0 == j
                            as int) ==> #[trigger] c@[r0][c0] == (if r0 < i as int || (r0 == i
                            as int && c0 < j as int) {
                            product_entry(a@, b@, n as int, r0, c0)
                        } else {
                            0i64
                        }),
                decreases n - k,
            {
                let aik = a.entry(i, k);
                let bkj = b.entry(k, j);
                let cur = c.entry(i, j);
                proof {
                    lemma_acc_step(psum(a@, b@, i as int, j as int, k as int), aik, bkj);
                }
                c.set_entry(i, j, cur.wrapping_add(aik.wrapping_mul(bkj)));
                k += 1;
            }
            j += 1;
        }
        i += 1;
    }
    proof {
        lemma_pointwise_product(c@, a@, b@, n as int);
    }
    Ok(c)
}

/// Naive multiplication in i-k-j order: row, reduction index, then
/// column innermost, so both operands are walked row-wise.
#[verifier::loop_isolation(false)]
pub fn matmul_ikj(a: &Matrix, b: &Matrix) -> (r: Result<Matrix, MatError>)
    requires
        a.wf(),
        b.wf(),
    ensures
        mul_spec(a, b, r),
{
    let n = a.size();
    if n != b.size() {
        return Err(MatError::DimensionMismatch);
    }
    let mut c = Matrix::zero(n);
    proof {
        lemma_wrap_fits(0);
    }
    let mut i: usize = 0;
    while i < n
        invariant
            i <= n,
            c.wf(),
            c.dim() == n as int,
            forall|r0: int, c0: int|
                0 <= r0 < n as int && 0 <= c0 < n as int ==> #[trigger] c@[r0][c0] == (if r0 < i
                    as int {
                    product_entry(a@, b@, n as int, r0, c0)
                } else {
                    0i64
                }),
        decreases n - i,
    {
        let mut k: usize = 0;
        while k < n
            invariant
                k <= n,
                c.wf(),
                c.dim() == n as int,
                forall|r0: int, c0: int|
                    0 <= r0 < n as int && 0 <= c0 < n as int ==> #[trigger] c@[r0][c0] == (if r0
                        < i as int {
                        product_entry(a@, b@, n as int, r0, c0)
                    } else if r0 == i as int {
                        wrap(psum(a@, b@, r0, c0, k as int))
                    } else {
                        0i64
                    }),
            decreases n - k,
        {
            let aik = a.entry(i, k);
            let mut j: usize = 0;
            while j < n
                invariant
                    j <= n,
                    c.wf(),
                    c.dim() == n as int,
                    forall|r0: int, c0: int|
                        0 <= r0 < n as int && 0 <= c0 < n as int ==> #[trigger] c@[r0][c0] == (
                        if r0 < i as int {
                            product_entry(a@, b@, n as int, r0, c0)
                        } else if r0 == i as int && c0 < j as int {
                            wrap(psum(a@, b@, r0, c0, k as int + 1))
                        } else if r0 == i as int {
                            wrap(psum(a@, b@, r0, c0, k as int))
                        } else {
                            0i64
                        }),
                decreases n - j,
            {
                let bkj = b.entry(k, j);
                let cur = c.entry(i, j);
                proof {
                    lemma_acc_step(psum(a@, b@, i as int, j as int, k as int), aik, bkj);
                }
                c.set_entry(i, j, cur.wrapping_add(aik.wrapping_mul(bkj)));
                j += 1;
            }
            k += 1;
        }
        i += 1;
    }
    proof {
        lemma_pointwise_product(c@, a@, b@, n as int);
    }
    Ok(c)
}

/// Naive multiplication in k-i-j order: reduction index outermost, then
/// row, then column.
#[verifier::loop_isolation(false)]
pub fn matmul_kij(a: &Matrix, b: &Matrix) -> (r: Result<Matrix, MatError>)
    requires
        a.wf(),
        b.wf(),
    ensures
        mul_spec(a, b, r),
{
    let n = a.size();
    if n != b.size() {
        return Err(MatError::DimensionMismatch);
    }
    let mut c = Matrix::zero(n);
    proof {
        lemma_wrap_fits(0);
    }
    let mut k: usize = 0;
    while k < n
        invariant
            k <= n,
            c.wf(),
            c.dim() == n as int,
            forall|r0: int, c0: int|
                0 <= r0 < n as int && 0 <= c0 < n as int ==> #[trigger] c@[r0][c0] == wrap(
                psum(a@, b@, r0, c0, k as int)),
        decreases n - k,
    {
        let mut i: usize = 0;
        while i < n
            invariant
                i <= n,
                c.wf(),
                c.dim() == n as int,
                forall|r0: int, c0: int|
                    0 <= r0 < n as int && 0 <= c0 < n as int ==> #[trigger] c@[r0][c0] == (if r0
                        < i as int {
                        wrap(psum(a@, b@, r0, c0, k as int + 1))
                    } else {
                        wrap(psum(a@, b@, r0, c0, k as int))
                    }),
            decreases n - i,
        {
            let aik = a.entry(i, k);
            let mut j: usize = 0;
            while j < n
                invariant
                    j <= n,
                    c.wf(),
                    c.dim() == n as int,
                    forall|r0: int, c0: int|
                        0 <= r0 < n as int && 0 <= c0 < n as int ==> #[trigger] c@[r0][c0] == (
                        if r0 < i as int || (r0 == i as int && c0 < j as int) {
                            wrap(psum(a@, b@, r0, c0, k as int + 1))
                        } else {
                            wrap(psum(a@, b@, r0, c0, k as int))
                        }),
                decreases n - j,
            {
                let bkj = b.entry(k, j);
                let cur = c.entry(i, j);
                proof {
                    lemma_acc_step(psum(a@, b@, i as int, j as int, k as int), aik, bkj);
                }
                c.set_entry(i, j, cur.wrapping_add(aik.wrapping_mul(bkj)));
                j += 1;
            }
            i += 1;
        }
        k += 1;
    }
    proof {
        lemma_pointwise_product(c@, a@, b@, n as int);
    }
    Ok(c)
}

/// The contract of the blocked variant: a zero tile size is rejected
/// before any tiling, a dimension mismatch is rejected next, and
/// otherwise the result is the product matrix — the same matrix for every
/// tile size, since `block_size` does not appear in the product.
pub open spec fn blocked_spec(
    a: &Matrix,
    b: &Matrix,
    block_size: usize,
    r: Result<Matrix, MatError>,
) -> bool {
    match r {
        Ok(c) => {
            &&& block_size >= 1
            &&& a.dim() == b.dim()
            &&& c.wf()
            &&& c.dim() == a.dim()
            &&& c@ == mat_product(a@, b@, a.dim())
        },
        Err(e) => {
            ||| (e == MatError::InvalidBlockSize && block_size == 0)
            ||| (e == MatError::DimensionMismatch && block_size >= 1 && a.dim() != b.dim())
        },
    }
}

/// Cache-blocked multiplication: the index cube is cut into tiles of side
/// `block_size` along row, column and reduction dimensions (the last tile
/// on each axis clipped to the matrix edge), and each tile runs the
/// k-i-j order over its index ranges.
#[verifier::loop_isolation(false)]
pub fn matmul_blocked(a: &Matrix, b: &Matrix, block_size: usize) -> (r: Result<Matrix, MatError>)
    requires
        a.wf(),
        b.wf(),
    ensures
        blocked_spec(a, b, block_size, r),
{
    if block_size == 0 {
        return Err(MatError::InvalidBlockSize);
    }
    let n = a.size();
    if n != b.size() {
        return Err(MatError::DimensionMismatch);
    }
    let mut c = Matrix::zero(n);
    proof {
        lemma_wrap_fits(0);
    }
    let mut ii: usize = 0;
    while ii < n
        invariant
            ii <= n,
            c.wf(),
            c.dim() == n as int,
            forall|r0: int, c0: int|
                0 <= r0 < n as int && 0 <= c0 < n as int ==> #[trigger] c@[r0][c0] == (if r0 < ii
                    as int {
                    product_entry(a@, b@, n as int, r0, c0)
                } else {
                    0i64
                }),
        decreases n - ii,
    {
        let i_end = if n - ii < block_size {
            n
        } else {
            ii + block_size
        };
        let mut jj: usize = 0;
        while jj < n
            invariant
                jj <= n,
                c.wf(),
                c.dim() == n as int,
                forall|r0: int, c0: int|
                    0 <= r0 < n as int && 0 <= c0 < n as int ==> #[trigger] c@[r0][c0] == (if r0
                        < ii as int || (r0 < i_end as int && c0 < jj as int) {
                        product_entry(a@, b@, n as int, r0, c0)
                    } else {
                        0i64
                    }),
            decreases n - jj,
        {
            let j_end = if n - jj < block_size {
                n
            } else {
                jj + block_size
            };
            let mut kk: usize = 0;
            while kk < n
                invariant
                    kk <= n,
                    c.wf(),
                    c.dim() == n as int,
                    forall|r0: int, c0: int|
                        0 <= r0 < n as int && 0 <= c0 < n as int ==> #[trigger] c@[r0][c0] == (
                        if r0 < ii as int || (r0 < i_end as int && c0 < jj as int) {
                            product_entry(a@, b@, n as int, r0, c0)
                        } else if r0 < i_end as int && c0 < j_end as int {
                            wrap(psum(a@, b@, r0, c0, kk as int))
                        } else {
                            0i64
                        }),
                decreases n - kk,
            {
                let k_end = if n - kk < block_size {
                    n
                } else {
                    kk + block_size
                };
                let mut k: usize = kk;
                while k < k_end
                    invariant
                        kk <= k <= k_end,
                        c.wf(),
                        c.dim() == n as int,
                        forall|r0: int, c0: int|
                            0 <= r0 < n as int && 0 <= c0 < n as int ==> #[trigger] c@[r0][c0]
                                == (if r0 < ii as int || (r0 < i_end as int && c0 < jj as int) {
                                product_entry(a@, b@, n as int, r0, c0)
                            } else if r0 < i_end as int && c0 < j_end as int {
                                wrap(psum(a@, b@, r0, c0, k as int))
                            } else {
                                0i64
                            }),
                    decreases k_end - k,
                {
                    let mut i: usize = ii;
                    while i < i_end
                        invariant
                            ii <= i <= i_end,
                            c.wf(),
                            c.dim() == n as int,
                            forall|r0: int, c0: int|
                                0 <= r0 < n as int && 0 <= c0 < n as int ==> #[trigger] c@[r0][c0]
                                    == (if r0 < ii as int || (r0 < i_end as int && c0 < jj
                                    as int) {
                                    product_entry(a@, b@, n as int, r0, c0)
                                } else if r0 < i as int && c0 < j_end as int {
                                    wrap(psum(a@, b@, r0, c0, k as int + 1))
                                } else if r0 < i_end as int && c0 < j_end as int {
                                    wrap(psum(a@, b@, r0, c0, k as int))
                                } else {
                                    0i64
                                }),
                        decreases i_end - i,
                    {
                        let aik = a.entry(i, k);
                        let mut j: usize = jj;
                        while j < j_end
                            invariant
                                jj <= j <= j_end,
                                c.wf(),
                                c.dim() == n as int,
                                forall|r0: int, c0: int|
                                    0 <= r0 < n as int && 0 <= c0 < n as int ==> #[trigger] c@[r0][c0]
                                        == (if r0 < ii as int || (r0 < i_end as int && c0 < jj
                                        as int) {
                                        product_entry(a@, b@, n as int, r0, c0)
                                    } else if (r0 < i as int || (r0 == i as int && c0 < j
                                        as int)) && c0 < j_end as int {
                                        wrap(psum(a@, b@, r0, c0, k as int + 1))
                                    } else if r0 < i_end as int && c0 < j_end as int {
                                        wrap(psum(a@, b@, r0, c0, k as int))
                                    } else {
                                        0i64
                                    }),
                            decreases j_end - j,
                        {
                            let bkj = b.entry(k, j);
                            let cur = c.entry(i, j);
                            proof {
                                lemma_acc_step(psum(a@, b@, i as int, j as int, k as int), aik, bkj);
                            }
                            c.set_entry(i, j, cur.wrapping_add(aik.wrapping_mul(bkj)));
                            j += 1;
                        }
                        i += 1;
                    }
                    k += 1;
                }
                kk = k_end;
            }
            jj = j_end;
        }
        ii = i_end;
    }
    proof {
        lemma_pointwise_product(c@, a@, b@, n as int);
    }
    Ok(c)
}

} // verus!
