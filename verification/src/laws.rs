//! Algebraic laws of the product matrix. Every multiplication variant
//! returns exactly `mat_product`, so each law proved here holds of the
//! result of every variant, for every tile size.

use crate::matrix::Matrix;
use crate::model::identity_seq;
use crate::model::is_square;
use crate::model::lemma_congruent_add;
use crate::model::lemma_congruent_mul;
use crate::model::lemma_pointwise_product;
use crate::model::lemma_wrap_add;
use crate::model::lemma_wrap_fits;
use crate::model::mat_product;
use crate::model::mat_sum;
use crate::model::product_entry;
use crate::model::psum;
use crate::model::wrap;
use crate::model::zero_seq;
use crate::rng::gen_matrix;
use vstd::prelude::*;

verus! {

/// Sum of f(0) + f(1) + ... + f(k - 1).
spec fn sum1(f: spec_fn(int) -> int, k: int) -> int
    decreases k,
{
    if k <= 0 {
        0
    } else {
        sum1(f, k - 1) + f(k - 1)
    }
}

/// A sum of zeros is zero.
proof fn lemma_sum1_zero(f: spec_fn(int) -> int, k: int)
    requires
        forall|m: int| 0 <= m < k ==> #[trigger] f(m) == 0,
    ensures
        sum1(f, k) == 0,
    decreases k,
{
    if k > 0 {
        lemma_sum1_zero(f, k - 1);
    }
}

/// Sums of pointwise equal terms are equal.
proof fn lemma_sum1_eq(f: spec_fn(int) -> int, g: spec_fn(int) -> int, k: int)
    requires
        forall|m: int| 0 <= m < k ==> #[trigger] f(m) == #[trigger] g(m),
    ensures
        sum1(f, k) == sum1(g, k),
    decreases k,
{
    if k > 0 {
        lemma_sum1_eq(f, g, k - 1);
    }
}

/// A sum of pointwise sums splits into two sums.
proof fn lemma_sum1_add(f: spec_fn(int) -> int, g: spec_fn(int) -> int, h: spec_fn(int) -> int, k: int)
    requires
        forall|m: int| 0 <= m < k ==> #[trigger] h(m) == f(m) + g(m),
    ensures
        sum1(h, k) == sum1(f, k) + sum1(g, k),
    decreases k,
{
    if k > 0 {
        lemma_sum1_add(f, g, h, k - 1);
    }
}

/// A common right factor moves out of a sum.
proof fn lemma_sum1_scale(f: spec_fn(int) -> int, g: spec_fn(int) -> int, x: int, k: int)
    requires
        forall|m: int| 0 <= m < k ==> #[trigger] g(m) == f(m) * x,
    ensures
        sum1(g, k) == sum1(f, k) * x,
    decreases k,
{
    if k <= 0 {
        assert(0 * x == 0) by (nonlinear_arith);
    } else {
        lemma_sum1_scale(f, g, x, k - 1);
        assert((sum1(f, k - 1) + f(k - 1)) * x == sum1(f, k - 1) * x + f(k - 1) * x)
            by (nonlinear_arith);
    }
}

/// Sums of pointwise congruent terms wrap to the same element.
proof fn lemma_sum1_congruent(f: spec_fn(int) -> int, g: spec_fn(int) -> int, k: int)
    requires
        forall|m: int| 0 <= m < k ==> wrap(#[trigger] f(m)) == wrap(#[trigger] g(m)),
    ensures
        wrap(sum1(f, k)) == wrap(sum1(g, k)),
    decreases k,
{
    if k > 0 {
        lemma_sum1_congruent(f, g, k - 1);
        lemma_congruent_add(sum1(f, k - 1), sum1(g, k - 1), f(k - 1), g(k - 1));
    }
}

/// A finite double sum may be summed in either index order.
proof fn lemma_sum1_swap(f: spec_fn(int, int) -> int, r: int, s: int)
    requires
        r >= 0,
        s >= 0,
    ensures
        sum1(|k: int| sum1(|m: int| f(k, m), s), r) == sum1(|m: int| sum1(|k: int| f(k, m), r), s),
    decreases r,
{
    let rowsum = |k: int| sum1(|m: int| f(k, m), s);
    let colsum = |m: int| sum1(|k: int| f(k, m), r);
    if r == 0 {
        assert forall|m: int| 0 <= m < s implies #[trigger] colsum(m) == 0 by {}
        lemma_sum1_zero(colsum, s);
    } else {
        lemma_sum1_swap(f, r - 1, s);
        let colsum1 = |m: int| sum1(|k: int| f(k, m), r - 1);
        let lastrow = |m: int| f(r - 1, m);
        assert forall|m: int| 0 <= m < s implies #[trigger] colsum(m) == colsum1(m) + lastrow(
            m,
        ) by {}
        lemma_sum1_add(colsum1, lastrow, colsum, s);
    }
}

/// The reduction sum is a `sum1` over the products along a row of x and a
/// column of y.
proof fn lemma_psum_as_sum1(x: Seq<Seq<i64>>, y: Seq<Seq<i64>>, i: int, j: int, k: int)
    ensures
        psum(x, y, i, j, k) == sum1(|m: int| x[i][m] * y[m][j], k),
    decreases k,
{
    if k > 0 {
        lemma_psum_as_sum1(x, y, i, j, k - 1);
    }
}

/// The product of two square matrices is square.
proof fn lemma_product_square(a: Seq<Seq<i64>>, b: Seq<Seq<i64>>, n: int)
    requires
        n >= 0,
    ensures
        is_square(mat_product(a, b, n), n),
{
    assert forall|i: int| 0 <= i < n implies (#[trigger] mat_product(a, b, n)[i]).len() == n by {}
}

/// Each step of the reduction against an entrywise sum is congruent to
/// the matching steps against the two summands taken separately.
proof fn lemma_psum_distrib(
    a: Seq<Seq<i64>>,
    b: Seq<Seq<i64>>,
    c: Seq<Seq<i64>>,
    n: int,
    i: int,
    j: int,
    k: int,
)
    requires
        0 <= j < n,
        0 <= k <= n,
    ensures
        wrap(psum(a, mat_sum(b, c, n), i, j, k)) == wrap(psum(a, b, i, j, k) + psum(a, c, i, j, k)),
    decreases k,
{
    let s = mat_sum(b, c, n);
    if k > 0 {
        lemma_psum_distrib(a, b, c, n, i, j, k - 1);
        let am = a[i][k - 1] as int;
        let t = b[k - 1][j] + c[k - 1][j];
        assert(s[k - 1][j] == wrap(t));
        lemma_wrap_fits(wrap(t) as int);
        lemma_congruent_mul(wrap(t) as int, t, am);
        lemma_congruent_add(
            psum(a, s, i, j, k - 1),
            psum(a, b, i, j, k - 1) + psum(a, c, i, j, k - 1),
            am * (wrap(t) as int),
            am * t,
        );
        assert(am * t == am * b[k - 1][j] + am * c[k - 1][j]) by (nonlinear_arith)
            requires
                t == b[k - 1][j] + c[k - 1][j],
        ;
        assert(am * (wrap(t) as int) == a[i][k - 1] * s[k - 1][j]);
    } else {
        lemma_wrap_fits(0);
    }
}

/// Distributive law: multiplying by an entrywise sum gives the entrywise
/// sum of the two products.
pub proof fn lemma_distributive(a: Seq<Seq<i64>>, b: Seq<Seq<i64>>, c: Seq<Seq<i64>>, n: int)
    requires
        is_square(a, n),
        is_square(b, n),
        is_square(c, n),
    ensures
        mat_product(a, mat_sum(b, c, n), n) == mat_sum(
            mat_product(a, b, n),
            mat_product(a, c, n),
            n,
        ),
{
    let rhs = mat_sum(mat_product(a, b, n), mat_product(a, c, n), n);
    assert forall|i: int| 0 <= i < n implies (#[trigger] rhs[i]).len() == n by {}
    assert forall|i: int, j: int| 0 <= i < n && 0 <= j < n implies #[trigger] rhs[i][j]
        == product_entry(a, mat_sum(b, c, n), n, i, j) by {
        let pb = psum(a, b, i, j, n);
        let pc = psum(a, c, i, j, n);
        lemma_psum_distrib(a, b, c, n, i, j, n);
        lemma_wrap_add(pb, wrap(pc) as int);
        lemma_wrap_add(pc, pb);
        assert(rhs[i][j] == wrap(wrap(pb) + wrap(pc)));
    }
    lemma_pointwise_product(rhs, a, mat_sum(b, c, n), n);
}

/// One entry of a triple product, reassociated: entry (i, j) of (ab)c
/// equals entry (i, j) of a(bc).
proof fn lemma_entry_assoc(
    a: Seq<Seq<i64>>,
    b: Seq<Seq<i64>>,
    c: Seq<Seq<i64>>,
    n: int,
    i: int,
    j: int,
)
    requires
        is_square(a, n),
        is_square(b, n),
        is_square(c, n),
        0 <= i < n,
        0 <= j < n,
    ensures
        product_entry(mat_product(a, b, n), c, n, i, j) == product_entry(
            a,
            mat_product(b, c, n),
            n,
            i,
            j,
        ),
{
    let ab = mat_product(a, b, n);
    let bc = mat_product(b, c, n);
    let f = |k: int, m: int| a[i][m] * b[m][k] * c[k][j];
    let lf = |k: int| ab[i][k] * c[k][j];
    let lg = |k: int| psum(a, b, i, k, n) * c[k][j];
    let rowtotal = |k: int| sum1(|m: int| f(k, m), n);
    let coltotal = |m: int| sum1(|k: int| f(k, m), n);
    let rf = |m: int| a[i][m] * bc[m][j];
    let rg = |m: int| a[i][m] * psum(b, c, m, j, n);

    // Left side: wrap(psum(ab, c, i, j, n)) == wrap(sum1(rowtotal, n)).
    lemma_psum_as_sum1(ab, c, i, j, n);
    assert forall|k: int| 0 <= k < n implies wrap(#[trigger] lf(k)) == wrap(#[trigger] lg(k)) by {
        assert(ab[i][k] == wrap(psum(a, b, i, k, n)));
        lemma_wrap_fits(wrap(psum(a, b, i, k, n)) as int);
        lemma_congruent_mul(wrap(psum(a, b, i, k, n)) as int, psum(a, b, i, k, n), c[k][j] as int);
    }
    lemma_sum1_congruent(lf, lg, n);
    assert forall|k: int| 0 <= k < n implies #[trigger] lg(k) == #[trigger] rowtotal(k) by {
        lemma_psum_as_sum1(a, b, i, k, n);
        lemma_sum1_scale(|m: int| a[i][m] * b[m][k], |m: int| f(k, m), c[k][j] as int, n);
    }
    lemma_sum1_eq(lg, rowtotal, n);

    // The double sum may be summed in either order.
    lemma_sum1_swap(f, n, n);

    // Right side: wrap(psum(a, bc, i, j, n)) == wrap(sum1(coltotal, n)).
    lemma_psum_as_sum1(a, bc, i, j, n);
    assert forall|m: int| 0 <= m < n implies wrap(#[trigger] rf(m)) == wrap(#[trigger] rg(m)) by {
        assert(bc[m][j] == wrap(psum(b, c, m, j, n)));
        lemma_wrap_fits(wrap(psum(b, c, m, j, n)) as int);
        lemma_congruent_mul(wrap(psum(b, c, m, j, n)) as int, psum(b, c, m, j, n), a[i][m] as int);
    }
    lemma_sum1_congruent(rf, rg, n);
    assert forall|m: int| 0 <= m < n implies #[trigger] rg(m) == #[trigger] coltotal(m) by {
        lemma_psum_as_sum1(b, c, m, j, n);
        lemma_sum1_scale(
            |k: int| b[m][k] * c[k][j],
            |k: int| b[m][k] * c[k][j] * a[i][m],
            a[i][m] as int,
            n,
        );
        assert forall|k: int| 0 <= k < n implies #[trigger] f(k, m) == b[m][k] * c[k][j] * a[i][
            m] by {
            assert(a[i][m] * b[m][k] * c[k][j] == b[m][k] * c[k][j] * a[i][m]) by (nonlinear_arith);
        }
        lemma_sum1_eq(|k: int| b[m][k] * c[k][j] * a[i][m], |k: int| f(k, m), n);
        assert(rg(m) == sum1(|k: int| b[m][k] * c[k][j], n) * a[i][m]) by {
            assert(a[i][m] * psum(b, c, m, j, n) == psum(b, c, m, j, n) * a[i][m])
                by (nonlinear_arith);
        }
    }
    lemma_sum1_eq(rg, coltotal, n);
}

/// Associative law: the product of three square matrices does not depend
/// on the order in which the two multiplications are performed.
pub proof fn lemma_associative(a: Seq<Seq<i64>>, b: Seq<Seq<i64>>, c: Seq<Seq<i64>>, n: int)
    requires
        is_square(a, n),
        is_square(b, n),
        is_square(c, n),
    ensures
        mat_product(mat_product(a, b, n), c, n) == mat_product(a, mat_product(b, c, n), n),
{
    let lhs = mat_product(mat_product(a, b, n), c, n);
    lemma_product_square(mat_product(a, b, n), c, n);
    assert forall|i: int, j: int| 0 <= i < n && 0 <= j < n implies #[trigger] lhs[i][j]
        == product_entry(a, mat_product(b, c, n), n, i, j) by {
        lemma_entry_assoc(a, b, c, n, i, j);
    }
    lemma_pointwise_product(lhs, a, mat_product(b, c, n), n);
}

/// The identity matrix is square.
proof fn lemma_identity_square(n: int)
    requires
        n >= 0,
    ensures
        is_square(identity_seq(n), n),
{
    assert forall|i: int| 0 <= i < n implies (#[trigger] identity_seq(n)[i]).len() == n by {}
}

/// The zero matrix is square.
proof fn lemma_zero_square(n: int)
    requires
        n >= 0,
    ensures
        is_square(zero_seq(n), n),
{
    assert forall|i: int| 0 <= i < n implies (#[trigger] zero_seq(n)[i]).len() == n by {}
}

/// The reduction against an identity column picks out one element:
/// summing a[i][m] * identity[m][j] over m < k leaves a[i][j] once the
/// sum has passed column j, and nothing before that.
proof fn lemma_psum_identity_right(a: Seq<Seq<i64>>, n: int, i: int, j: int, k: int)
    requires
        is_square(a, n),
        0 <= i < n,
        0 <= j < n,
        0 <= k <= n,
    ensures
        psum(a, identity_seq(n), i, j, k) == if j < k {
            a[i][j] as int
        } else {
            0
        },
    decreases k,
{
    if k > 0 {
        lemma_psum_identity_right(a, n, i, j, k - 1);
    }
}

/// The mirrored form: summing identity[i][m] * a[m][j] leaves a[i][j].
proof fn lemma_psum_identity_left(a: Seq<Seq<i64>>, n: int, i: int, j: int, k: int)
    requires
        is_square(a, n),
        0 <= i < n,
        0 <= j < n,
        0 <= k <= n,
    ensures
        psum(identity_seq(n), a, i, j, k) == if i < k {
            a[i][j] as int
        } else {
            0
        },
    decreases k,
{
    if k > 0 {
        lemma_psum_identity_left(a, n, i, j, k - 1);
    }
}

/// Identity law: multiplying any square matrix by the identity matrix of
/// the same dimension, on either side, returns that matrix unchanged.
pub proof fn lemma_identity(a: Seq<Seq<i64>>, n: int)
    requires
        is_square(a, n),
    ensures
        mat_product(a, identity_seq(n), n) == a,
        mat_product(identity_seq(n), a, n) == a,
{
    assert forall|i: int, j: int| 0 <= i < n && 0 <= j < n implies #[trigger] a[i][j]
        == product_entry(a, identity_seq(n), n, i, j) && a[i][j] == product_entry(
        identity_seq(n),
        a,
        n,
        i,
        j,
    ) by {
        lemma_psum_identity_right(a, n, i, j, n);
        lemma_psum_identity_left(a, n, i, j, n);
        lemma_wrap_fits(a[i][j] as int);
    }
    lemma_pointwise_product(a, a, identity_seq(n), n);
    lemma_pointwise_product(a, identity_seq(n), a, n);
}

/// Cross-variant equivalence and tile-size invariance: every
/// multiplication variant's contract pins its result to `mat_product` of
/// the operands, so any two results computed for the same operands are
/// equal - whichever loop ordering produced each, and whatever tile size
/// the blocked variant used.
pub proof fn lemma_product_unique(a: &Matrix, b: &Matrix, c1: &Matrix, c2: &Matrix)
    requires
        c1@ == mat_product(a@, b@, a.dim()),
        c2@ == mat_product(a@, b@, a.dim()),
    ensures
        c1@ == c2@,
{
}

/// Determinism of generation: `random_matrix`'s contract pins its result
/// to `gen_matrix` of the dimension and the seed, so two matrices
/// generated with the same dimension and seed are equal.
pub proof fn lemma_generation_deterministic(n: int, seed: u64, m1: &Matrix, m2: &Matrix)
    requires
        m1@ == gen_matrix(n, seed),
        m2@ == gen_matrix(n, seed),
    ensures
        m1@ == m2@,
{
}

/// Against an all-zero operand every term of the reduction is zero.
proof fn lemma_psum_zero_right(a: Seq<Seq<i64>>, n: int, i: int, j: int, k: int)
    requires
        0 <= j < n,
        0 <= k <= n,
    ensures
        psum(a, zero_seq(n), i, j, k) == 0,
    decreases k,
{
    if k > 0 {
        lemma_psum_zero_right(a, n, i, j, k - 1);
        assert(zero_seq(n)[k - 1][j] == 0i64);
    }
}

/// The mirrored form, with the zero matrix on the left.
proof fn lemma_psum_zero_left(a: Seq<Seq<i64>>, n: int, i: int, j: int, k: int)
    requires
        0 <= i < n,
        0 <= k <= n,
    ensures
        psum(zero_seq(n), a, i, j, k) == 0,
    decreases k,
{
    if k > 0 {
        lemma_psum_zero_left(a, n, i, j, k - 1);
        assert(zero_seq(n)[i][k - 1] == 0i64);
    }
}

/// Zero law: multiplying any square matrix by the all-zero matrix of the
/// same dimension, on either side, returns the all-zero matrix.
pub proof fn lemma_zero(a: Seq<Seq<i64>>, n: int)
    requires
        is_square(a, n),
    ensures
        mat_product(a, zero_seq(n), n) == zero_seq(n),
        mat_product(zero_seq(n), a, n) == zero_seq(n),
{
    lemma_zero_square(n);
    assert forall|i: int, j: int| 0 <= i < n && 0 <= j < n implies #[trigger] zero_seq(n)[i][j]
        == product_entry(a, zero_seq(n), n, i, j) && zero_seq(n)[i][j] == product_entry(
        zero_seq(n),
        a,
        n,
        i,
        j,
    ) by {
        lemma_psum_zero_right(a, n, i, j, n);
        lemma_psum_zero_left(a, n, i, j, n);
        lemma_wrap_fits(0);
    }
    lemma_pointwise_product(zero_seq(n), a, zero_seq(n), n);
    lemma_pointwise_product(zero_seq(n), zero_seq(n), a, n);
}

} // verus!
