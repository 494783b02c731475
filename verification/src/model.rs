//! Mathematical model of the engine: matrices as sequences of rows, the
//! exact reduction sum of the matrix product, and the wrapping of exact
//! integer values into a 64-bit accumulator.

use vstd::arithmetic::div_mod::{
    lemma_fundamental_div_mod, lemma_mod_division_less_than_divisor, lemma_mod_multiples_vanish,
};
use vstd::prelude::*;

verus! {

/// A sequence of rows forms a square matrix of dimension `n`.
pub open spec fn is_square(m: Seq<Seq<i64>>, n: int) -> bool {
    m.len() == n && forall|i: int| 0 <= i < n ==> (#[trigger] m[i]).len() == n
}

/// The i64 value congruent to `x` modulo 2^64: what a chain of wrapping
/// additions and multiplications leaves in a 64-bit accumulator whose
/// exact (unbounded) value would be `x`.
pub open spec fn wrap(x: int) -> i64 {
    vstd::wrapping::i64_specs::signed_crop(x)
}

/// Exact (unbounded) sum of the first `k` products of the reduction that
/// defines entry (i, j) of the matrix product: sum of a[i][m] * b[m][j]
/// over m < k.
pub open spec fn psum(a: Seq<Seq<i64>>, b: Seq<Seq<i64>>, i: int, j: int, k: int) -> int
    decreases k,
{
    if k <= 0 {
        0
    } else {
        psum(a, b, i, j, k - 1) + a[i][k - 1] * b[k - 1][j]
    }
}

/// Entry (i, j) of the product of two n-by-n matrices: the full reduction
/// sum, wrapped into a 64-bit element.
pub open spec fn product_entry(a: Seq<Seq<i64>>, b: Seq<Seq<i64>>, n: int, i: int, j: int) -> i64 {
    wrap(psum(a, b, i, j, n))
}

/// The n-by-n matrix product itself. All four multiplication variants
/// return exactly this matrix.
pub open spec fn mat_product(a: Seq<Seq<i64>>, b: Seq<Seq<i64>>, n: int) -> Seq<Seq<i64>> {
    Seq::new(n as nat, |i: int| Seq::new(n as nat, |j: int| product_entry(a, b, n, i, j)))
}

/// The n-by-n identity matrix.
pub open spec fn identity_seq(n: int) -> Seq<Seq<i64>> {
    Seq::new(
        n as nat,
        |i: int| Seq::new(n as nat, |j: int| if i == j { 1i64 } else { 0i64 }),
    )
}

/// The n-by-n all-zero matrix.
pub open spec fn zero_seq(n: int) -> Seq<Seq<i64>> {
    Seq::new(n as nat, |i: int| Seq::new(n as nat, |j: int| 0i64))
}

/// Wrapping is the identity on values that already fit in an i64.
pub proof fn lemma_wrap_fits(x: int)
    requires
        i64::MIN <= x <= i64::MAX,
    ensures
        wrap(x) == x,
{
    lemma_mod_division_less_than_divisor(x, 0x1_0000_0000_0000_0000);
    if x >= 0 {
        vstd::arithmetic::div_mod::lemma_small_mod(x as nat, 0x1_0000_0000_0000_0000 as nat);
    } else {
        lemma_mod_multiples_vanish(1, x, 0x1_0000_0000_0000_0000);
        vstd::arithmetic::div_mod::lemma_small_mod(
            (x + 0x1_0000_0000_0000_0000) as nat,
            0x1_0000_0000_0000_0000 as nat,
        );
    }
}

/// Values that differ by a multiple of 2^64 wrap to the same element.
pub proof fn lemma_wrap_congruent(x: int, y: int, k: int)
    requires
        x == y + k * 0x1_0000_0000_0000_0000,
    ensures
        wrap(x) == wrap(y),
{
    lemma_mod_multiples_vanish(k, y, 0x1_0000_0000_0000_0000);
    assert(0x1_0000_0000_0000_0000 * k + y == x);
    assert(x % 0x1_0000_0000_0000_0000 == y % 0x1_0000_0000_0000_0000);
}

/// `wrap(x)` differs from `x` by a multiple of 2^64; this names the factor.
pub proof fn lemma_wrap_offset(x: int) -> (k: int)
    ensures
        wrap(x) == x + k * 0x1_0000_0000_0000_0000,
{
    lemma_fundamental_div_mod(x, 0x1_0000_0000_0000_0000);
    lemma_mod_division_less_than_divisor(x, 0x1_0000_0000_0000_0000);
    let q = x / 0x1_0000_0000_0000_0000;
    if x % 0x1_0000_0000_0000_0000 > i64::MAX {
        -q - 1
    } else {
        -q
    }
}

/// A wrapped operand can replace the exact one under a further wrap:
/// wrapping an addition whose left operand was already wrapped loses nothing.
pub proof fn lemma_wrap_add(x: int, y: int)
    ensures
        wrap(wrap(x) + y) == wrap(x + y),
{
    let k = lemma_wrap_offset(x);
    lemma_wrap_congruent(wrap(x) + y, x + y, k);
}

/// Entrywise sum of two n-by-n matrices, each entry wrapped.
pub open spec fn mat_sum(a: Seq<Seq<i64>>, b: Seq<Seq<i64>>, n: int) -> Seq<Seq<i64>> {
    Seq::new(n as nat, |i: int| Seq::new(n as nat, |j: int| wrap(a[i][j] + b[i][j])))
}

/// Values that wrap to the same element differ by a multiple of 2^64;
/// this names the factor.
pub proof fn lemma_wrap_equal_congruent(x: int, y: int) -> (k: int)
    requires
        wrap(x) == wrap(y),
    ensures
        x == y + k * 0x1_0000_0000_0000_0000,
{
    let k1 = lemma_wrap_offset(x);
    let k2 = lemma_wrap_offset(y);
    k2 - k1
}

/// Congruence of addition: replacing both summands by values that wrap
/// the same leaves the wrap of the sum unchanged.
pub proof fn lemma_congruent_add(x1: int, x2: int, y1: int, y2: int)
    requires
        wrap(x1) == wrap(x2),
        wrap(y1) == wrap(y2),
    ensures
        wrap(x1 + y1) == wrap(x2 + y2),
{
    let k1 = lemma_wrap_equal_congruent(x1, x2);
    let k2 = lemma_wrap_equal_congruent(y1, y2);
    lemma_wrap_congruent(x1 + y1, x2 + y2, k1 + k2);
}

/// Congruence of multiplication: replacing one factor by a value that
/// wraps the same leaves the wrap of the product unchanged.
pub proof fn lemma_congruent_mul(x1: int, x2: int, y: int)
    requires
        wrap(x1) == wrap(x2),
    ensures
        wrap(x1 * y) == wrap(x2 * y),
        wrap(y * x1) == wrap(y * x2),
{
    let k = lemma_wrap_equal_congruent(x1, x2);
    assert(x1 * y == x2 * y + (k * y) * 0x1_0000_0000_0000_0000 && y * x1 == x1 * y && y * x2
        == x2 * y) by (nonlinear_arith)
        requires
            x1 == x2 + k * 0x1_0000_0000_0000_0000,
    ;
    lemma_wrap_congruent(x1 * y, x2 * y, k * y);
}

/// The executable wrapping addition of two i64 values computes the wrap of
/// their exact sum.
pub proof fn lemma_wrapping_add_wrap(x: i64, y: i64)
    ensures
        vstd::wrapping::i64_specs::wrapping_add(x, y) == wrap(x + y),
{
    if x + y > i64::MAX {
        lemma_wrap_congruent(x + y, x + y - 0x1_0000_0000_0000_0000, 1);
        lemma_wrap_fits(x + y - 0x1_0000_0000_0000_0000);
    } else if x + y < i64::MIN {
        lemma_wrap_congruent(x + y, x + y + 0x1_0000_0000_0000_0000, -1);
        lemma_wrap_fits(x + y + 0x1_0000_0000_0000_0000);
    } else {
        lemma_wrap_fits(x + y);
    }
}

/// One accumulation step of every multiplication variant: adding the
/// wrapped product of two elements into an accumulator that holds the wrap
/// of a partial sum `s` yields the wrap of `s` plus the exact product.
pub proof fn lemma_acc_step(s: int, x: i64, y: i64)
    ensures
        vstd::wrapping::i64_specs::wrapping_add(wrap(s), vstd::wrapping::i64_specs::wrapping_mul(x, y))
            == wrap(s + x * y),
{
    let p = vstd::wrapping::i64_specs::wrapping_mul(x, y);
    assert(p == wrap(x * y));
    lemma_wrapping_add_wrap(wrap(s), p);
    lemma_wrap_add(s, p as int);
    lemma_wrap_add(x * y, s);
}

/// A matrix that agrees with the product entry at every index is the
/// product matrix.
pub proof fn lemma_pointwise_product(c: Seq<Seq<i64>>, a: Seq<Seq<i64>>, b: Seq<Seq<i64>>, n: int)
    requires
        is_square(c, n),
        forall|i: int, j: int|
            0 <= i < n && 0 <= j < n ==> #[trigger] c[i][j] == product_entry(a, b, n, i, j),
    ensures
        c == mat_product(a, b, n),
{
    let p = mat_product(a, b, n);
    assert forall|i: int| 0 <= i < n implies c[i] =~= p[i] by {
        assert(forall|j: int| 0 <= j < n ==> c[i][j] == product_entry(a, b, n, i, j));
    }
    assert(c =~~= p);
}

} // verus!
