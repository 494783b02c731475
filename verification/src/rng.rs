//! The seeded pseudo-random matrix generator. The stream of words drawn
//! from rand's `StdRng` is a function of the seed alone, so generation is
//! reproducible: the contract pins every element of the result to the
//! stream, and two calls with the same dimension and seed return the same
//! matrix.

use crate::matrix::Matrix;
use crate::model::lemma_wrap_congruent;
use crate::model::lemma_wrap_fits;
use crate::model::wrap;
use rand::RngCore;
use rand::SeedableRng;
use vstd::prelude::*;

verus! {

/// The word at position `index` (counting from 0) of the pseudo-random
/// stream that rand's `StdRng` yields after being seeded with `seed`.
pub uninterp spec fn rand_word(seed: u64, index: int) -> u64;

#[verifier::external_type_specification]
#[verifier::external_body]
pub struct ExStdRng(rand::rngs::StdRng);

/// A `StdRng` together with the seed it was built from and the count of
/// words drawn so far, so that contracts can name the next word.
struct SeededRng {
    rng: rand::rngs::StdRng,
    seed: u64,
    drawn: Ghost<int>,
}

impl SeededRng {
    /// The seed this generator was built from.
    spec fn seed_of(self) -> u64 {
        self.seed
    }

    /// How many words have been drawn so far.
    spec fn drawn_of(self) -> int {
        self.drawn@
    }

    /// Relies on rand's `StdRng::seed_from_u64` (rand_core's deterministic
    /// PCG32 seed expansion over the ChaCha12 core): the generator state is
    /// a function of the seed alone.
    #[verifier::external_body]
    fn from_seed(seed: u64) -> (r: Self)
        ensures
            r.seed_of() == seed,
            r.drawn_of() == 0,
    {
        SeededRng { rng: rand::rngs::StdRng::seed_from_u64(seed), seed, drawn: Ghost(0) }
    }

    /// Relies on rand's `RngCore::next_u64` for `StdRng`: the word drawn at
    /// each position of the stream is a function of the seed and of the
    /// position alone, on every machine (the ChaCha12 stream is portable).
    #[verifier::external_body]
    fn next_word(&mut self) -> (w: u64)
        ensures
            final(self).seed_of() == old(self).seed_of(),
            final(self).drawn_of() == old(self).drawn_of() + 1,
            w == rand_word(old(self).seed_of(), old(self).drawn_of()),
    {
        self.rng.next_u64()
    }
}

/// Reinterprets a stream word as a signed 64-bit element: the value
/// congruent to the word modulo 2^64.
fn word_to_elem(w: u64) -> (r: i64)
    ensures
        r == wrap(w as int),
{
    if w <= 0x7fff_ffff_ffff_ffffu64 {
        proof {
            lemma_wrap_fits(w as int);
        }
        w as i64
    } else {
        let d = w - 0x8000_0000_0000_0000u64;
        proof {
            lemma_wrap_congruent(w as int, w as int - 0x1_0000_0000_0000_0000, 1);
            lemma_wrap_fits(w as int - 0x1_0000_0000_0000_0000);
        }
        (d as i64) + i64::MIN
    }
}

/// The matrix that `random_matrix` returns for a dimension and a seed:
/// element (i, j) is word i*n + j of the stream, reinterpreted as i64.
pub open spec fn gen_matrix(n: int, seed: u64) -> Seq<Seq<i64>> {
    Seq::new(
        n as nat,
        |i: int| Seq::new(n as nat, |j: int| wrap(rand_word(seed, i * n + j) as int)),
    )
}

/// An n-by-n matrix of pseudo-random elements, drawn row by row from a
/// generator seeded with `seed`. Deterministic: the result is a function
/// of `n` and `seed` alone.
#[verifier::loop_isolation(false)]
pub fn random_matrix(n: usize, seed: u64) -> (m: Matrix)
    ensures
        m.wf(),
        m.dim() == n as int,
        m@ == gen_matrix(n as int, seed),
{
    let mut rng = SeededRng::from_seed(seed);
    let mut rows: Vec<Vec<i64>> = Vec::new();
    let mut i: usize = 0;
    while i < n
        invariant
            i <= n,
            rng.seed_of() == seed,
            rng.drawn_of() == i as int * n as int,
            rows@.len() == i as int,
            forall|r: int|
                0 <= r < i as int ==> (#[trigger] rows@[r])@ == gen_matrix(n as int, seed)[r],
        decreases n - i,
    {
        let mut row: Vec<i64> = Vec::new();
        let mut j: usize = 0;
        while j < n
            invariant
                j <= n,
                rng.seed_of() == seed,
                rng.drawn_of() == i as int * n as int + j as int,
                row@.len() == j as int,
                forall|c: int|
                    0 <= c < j as int ==> #[trigger] row@[c] == wrap(
                        rand_word(seed, i as int * n as int + c) as int),
            decreases n - j,
        {
            let w = rng.next_word();
            row.push(word_to_elem(w));
            j += 1;
        }
        proof {
            assert(row@ =~= gen_matrix(n as int, seed)[i as int]);
            assert((i as int + 1) * n as int == i as int * n as int + n as int) by (nonlinear_arith);
        }
        rows.push(row);
        i += 1;
    }
    let ghost rs: Seq<Vec<i64>> = rows@;
    let m = Matrix::from_rows_exact(rows);
    proof {
        assert forall|r: int| 0 <= r < n as int implies m@[r] == gen_matrix(n as int, seed)[r] by {
            assert(m@[r] == rs[r]@);
            assert(rs[r]@ == gen_matrix(n as int, seed)[r]);
        }
        assert(m@ =~= gen_matrix(n as int, seed));
    }
    m
}

} // verus!
