//! Dense square matrix multiplication over 64-bit integer elements, with
//! wrapping (two's-complement) arithmetic, in four loop orderings: the three
//! naive nestings i-j-k, i-k-j and k-i-j, and a cache-blocked tiling of the
//! k-i-j order. A seeded pseudo-random generator produces reproducible
//! input matrices. Every variant is proved to return the same product,
//! entry for entry: the wrapped value of the exact reduction sum.

pub mod engine;
pub mod laws;
pub mod matrix;
pub mod model;
pub mod rng;

pub use engine::matmul_blocked;
pub use engine::matmul_ijk;
pub use engine::matmul_ikj;
pub use engine::matmul_kij;
pub use matrix::MatError;
pub use matrix::Matrix;
pub use rng::random_matrix;
