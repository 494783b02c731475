//! The matrix container: a square, row-major grid of 64-bit integer
//! elements whose dimension is fixed when the value is built.

use crate::model::is_square;
use crate::model::zero_seq;
use vstd::prelude::*;

verus! {

/// The caller errors the engine can report: operands whose dimensions
/// disagree, and a zero tile size handed to the blocked variant.
#[derive(Clone, Copy, PartialEq, Eq, Structural, Debug)]
pub enum MatError {
    DimensionMismatch,
    InvalidBlockSize,
}

/// An n-by-n matrix of i64 elements, stored row-major: `rows[i][j]` is the
/// element in row i, column j.
#[derive(Debug)]
pub struct Matrix {
    n: usize,
    rows: Vec<Vec<i64>>,
}

impl View for Matrix {
    type V = Seq<Seq<i64>>;

    closed spec fn view(&self) -> Seq<Seq<i64>> {
        self.rows@.map_values(|r: Vec<i64>| r@)
    }
}

/// The view of a matrix indexes the backing rows: same length, and the
/// sequence at index r is the view of row r.
proof fn lemma_view_rows(m: &Matrix)
    ensures
        m@.len() == m.rows@.len(),
        forall|r: int| 0 <= r < m.rows@.len() ==> m@[r] == (#[trigger] m.rows@[r])@,
{
}

impl Matrix {
    /// Dimension n of this n-by-n matrix.
    pub closed spec fn dim(&self) -> int {
        self.n as int
    }

    /// Well-formed: exactly n rows of n columns each.
    pub open spec fn wf(&self) -> bool {
        is_square(self@, self.dim())
    }

    /// The dimension, as a runtime value.
    pub fn size(&self) -> (r: usize)
        ensures
            r as int == self.dim(),
    {
        self.n
    }

    /// The all-zero matrix of dimension n.
    pub fn zero(n: usize) -> (m: Matrix)
        ensures
            m.wf(),
            m.dim() == n as int,
            m@ == zero_seq(n as int),
    {
        let mut rows: Vec<Vec<i64>> = Vec::new();
        let mut i: usize = 0;
        while i < n
            invariant
                i <= n,
                rows@.len() == i as int,
                forall|r: int|
                    0 <= r < i as int ==> (#[trigger] rows@[r])@ == zero_seq(n as int)[r],
            decreases n - i,
        {
            let mut row: Vec<i64> = Vec::new();
            let mut j: usize = 0;
            while j < n
                invariant
                    j <= n,
                    row@.len() == j as int,
                    forall|c: int| 0 <= c < j as int ==> #[trigger] row@[c] == 0i64,
                decreases n - j,
            {
                row.push(0i64);
                j += 1;
            }
            proof {
                assert(row@ =~= zero_seq(n as int)[i as int]);
            }
            rows.push(row);
            i += 1;
        }
        let m = Matrix { n, rows };
        proof {
            assert(m@ =~~= zero_seq(n as int));
        }
        m
    }

    /// Wraps rows already known to form a square grid.
    pub(crate) fn from_rows_exact(rows: Vec<Vec<i64>>) -> (m: Matrix)
        requires
            forall|i: int|
                0 <= i < rows@.len() ==> (#[trigger] rows@[i])@.len() == rows@.len(),
        ensures
            m.wf(),
            m.dim() == rows@.len(),
            forall|i: int| 0 <= i < rows@.len() ==> m@[i] == (#[trigger] rows@[i])@,
    {
        let n = rows.len();
        Matrix { n, rows }
    }

    /// Builds a matrix from a grid of rows, rejecting a grid whose row
    /// count and row lengths do not agree on one dimension.
    pub fn from_rows(rows: Vec<Vec<i64>>) -> (r: Result<Matrix, MatError>)
        ensures
            (match r {
                Ok(m) => {
                    &&& forall|i: int|
                        0 <= i < rows@.len() ==> (#[trigger] rows@[i])@.len() == rows@.len()
                    &&& m.wf()
                    &&& m.dim() == rows@.len()
                    &&& forall|i: int| 0 <= i < rows@.len() ==> m@[i] == (#[trigger] rows@[i])@
                },
                Err(e) => {
                    &&& e == MatError::DimensionMismatch
                    &&& exists|i: int|
                        0 <= i < rows@.len() && (#[trigger] rows@[i])@.len() != rows@.len()
                },
            }),
    {
        let n = rows.len();
        let mut i: usize = 0;
        while i < n
            invariant
                i <= n,
                n as int == rows@.len(),
                forall|r: int| 0 <= r < i as int ==> (#[trigger] rows@[r])@.len() == rows@.len(),
            decreases n - i,
        {
            if rows[i].len() != n {
                return Err(MatError::DimensionMismatch);
            }
            i += 1;
        }
        Ok(Matrix::from_rows_exact(rows))
    }

    /// The element in row i, column j.
    pub fn entry(&self, i: usize, j: usize) -> (v: i64)
        requires
            self.wf(),
            (i as int) < self.dim(),
            (j as int) < self.dim(),
        ensures
            v == self@[i as int][j as int],
    {
        proof {
            lemma_view_rows(self);
        }
        self.rows[i][j]
    }

    /// Replaces the element in row i, column j; every other element keeps
    /// its value.
    pub(crate) fn set_entry(&mut self, i: usize, j: usize, v: i64)
        requires
            old(self).wf(),
            (i as int) < old(self).dim(),
            (j as int) < old(self).dim(),
        ensures
            final(self).wf(),
            final(self).dim() == old(self).dim(),
            final(self)@[i as int][j as int] == v,
            forall|r: int, c: int|
                0 <= r < old(self).dim() && 0 <= c < old(self).dim() && !(r == i as int && c
                    == j as int) ==> final(self)@[r][c] == old(self)@[r][c],
    {
        proof {
            lemma_view_rows(self);
        }
        self.rows[i][j] = v;
        proof {
            lemma_view_rows(self);
            assert forall|r: int, c: int|
                0 <= r < old(self).dim() && 0 <= c < old(self).dim() && !(r == i as int && c
                    == j as int) implies self@[r][c] == old(self)@[r][c] by {
                if r == i as int {
                    assert(self.rows@[r]@ == old(self).rows@[r]@.update(j as int, v));
                }
            }
        }
    }

    /// Whether two matrices have the same dimension and the same element
    /// at every index.
    pub fn equals(&self, other: &Matrix) -> (r: bool)
        requires
            self.wf(),
            other.wf(),
        ensures
            r == (self.dim() == other.dim() && self@ == other@),
    {
        let n = self.size();
        if n != other.size() {
            proof {
                assert(self@.len() != other@.len());
            }
            return false;
        }
        let mut i: usize = 0;
        while i < n
            invariant
                i <= n,
                n as int == self.dim() == other.dim(),
                self.wf(),
                other.wf(),
                forall|r0: int, c0: int|
                    0 <= r0 < i as int && 0 <= c0 < n as int ==> #[trigger] self@[r0][c0]
                        == other@[r0][c0],
            decreases n - i,
        {
            let mut j: usize = 0;
            while j < n
                invariant
                    j <= n,
                    i < n,
                    n as int == self.dim() == other.dim(),
                    self.wf(),
                    other.wf(),
                    forall|c0: int|
                        0 <= c0 < j as int ==> #[trigger] self@[i as int][c0] == other@[i as
                            int][c0],
                decreases n - j,
            {
                if self.entry(i, j) != other.entry(i, j) {
                    proof {
                        assert(self@[i as int][j as int] != other@[i as int][j as int]);
                    }
                    return false;
                }
                j += 1;
            }
            i += 1;
        }
        proof {
            assert forall|r0: int| 0 <= r0 < n as int implies self@[r0] =~= other@[r0] by {
                assert(forall|c0: int|
                    0 <= c0 < n as int ==> #[trigger] self@[r0][c0] == other@[r0][c0]);
            }
            assert(self@ =~~= other@);
        }
        true
    }
}

} // verus!
