//! A rectangular matrix of integers, stored row by row.
use vstd::prelude::*;

verus! {

/// Rows of equal length; the column count is kept apart so that a matrix
/// without rows still has one.
pub struct Matrix {
    data: Vec<Vec<i64>>,
    ncols: usize,
}

impl View for Matrix {
    type V = Seq<Seq<i64>>;

    /// The rows, top to bottom, each left to right.
    closed spec fn view(&self) -> Seq<Seq<i64>> {
        self.data@.map_values(|r: Vec<i64>| r@)
    }
}

/// Column `c` of `rows`, top to bottom.
pub open spec fn column_of(rows: Seq<Seq<i64>>, c: int) -> Seq<i64> {
    Seq::new(rows.len(), |r: int| rows[r][c])
}

impl Matrix {
    /// Number of columns.
    pub closed spec fn col_count(&self) -> nat {
        self.ncols as nat
    }

    #[verifier::type_invariant]
    spec fn rectangular(&self) -> bool {
        forall|r: int| 0 <= r < self.data@.len() ==> #[trigger] self.data@[r]@.len() == self.ncols
    }

    /// A matrix of `ncols` columns with the given rows; `None` where a row
    /// has another length.
    pub fn from_rows(ncols: usize, rows: Vec<Vec<i64>>) -> (r: Option<Matrix>)
        ensures
            r is Some <==> forall|i: int| 0 <= i < rows@.len() ==> #[trigger] rows@[i]@.len() == ncols,
            r matches Some(m) ==> m@ == rows@.map_values(|v: Vec<i64>| v@) && m.col_count() == ncols,
    {
        let mut i: usize = 0;
        while i < rows.len()
            invariant
                i <= rows@.len(),
                forall|j: int| 0 <= j < i ==> #[trigger] rows@[j]@.len() == ncols,
            decreases rows@.len() - i,
        {
            if rows[i].len() != ncols {
                return None;
            }
            i = i + 1;
        }
        Some(Matrix { data: rows, ncols })
    }

    /// Number of rows.
    pub fn rows(&self) -> (r: usize)
        ensures
            r == self@.len(),
    {
        self.data.len()
    }

    /// Number of columns.
    pub fn cols(&self) -> (r: usize)
        ensures
            r == self.col_count(),
            forall|i: int| 0 <= i < self@.len() ==> #[trigger] self@[i].len() == r,
    {
        proof {
            use_type_invariant(self);
        }
        self.ncols
    }

    /// The entry in row `r` and column `c`.
    pub fn get(&self, r: usize, c: usize) -> (v: i64)
        requires
            r < self@.len(),
            c < self.col_count(),
        ensures
            v == self@[r as int][c as int],
    {
        proof {
            use_type_invariant(self);
        }
        self.data[r][c]
    }

    /// Row `r`, left to right.
    pub fn row(&self, r: usize) -> (v: &[i64])
        requires
            r < self@.len(),
        ensures
            v@ == self@[r as int],
    {
        self.data[r].as_slice()
    }

    /// Column `c`, top to bottom.
    pub fn column(&self, c: usize) -> (v: Vec<i64>)
        requires
            c < self.col_count(),
        ensures
            v@ == column_of(self@, c as int),
    {
        let mut v: Vec<i64> = Vec::new();
        let mut r: usize = 0;
        while r < self.data.len()
            invariant
                c < self.col_count(),
                r <= self@.len(),
                v@ == column_of(self@, c as int).subrange(0, r as int),
            decreases self@.len() - r,
        {
            v.push(self.get(r, c));
            r = r + 1;
            assert(v@ =~= column_of(self@, c as int).subrange(0, r as int));
        }
        assert(v@ =~= column_of(self@, c as int));
        v
    }
}

} // verus!
