//! Matrices are ndarray arrays of `i64`, held in a type of the library: the
//! few ndarray calls the library makes, with what they are relied on to do,
//! and verified constructors and readers built on them.
use vstd::prelude::*;
use ndarray::Array2;

verus! {

/// A two-dimensional array of integers: a raw image or a padded integral
/// image.
#[verifier::external_body]
pub struct Matrix {
    inner: Array2<i64>,
}

/// The entries of a matrix, row by row.
pub uninterp spec fn matrix_contents(m: Matrix) -> Seq<Seq<i64>>;

/// The number of columns of a matrix, also when it has no rows.
pub uninterp spec fn matrix_width(m: Matrix) -> nat;

/// The number of columns of a matrix.
pub open spec fn width_of(m: &Matrix) -> int {
    matrix_width(*m) as int
}

/// The view of a matrix as a sequence of rows.
pub open spec fn grid_view(m: &Matrix) -> Seq<Seq<i64>> {
    matrix_contents(*m)
}

/// The view of nested vectors as a sequence of rows.
pub open spec fn rows_view(v: &Vec<Vec<i64>>) -> Seq<Seq<i64>> {
    v@.map_values(|row: Vec<i64>| row@)
}

/// A matrix with `rows` rows of `cols` entries each.
pub open spec fn is_grid(m: Seq<Seq<i64>>, rows: int, cols: int) -> bool {
    &&& m.len() == rows
    &&& forall|r: int| 0 <= r < rows ==> (#[trigger] m[r]).len() == cols
}

impl Matrix {
    /// Relies on ndarray's `ArrayBase::dim`: the number of rows and of
    /// columns, every row holding that many columns. ndarray keeps the
    /// product of the non-zero axis lengths within `isize::MAX`, so each
    /// length and their product stay within it.
    #[verifier::external_body]
    pub(crate) fn shape(&self) -> (r: (usize, usize))
        ensures
            is_grid(matrix_contents(*self), r.0 as int, r.1 as int),
            r.1 == matrix_width(*self),
            r.0 <= isize::MAX,
            r.1 <= isize::MAX,
            r.0 * r.1 <= isize::MAX,
    {
        self.inner.dim()
    }

    /// Relies on ndarray's `Index<[usize; 2]>`: the entry at row `r`,
    /// column `c`.
    #[verifier::external_body]
    pub(crate) fn at(&self, r: usize, c: usize) -> (v: i64)
        requires
            r < matrix_contents(*self).len(),
            c < matrix_contents(*self)[r as int].len(),
        ensures
            v == matrix_contents(*self)[r as int][c as int],
    {
        self.inner[[r, c]]
    }

    /// Relies on ndarray's `Array2::from_shape_vec` in its default row-major
    /// layout: entry `(r, c)` is `v[r * cols + c]`. The shape check fails when
    /// the product of the non-zero axis lengths exceeds `isize::MAX`, so each
    /// length is kept within it.
    #[verifier::external_body]
    pub(crate) fn from_flat(v: Vec<i64>, rows: usize, cols: usize) -> (m: Matrix)
        requires
            v@.len() == rows * cols,
            rows <= isize::MAX,
            cols <= isize::MAX,
            rows * cols <= isize::MAX,
        ensures
            is_grid(matrix_contents(m), rows as int, cols as int),
            matrix_width(m) == cols,
            forall|r: int, c: int|
                0 <= r < rows && 0 <= c < cols ==> #[trigger] matrix_contents(m)[r][c] == v@[r * cols + c],
    {
        Matrix { inner: Array2::from_shape_vec((rows, cols), v).unwrap() }
    }

    /// Relies on ndarray's `Clone` for owned arrays: a copy with the same
    /// entries.
    #[verifier::external_body]
    pub(crate) fn copy(&self) -> (r: Matrix)
        ensures
            matrix_contents(r) == matrix_contents(*self),
            matrix_width(r) == matrix_width(*self),
    {
        Matrix { inner: self.inner.clone() }
    }

    /// The `rows` by `cols` matrix whose entries are `v` in row-major order,
    /// or `None` when `v` does not hold `rows * cols` entries, or a side or
    /// the entry count exceeds `isize::MAX`.
    pub fn new(v: Vec<i64>, rows: usize, cols: usize) -> (r: Option<Matrix>)
        ensures
            r.is_some() <==> v@.len() == rows * cols && rows <= isize::MAX && cols <= isize::MAX
                && rows * cols <= isize::MAX,
            r.is_some() ==> is_grid(grid_view(&r.unwrap()), rows as int, cols as int),
            r.is_some() ==> width_of(&r.unwrap()) == cols,
            r.is_some() ==> forall|i: int, j: int|
                0 <= i < rows && 0 <= j < cols ==> #[trigger] grid_view(&r.unwrap())[i][j] == v@[i * cols + j],
    {
        assert((rows as int) * (cols as int) <= usize::MAX * usize::MAX) by (nonlinear_arith)
            requires
                rows <= usize::MAX,
                cols <= usize::MAX,
        ;
        let n = (rows as u128) * (cols as u128);
        if n != v.len() as u128 || n > isize::MAX as u128 || rows > isize::MAX as usize || cols
            > isize::MAX as usize {
            return None;
        }
        Some(Matrix::from_flat(v, rows, cols))
    }

    /// The matrix built from equally long rows, or `None` when the rows
    /// differ in length or a side or the entry count would exceed
    /// `isize::MAX`.
    pub fn from_rows(rows: &Vec<Vec<i64>>) -> (r: Option<Matrix>)
        ensures
            r.is_some() <==> (rows@.len() == 0 || (is_grid(rows_view(rows), rows@.len() as int, rows@[0]@.len() as int)
                && rows@.len() <= isize::MAX && rows@[0]@.len() <= isize::MAX
                && rows@.len() * rows@[0]@.len() <= isize::MAX)),
            r.is_some() ==> grid_view(&r.unwrap()) == rows_view(rows),
    {
        let nrows = rows.len();
        let ncols: usize = if nrows == 0 {
            0
        } else {
            rows[0].len()
        };
        let mut i: usize = 0;
        while i < nrows
            invariant
                nrows == rows@.len(),
                nrows > 0 ==> ncols == rows@[0]@.len(),
                i <= nrows,
                forall|k: int| 0 <= k < i ==> (#[trigger] rows@[k])@.len() == ncols,
            decreases nrows - i,
        {
            if rows[i].len() != ncols {
                proof {
                    assert(rows_view(rows)[i as int] == rows@[i as int]@);
                }
                return None;
            }
            i = i + 1;
        }
        assert((nrows as int) * (ncols as int) <= usize::MAX * usize::MAX) by (nonlinear_arith)
            requires
                nrows <= usize::MAX,
                ncols <= usize::MAX,
        ;
        if (nrows as u128) * (ncols as u128) > isize::MAX as u128 || nrows > isize::MAX as usize
            || ncols > isize::MAX as usize {
            return None;
        }
        proof {
            assert forall|k: int| 0 <= k < nrows implies (#[trigger] rows_view(rows)[k]).len() == ncols by {
                assert(rows_view(rows)[k] == rows@[k]@);
            }
        }
        let m = matrix_from_rows(rows, ncols);
        Some(m)
    }

    /// The rows of the matrix.
    pub fn to_rows(&self) -> (r: Vec<Vec<i64>>)
        ensures
            rows_view(&r) == grid_view(self),
    {
        let (nrows, ncols) = self.shape();
        let ghost g = grid_view(self);
        let mut out: Vec<Vec<i64>> = Vec::with_capacity(nrows);
        let mut i: usize = 0;
        while i < nrows
            invariant
                g == grid_view(self),
                is_grid(g, nrows as int, ncols as int),
                i <= nrows,
                out@.len() == i,
                forall|k: int| 0 <= k < i ==> (#[trigger] out@[k])@ == g[k],
            decreases nrows - i,
        {
            let mut row: Vec<i64> = Vec::with_capacity(ncols);
            let mut j: usize = 0;
            while j < ncols
                invariant
                    g == grid_view(self),
                    is_grid(g, nrows as int, ncols as int),
                    i < nrows,
                    j <= ncols,
                    row@ == g[i as int].take(j as int),
                decreases ncols - j,
            {
                row.push(self.at(i, j));
                assert(row@ =~= g[i as int].take(j + 1));
                j = j + 1;
            }
            assert(row@ =~= g[i as int]);
            out.push(row);
            i = i + 1;
        }
        assert(rows_view(&out) =~= g);
        out
    }
}

/// The matrix holding `rows`, each of `cols` entries.
pub fn matrix_from_rows(rows: &Vec<Vec<i64>>, cols: usize) -> (m: Matrix)
    requires
        is_grid(rows_view(rows), rows@.len() as int, cols as int),
        rows@.len() <= isize::MAX,
        cols <= isize::MAX,
        rows@.len() * cols <= isize::MAX,
    ensures
        grid_view(&m) == rows_view(rows),
        width_of(&m) == cols,
{
    let ghost g = rows_view(rows);
    let nrows = rows.len();
    let mut flat: Vec<i64> = Vec::new();
    let mut i: usize = 0;
    while i < nrows
        invariant
            g == rows_view(rows),
            nrows == rows@.len(),
            is_grid(g, nrows as int, cols as int),
            nrows * cols <= isize::MAX,
            nrows <= isize::MAX,
            cols <= isize::MAX,
            i <= nrows,
            flat@.len() == i * cols,
            forall|r: int, c: int| 0 <= r < i && 0 <= c < cols ==> #[trigger] flat@[r * cols + c] == g[r][c],
        decreases nrows - i,
    {
        assert(g[i as int] == rows@[i as int]@);
        let mut j: usize = 0;
        while j < cols
            invariant
                g == rows_view(rows),
                nrows == rows@.len(),
                is_grid(g, nrows as int, cols as int),
                g[i as int] == rows@[i as int]@,
                i < nrows,
                j <= cols,
                flat@.len() == i * cols + j,
                forall|r: int, c: int| 0 <= r < i && 0 <= c < cols ==> #[trigger] flat@[r * cols + c] == g[r][c],
                forall|c: int| 0 <= c < j ==> #[trigger] flat@[i * cols + c] == g[i as int][c],
            decreases cols - j,
        {
            let ghost before = flat@;
            flat.push(rows[i][j]);
            proof {
                assert forall|r: int, c: int| 0 <= r < i && 0 <= c < cols implies #[trigger] flat@[r * cols + c] == g[r][c] by {
                    assert(r * cols + c < i * cols) by (nonlinear_arith)
                        requires
                            0 <= r < i,
                            0 <= c < cols,
                    ;
                    assert(flat@[r * cols + c] == before[r * cols + c]);
                }
                assert forall|c: int| 0 <= c < j + 1 implies #[trigger] flat@[i * cols + c] == g[i as int][c] by {
                    if c < j {
                        assert(flat@[i * cols + c] == before[i * cols + c]);
                    }
                }
            }
            j = j + 1;
        }
        assert((i + 1) * cols == i * cols + cols) by (nonlinear_arith);
        i = i + 1;
    }
    let m = Matrix::from_flat(flat, nrows, cols);
    assert(grid_view(&m) =~= g) by {
        assert forall|r: int| 0 <= r < nrows implies #[trigger] grid_view(&m)[r] =~= g[r] by {
            assert forall|c: int| 0 <= c < cols implies #[trigger] grid_view(&m)[r][c] == g[r][c] by {
                assert(grid_view(&m)[r][c] == flat@[r * cols + c]);
            }
        }
    }
    m
}

} // verus!
