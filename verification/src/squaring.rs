//! The squaring stage: padding a matrix with zeros to a square of a given side.

use crate::error::JobError;
use crate::job::Job;
use crate::matrix::{rectangular, shape_fits, Matrix};
use vstd::prelude::*;

verus! {

/// The larger of two numbers.
pub open spec fn larger(x: nat, y: nat) -> nat {
    if x >= y {
        x
    } else {
        y
    }
}

/// The side that two matrices of the given extents are padded to: the largest
/// of the four extents.
pub open spec fn common_side(a_rows: nat, a_cols: nat, b_rows: nat, b_cols: nat) -> nat {
    larger(larger(a_rows, a_cols), larger(b_rows, b_cols))
}

/// The `d` by `d` grid that has `m` in its top-left corner and zeros elsewhere.
pub open spec fn padded(m: Seq<Seq<i32>>, d: nat) -> Seq<Seq<i32>> {
    Seq::new(
        d,
        |r: int|
            Seq::new(
                d,
                |c: int|
                    if r < m.len() && c < m[r].len() {
                        m[r][c]
                    } else {
                        0i32
                    },
            ),
    )
}

/// What padding `matrix` to side `d` gives: `DimensionTooSmall` exactly when
/// `d` is below the number of rows or of columns, and otherwise the `d` by
/// `d` matrix that is [`padded`] from `matrix`.
pub open spec fn squaring(matrix: Matrix, d: nat, res: Result<Matrix, JobError>) -> bool {
    if d < larger(matrix.rows(), matrix.cols()) {
        res == Err::<Matrix, JobError>(JobError::DimensionTooSmall)
    } else {
        res matches Ok(square) && square@ == padded(matrix@, d) && square.rows() == d
            && square.cols() == d
    }
}

/// Padding keeps every entry of the input where it was and fills every other
/// cell of the square with zero.
pub proof fn lemma_padded_cells(m: Seq<Seq<i32>>, cols: nat, d: nat, r: int, c: int)
    requires
        rectangular(m, cols),
        d >= larger(m.len(), cols),
        0 <= r < d,
        0 <= c < d,
    ensures
        padded(m, d).len() == d,
        padded(m, d)[r].len() == d,
        r < m.len() && c < cols ==> padded(m, d)[r][c] == m[r][c],
        r >= m.len() || c >= cols ==> padded(m, d)[r][c] == 0,
{
}

/// Copies `matrix` into the top-left corner of a fresh `dimension` by
/// `dimension` matrix of zeros.
pub(crate) fn pad(matrix: &Matrix, dimension: usize) -> (square: Matrix)
    requires
        shape_fits(dimension as nat, dimension as nat),
        dimension >= larger(matrix.rows(), matrix.cols()),
    ensures
        square@ == padded(matrix@, dimension as nat),
        square.rows() == dimension,
        square.cols() == dimension,
{
    let rows: usize = matrix.nrows();
    let cols: usize = matrix.ncols();
    let mut square = Matrix::zeros(dimension, dimension);
    let mut r: usize = 0;
    while r < rows
        invariant
            r <= rows,
            rows == matrix.rows(),
            cols == matrix.cols(),
            rows <= dimension,
            cols <= dimension,
            rectangular(matrix@, cols as nat),
            square.cols() == dimension,
            square@.len() == dimension,
            rectangular(square@, dimension as nat),
            forall|i: int, j: int|
                0 <= i < dimension && 0 <= j < dimension ==> #[trigger] square@[i][j] == (if i < r
                    && j < cols {
                    matrix@[i][j]
                } else {
                    0i32
                }),
        decreases rows - r,
    {
        let mut c: usize = 0;
        while c < cols
            invariant
                r < rows,
                c <= cols,
                rows == matrix.rows(),
                cols == matrix.cols(),
                rows <= dimension,
                cols <= dimension,
                rectangular(matrix@, cols as nat),
                square.cols() == dimension,
                square@.len() == dimension,
                rectangular(square@, dimension as nat),
                forall|i: int, j: int|
                    0 <= i < dimension && 0 <= j < dimension ==> #[trigger] square@[i][j] == (if (i
                        < r && j < cols) || (i == r && j < c) {
                        matrix@[i][j]
                    } else {
                        0i32
                    }),
            decreases cols - c,
        {
            square.set(r, c, matrix.get(r, c));
            c += 1;
        }
        r += 1;
    }
    assert(square@ =~~= padded(matrix@, dimension as nat));
    square
}

impl Job {
    /// The side to which `matrix_a` and `matrix_b` are padded.
    pub fn max_dimension(matrix_a: &Matrix, matrix_b: &Matrix) -> (d: usize)
        ensures
            d == common_side(matrix_a.rows(), matrix_a.cols(), matrix_b.rows(), matrix_b.cols()),
    {
        let a_rows: usize = matrix_a.nrows();
        let a_cols: usize = matrix_a.ncols();
        let b_rows: usize = matrix_b.nrows();
        let b_cols: usize = matrix_b.ncols();
        let side_a: usize = if a_rows >= a_cols {
            a_rows
        } else {
            a_cols
        };
        let side_b: usize = if b_rows >= b_cols {
            b_rows
        } else {
            b_cols
        };
        if side_a >= side_b {
            side_a
        } else {
            side_b
        }
    }

    /// Pads `matrix` with zeros to a square of side `dimension`. Fails with
    /// `DimensionTooSmall` exactly when `dimension` is smaller than the number
    /// of rows or of columns of `matrix`. The input is left as it is.
    ///
    /// A side that is large enough for `matrix` must be one whose square can
    /// be stored; [`Job::try_convert_to_square_matrix`] takes any side.
    pub fn convert_to_square_matrix(matrix: &Matrix, dimension: usize) -> (res: Result<
        Matrix,
        JobError,
    >)
        requires
            dimension >= larger(matrix.rows(), matrix.cols()) ==> shape_fits(
                dimension as nat,
                dimension as nat,
            ),
        ensures
            squaring(*matrix, dimension as nat, res),
    {
        if dimension < matrix.nrows() || dimension < matrix.ncols() {
            Err(JobError::DimensionTooSmall)
        } else {
            Ok(pad(matrix, dimension))
        }
    }

    /// Like [`Job::convert_to_square_matrix`], for any side: returns `None`
    /// exactly when the side is large enough for `matrix` and its square is
    /// too large to store.
    pub fn try_convert_to_square_matrix(matrix: &Matrix, dimension: usize) -> (res: Option<
        Result<Matrix, JobError>,
    >)
        ensures
            res is None <==> dimension >= larger(matrix.rows(), matrix.cols()) && !shape_fits(
                dimension as nat,
                dimension as nat,
            ),
            res matches Some(squared) ==> squaring(*matrix, dimension as nat, squared),
    {
        if dimension < matrix.nrows() || dimension < matrix.ncols() {
            Some(Err(JobError::DimensionTooSmall))
        } else if Matrix::accepts(dimension, dimension) {
            Some(Ok(pad(matrix, dimension)))
        } else {
            None
        }
    }

    /// Pads both inputs to squares of their common side: the largest of their
    /// four extents. Returns `None` exactly when a square of that side is too
    /// large to store.
    pub fn square_inputs(matrix_a: &Matrix, matrix_b: &Matrix) -> (squares: Option<
        (Matrix, Matrix),
    >)
        ensures
            ({
                let d = common_side(
                    matrix_a.rows(),
                    matrix_a.cols(),
                    matrix_b.rows(),
                    matrix_b.cols(),
                );
                &&& squares is Some <==> shape_fits(d, d)
                &&& squares matches Some(pair) ==> {
                    &&& pair.0@ == padded(matrix_a@, d)
                    &&& pair.1@ == padded(matrix_b@, d)
                    &&& pair.0.rows() == d
                    &&& pair.1.rows() == d
                    &&& pair.0.cols() == d
                    &&& pair.1.cols() == d
                }
            }),
    {
        let dimension: usize = Job::max_dimension(matrix_a, matrix_b);
        if Matrix::accepts(dimension, dimension) {
            Some((pad(matrix_a, dimension), pad(matrix_b, dimension)))
        } else {
            None
        }
    }
}

} // verus!
