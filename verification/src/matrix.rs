//! Dense matrices of 32-bit signed integers.
//!
//! The storage is an `ndarray::Array2<i32>`. It is kept behind [`Grid`], whose
//! handful of operations are the only code in this library that is taken on
//! trust. [`Matrix`] is built on top of them and everything it offers is
//! verified.

use ndarray::Array2;
use vstd::prelude::*;

verus! {

/// The array that stores a matrix. Its contents are visible to proofs only
/// through [`grid_rows`] and [`grid_width`].
#[verifier::external_body]
#[derive(Debug)]
pub struct Grid {
    array: Array2<i32>,
}

/// The rows of a stored array, top to bottom, each row left to right.
pub uninterp spec fn grid_rows(g: Grid) -> Seq<Seq<i32>>;

/// The length of the second axis of a stored array.
pub uninterp spec fn grid_width(g: Grid) -> nat;

/// Whether `ndarray` accepts a `rows` by `cols` shape: the product of its
/// non-zero axis lengths must not exceed `isize::MAX`.
pub open spec fn shape_fits(rows: nat, cols: nat) -> bool {
    &&& rows <= isize::MAX
    &&& cols <= isize::MAX
    &&& rows * cols <= isize::MAX
}

/// A `rows` by `cols` grid of zeros.
pub open spec fn zero_grid(rows: nat, cols: nat) -> Seq<Seq<i32>> {
    Seq::new(rows, |r: int| Seq::new(cols, |c: int| 0i32))
}

/// Whether every row of `g` has exactly `cols` entries.
pub open spec fn rectangular(g: Seq<Seq<i32>>, cols: nat) -> bool {
    forall|r: int| 0 <= r < g.len() ==> (#[trigger] g[r]).len() == cols
}

/// `g` with the entry in row `r`, column `c` replaced by `v`.
pub open spec fn with_cell(g: Seq<Seq<i32>>, r: int, c: int, v: i32) -> Seq<Seq<i32>> {
    g.update(r, g[r].update(c, v))
}

/// The rows of a nested vector, each taken as a sequence.
pub open spec fn rows_of(v: Seq<Vec<i32>>) -> Seq<Seq<i32>> {
    Seq::new(v.len(), |r: int| v[r]@)
}

/// The length of the first row of a nested vector, or zero if it has none.
pub open spec fn row_length(v: Seq<Vec<i32>>) -> nat {
    if v.len() == 0 {
        0
    } else {
        v[0]@.len()
    }
}

/// Whether a nested vector can be stored as a matrix: all rows are equally
/// long and the shape is accepted.
pub open spec fn storable(v: Seq<Vec<i32>>) -> bool {
    &&& forall|r: int| 0 <= r < v.len() ==> (#[trigger] v[r])@.len() == row_length(v)
    &&& shape_fits(v.len(), row_length(v))
}

/// Calls `Array2::zeros` with the shape `(rows, cols)`. The result has `rows`
/// rows of `cols` zeros each. `ndarray` panics when the product of the
/// non-zero axis lengths overflows `isize`, which `requires` excludes.
#[verifier::external_body]
fn grid_zeros(rows: usize, cols: usize) -> (g: Grid)
    requires
        shape_fits(rows as nat, cols as nat),
    ensures
        grid_rows(g) == zero_grid(rows as nat, cols as nat),
        grid_width(g) == cols,
{
    Grid { array: Array2::<i32>::zeros((rows, cols)) }
}

/// Calls `ArrayBase::nrows`: the length of the first axis, which is the
/// number of rows.
#[verifier::external_body]
fn grid_nrows(g: &Grid) -> (n: usize)
    ensures
        n == grid_rows(*g).len(),
{
    g.array.nrows()
}

/// Calls `ArrayBase::ncols`: the length of the second axis.
#[verifier::external_body]
fn grid_ncols(g: &Grid) -> (n: usize)
    ensures
        n == grid_width(*g),
{
    g.array.ncols()
}

/// Calls `ArrayBase::is_square`, which compares the two axis lengths.
#[verifier::external_body]
fn grid_is_square(g: &Grid) -> (b: bool)
    ensures
        b == (grid_rows(*g).len() == grid_width(*g)),
{
    g.array.is_square()
}

/// Reads one element through `Index<[usize; 2]>`. `ndarray` panics when the
/// index is out of bounds, which `requires` excludes.
#[verifier::external_body]
fn grid_get(g: &Grid, r: usize, c: usize) -> (v: i32)
    requires
        r < grid_rows(*g).len(),
        c < grid_width(*g),
    ensures
        v == grid_rows(*g)[r as int][c as int],
{
    g.array[[r, c]]
}

/// Writes one element through `IndexMut<[usize; 2]>`. Only that element
/// changes; the shape stays. `ndarray` panics when the index is out of
/// bounds, which `requires` excludes.
#[verifier::external_body]
fn grid_set(g: &mut Grid, r: usize, c: usize, v: i32)
    requires
        r < grid_rows(*old(g)).len(),
        c < grid_width(*old(g)),
    ensures
        grid_rows(*final(g)) == with_cell(grid_rows(*old(g)), r as int, c as int, v),
        grid_width(*final(g)) == grid_width(*old(g)),
    no_unwind
{
    g.array[[r, c]] = v;
}

/// Calls `Clone::clone` of the array: the copy has the same shape and the
/// same elements.
#[verifier::external_body]
fn grid_clone(g: &Grid) -> (copy: Grid)
    ensures
        grid_rows(copy) == grid_rows(*g),
        grid_width(copy) == grid_width(*g),
{
    Grid { array: g.array.clone() }
}

/// A dense matrix of 32-bit signed integers, addressed by `(row, column)`.
///
/// Its view is the sequence of its rows. Every row has [`Matrix::cols`]
/// entries, and the shape is one that the storage accepts.
#[derive(Debug)]
pub struct Matrix {
    grid: Grid,
}

impl View for Matrix {
    type V = Seq<Seq<i32>>;

    closed spec fn view(&self) -> Seq<Seq<i32>> {
        grid_rows(self.grid)
    }
}

impl Matrix {
    #[verifier::type_invariant]
    spec fn well_formed(self) -> bool {
        &&& shape_fits(grid_rows(self.grid).len(), grid_width(self.grid))
        &&& rectangular(grid_rows(self.grid), grid_width(self.grid))
    }

    /// The number of rows.
    pub open spec fn rows(&self) -> nat {
        self@.len()
    }

    /// The number of columns. A matrix without rows still has a column count.
    pub closed spec fn cols(&self) -> nat {
        grid_width(self.grid)
    }

    /// A `rows` by `cols` matrix of zeros.
    pub fn zeros(rows: usize, cols: usize) -> (m: Matrix)
        requires
            shape_fits(rows as nat, cols as nat),
        ensures
            m@ == zero_grid(rows as nat, cols as nat),
            m.cols() == cols,
    {
        Matrix { grid: grid_zeros(rows, cols) }
    }

    /// Decides [`shape_fits`] at run time.
    pub fn accepts(rows: usize, cols: usize) -> (b: bool)
        ensures
            b == shape_fits(rows as nat, cols as nat),
    {
        let limit: usize = isize::MAX as usize;
        if rows > limit || cols > limit {
            return false;
        }
        match rows.checked_mul(cols) {
            Some(cells) => cells <= limit,
            None => false,
        }
    }

    /// Builds a matrix from its rows. Returns `None` exactly when the rows
    /// differ in length or the shape is not accepted.
    pub fn from_rows(rows: &Vec<Vec<i32>>) -> (res: Option<Matrix>)
        ensures
            res is Some <==> storable(rows@),
            res matches Some(m) ==> m@ == rows_of(rows@) && m.cols() == row_length(rows@),
    {
        let n: usize = rows.len();
        let width: usize = if n == 0 {
            0
        } else {
            rows[0].len()
        };
        let mut r: usize = 0;
        while r < n
            invariant
                r <= n,
                n == rows.len(),
                width == row_length(rows@),
                forall|k: int| 0 <= k < r ==> (#[trigger] rows@[k])@.len() == width,
            decreases n - r,
        {
            if rows[r].len() != width {
                return None;
            }
            r += 1;
        }
        if !Matrix::accepts(n, width) {
            return None;
        }
        let mut m = Matrix::zeros(n, width);
        let mut r: usize = 0;
        while r < n
            invariant
                r <= n,
                n == rows.len(),
                storable(rows@),
                width == row_length(rows@),
                m.cols() == width,
                m@.len() == n,
                rectangular(m@, width as nat),
                forall|i: int, j: int|
                    0 <= i < r && 0 <= j < width ==> #[trigger] m@[i][j] == rows@[i]@[j],
            decreases n - r,
        {
            let mut c: usize = 0;
            while c < width
                invariant
                    r < n,
                    c <= width,
                    n == rows.len(),
                    storable(rows@),
                    width == row_length(rows@),
                    m.cols() == width,
                    m@.len() == n,
                    rectangular(m@, width as nat),
                    forall|i: int, j: int|
                        0 <= i < r && 0 <= j < width ==> #[trigger] m@[i][j] == rows@[i]@[j],
                    forall|j: int| 0 <= j < c ==> #[trigger] m@[r as int][j] == rows@[r as int]@[j],
                decreases width - c,
            {
                m.set(r, c, rows[r][c]);
                c += 1;
            }
            r += 1;
        }
        assert(m@ =~~= rows_of(rows@));
        Some(m)
    }

    /// The rows of the matrix as a nested vector.
    pub fn to_rows(&self) -> (rows: Vec<Vec<i32>>)
        ensures
            rows_of(rows@) == self@,
    {
        let n: usize = self.nrows();
        let width: usize = self.ncols();
        let mut rows: Vec<Vec<i32>> = Vec::new();
        let mut r: usize = 0;
        while r < n
            invariant
                r <= n,
                n == self.rows(),
                width == self.cols(),
                rectangular(self@, width as nat),
                rows.len() == r,
                forall|i: int| 0 <= i < r ==> (#[trigger] rows@[i])@ == self@[i],
            decreases n - r,
        {
            let mut row: Vec<i32> = Vec::new();
            let mut c: usize = 0;
            while c < width
                invariant
                    r < n,
                    c <= width,
                    n == self.rows(),
                    width == self.cols(),
                    rectangular(self@, width as nat),
                    row.len() == c,
                    forall|j: int| 0 <= j < c ==> #[trigger] row@[j] == self@[r as int][j],
                decreases width - c,
            {
                row.push(self.get(r, c));
                c += 1;
            }
            assert(row@ =~= self@[r as int]);
            rows.push(row);
            r += 1;
        }
        assert(rows_of(rows@) =~= self@);
        rows
    }

    /// The number of rows. The shape of a matrix is always one that the
    /// storage accepts.
    pub fn nrows(&self) -> (n: usize)
        ensures
            n == self.rows(),
            shape_fits(n as nat, self.cols()),
            rectangular(self@, self.cols()),
    {
        proof {
            use_type_invariant(self);
        }
        grid_nrows(&self.grid)
    }

    /// The number of columns, which is the length of every row.
    pub fn ncols(&self) -> (n: usize)
        ensures
            n == self.cols(),
            rectangular(self@, n as nat),
            shape_fits(self.rows(), n as nat),
    {
        proof {
            use_type_invariant(self);
        }
        grid_ncols(&self.grid)
    }

    /// Whether the matrix has as many rows as columns.
    pub fn is_square(&self) -> (b: bool)
        ensures
            b == (self.rows() == self.cols()),
    {
        grid_is_square(&self.grid)
    }

    /// The entry in row `r`, column `c`.
    pub fn get(&self, r: usize, c: usize) -> (v: i32)
        requires
            r < self.rows(),
            c < self.cols(),
        ensures
            v == self@[r as int][c as int],
    {
        grid_get(&self.grid, r, c)
    }

    /// Replaces the entry in row `r`, column `c` by `v`.
    pub fn set(&mut self, r: usize, c: usize, v: i32)
        requires
            r < old(self).rows(),
            c < old(self).cols(),
        ensures
            final(self)@ == with_cell(old(self)@, r as int, c as int, v),
            final(self).cols() == old(self).cols(),
    {
        proof {
            use_type_invariant(&*self);
        }
        grid_set(&mut self.grid, r, c, v);
    }

    /// A copy with the same shape and the same entries.
    pub fn duplicate(&self) -> (copy: Matrix)
        ensures
            copy@ == self@,
            copy.cols() == self.cols(),
    {
        proof {
            use_type_invariant(self);
        }
        Matrix { grid: grid_clone(&self.grid) }
    }
}

} // verus!
