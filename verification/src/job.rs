//! The job: two input matrices cut into tile payloads, together with the
//! extents of the result that the returned tiles are assembled into.

use crate::error::JobError;
use crate::matrix::{shape_fits, zero_grid, Matrix};
use crate::payload::{payload_views, PayloadView, TilePayload};
use crate::reassembly::combined;
use crate::squaring::{common_side, pad, padded};
use crate::tiler::{block, is_tile, tile_placement, tile_side, tiling_error};
use vstd::prelude::*;

verus! {

/// A job that is ready for dispatch: the payloads of its tiles, in tile
/// order, and the extents of its result.
#[derive(Debug)]
pub struct Job {
    data: Vec<TilePayload>,
    rows: usize,
    cols: usize,
}

/// The mathematical content of a [`Job`].
pub struct JobView {
    pub payloads: Seq<PayloadView>,
    pub rows: nat,
    pub cols: nat,
}

impl View for Job {
    type V = JobView;

    closed spec fn view(&self) -> JobView {
        JobView {
            payloads: payload_views(self.data@),
            rows: self.rows as nat,
            cols: self.cols as nat,
        }
    }
}

/// The payloads that a square `a` and a square `b` of side `d` are sent out
/// as when they are cut into `t` tiles: tile `i` carries the blocks of both at
/// its placement, and a result block of zeros.
pub open spec fn planned_payloads(a: Seq<Seq<i32>>, b: Seq<Seq<i32>>, d: nat, t: nat) -> Seq<
    PayloadView,
> {
    Seq::new(
        t,
        |i: int|
            {
                let at = tile_placement(i as nat, d, t);
                let s = tile_side(d, t);
                PayloadView {
                    placement: at,
                    a_sub: block(a, at.0, at.1, s),
                    b_sub: block(b, at.0, at.1, s),
                    result_sub: zero_grid(s, s),
                }
            },
    )
}

/// What creating a job from `a` and `b` with `t` tiles gives: the tiler's
/// error for squares of the common side, or the job whose payloads are cut
/// from the padded inputs, with square blocks throughout, and whose result
/// has the rows of `a` and the columns of `b`.
pub open spec fn creation(a: Matrix, b: Matrix, t: nat, res: Result<Job, JobError>) -> bool {
    let d = common_side(a.rows(), a.cols(), b.rows(), b.cols());
    match tiling_error(d, d, d, d, t) {
        Some(e) => res == Err::<Job, JobError>(e),
        None => res matches Ok(job) && job@ == (JobView {
            payloads: planned_payloads(padded(a@, d), padded(b@, d), d, t),
            rows: a.rows(),
            cols: b.cols(),
        }) && job.has_square_blocks(),
    }
}

impl Job {
    #[verifier::type_invariant]
    spec fn well_formed(self) -> bool {
        &&& shape_fits(self.rows as nat, self.cols as nat)
        &&& forall|i: int|
            0 <= i < self.data@.len() ==> (#[trigger] self.data@[i]).has_square_blocks()
    }

    /// The payloads of the job, in tile order.
    pub closed spec fn payload_list(&self) -> Seq<TilePayload> {
        self.data@
    }

    /// Whether every block of every payload has as many columns as rows.
    pub open spec fn has_square_blocks(&self) -> bool {
        forall|i: int|
            0 <= i < self.payload_list().len() ==> (#[trigger] self.payload_list()[i]).has_square_blocks()
    }

    /// Prepares the job for `matrix_a` and `matrix_b`: pads both to squares of
    /// their common side and cuts them into `num_of_tasks` tile payloads.
    /// Fails with `OddTileCount` or `IndivisibleDimension` as the tiler does.
    pub fn create(matrix_a: &Matrix, matrix_b: &Matrix, num_of_tasks: usize) -> (res: Result<
        Job,
        JobError,
    >)
        requires
            shape_fits(
                common_side(matrix_a.rows(), matrix_a.cols(), matrix_b.rows(), matrix_b.cols()),
                common_side(matrix_a.rows(), matrix_a.cols(), matrix_b.rows(), matrix_b.cols()),
            ),
        ensures
            creation(*matrix_a, *matrix_b, num_of_tasks as nat, res),
    {
        let ghost d = common_side(
            matrix_a.rows(),
            matrix_a.cols(),
            matrix_b.rows(),
            matrix_b.cols(),
        );
        let ghost t = num_of_tasks as nat;
        let rows: usize = matrix_a.nrows();
        let cols: usize = matrix_b.ncols();
        let max_dimension: usize = Job::max_dimension(matrix_a, matrix_b);
        let matrix_a_square = pad(matrix_a, max_dimension);
        let matrix_b_square = pad(matrix_b, max_dimension);
        proof {
            assert(padded(matrix_a@, d).len() == d);
            assert(padded(matrix_b@, d).len() == d);
            assert(rows * cols <= d * d) by (nonlinear_arith)
                requires
                    0 <= rows <= d,
                    0 <= cols <= d,
            ;
        }
        let tasks = match Job::parallelize(&matrix_a_square, &matrix_b_square, num_of_tasks) {
            Ok(tasks) => tasks,
            Err(e) => {
                return Err(e);
            },
        };
        let data = Job::convert_to_data_slices(tasks);
        proof {
            assert forall|i: int| 0 <= i < t implies (#[trigger] payload_views(data@)[i])
                == planned_payloads(padded(matrix_a@, d), padded(matrix_b@, d), d, t)[i] by {
                assert(is_tile(tasks@[i], matrix_a_square@, matrix_b_square@, i as nat, d, t));
            }
            assert(payload_views(data@) =~= planned_payloads(
                padded(matrix_a@, d),
                padded(matrix_b@, d),
                d,
                t,
            ));
            assert forall|i: int| 0 <= i < data@.len() implies (#[trigger] data@[i]).has_square_blocks() by {
                assert(is_tile(tasks@[i], matrix_a_square@, matrix_b_square@, i as nat, d, t));
                assert(payload_views(data@)[i] == data@[i]@);
            }
        }
        let job = Job { data, rows, cols };
        assert(job.has_square_blocks());
        Ok(job)
    }

    /// Like [`Job::create`], for inputs of any size: returns `None` exactly
    /// when the square that the inputs would be padded to is too large to
    /// store.
    pub fn try_create(matrix_a: &Matrix, matrix_b: &Matrix, num_of_tasks: usize) -> (res: Option<
        Result<Job, JobError>,
    >)
        ensures
            res is Some <==> shape_fits(
                common_side(matrix_a.rows(), matrix_a.cols(), matrix_b.rows(), matrix_b.cols()),
                common_side(matrix_a.rows(), matrix_a.cols(), matrix_b.rows(), matrix_b.cols()),
            ),
            res matches Some(created) ==> creation(
                *matrix_a,
                *matrix_b,
                num_of_tasks as nat,
                created,
            ),
    {
        let dimension: usize = Job::max_dimension(matrix_a, matrix_b);
        if Matrix::accepts(dimension, dimension) {
            Some(Job::create(matrix_a, matrix_b, num_of_tasks))
        } else {
            None
        }
    }

    /// The payloads to dispatch, in tile order. Every block of every payload
    /// is square, also where it has no rows.
    pub fn payloads(&self) -> (data: &Vec<TilePayload>)
        ensures
            data@ == self.payload_list(),
            payload_views(data@) == self@.payloads,
            self.has_square_blocks(),
    {
        proof {
            use_type_invariant(self);
        }
        &self.data
    }

    /// The number of tiles.
    pub fn num_of_tasks(&self) -> (n: usize)
        ensures
            n == self@.payloads.len(),
    {
        self.data.len()
    }

    /// The number of rows of the result.
    pub fn rows(&self) -> (n: usize)
        ensures
            n == self@.rows,
    {
        self.rows
    }

    /// The number of columns of the result.
    pub fn cols(&self) -> (n: usize)
        ensures
            n == self@.cols,
    {
        self.cols
    }

    /// Assembles the result of the job from the payloads that came back.
    pub fn finish(&self, results: Vec<TilePayload>) -> (result: Matrix)
        ensures
            result@ == combined(payload_views(results@), self@.rows, self@.cols),
            result.rows() == self@.rows,
            result.cols() == self@.cols,
    {
        proof {
            use_type_invariant(self);
        }
        Job::combine_results(results, self.rows, self.cols)
    }
}

} // verus!
