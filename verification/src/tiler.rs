//! The tiler: cutting two square matrices of one common side into equally
//! sized square tiles, each with the place where its result belongs.

use crate::error::JobError;
use crate::job::Job;
use crate::matrix::{rectangular, shape_fits, Matrix};
use crate::payload::{outbound, payload_views, Tile, TilePayload};
use vstd::arithmetic::div_mod::{
    lemma_fundamental_div_mod, lemma_fundamental_div_mod_converse, lemma_mod_multiples_basic,
};
use vstd::prelude::*;

verus! {

/// The number of blocks along each axis for `t` tiles: half the tile count.
pub open spec fn blocks_per_axis(t: nat) -> nat {
    t / 2
}

/// The side of one tile when a square of side `d` is cut for `t` tiles.
pub open spec fn tile_side(d: nat, t: nat) -> nat {
    d / blocks_per_axis(t)
}

/// Why matrices of the given extents cannot be cut into `t` tiles, or `None`
/// if they can. The conditions are tried in this order: both matrices square
/// with one common side, `t` even, half of `t` a divisor of the side. A tile
/// count of zero has no blocks to divide by and counts as indivisible.
pub open spec fn tiling_error(a_rows: nat, a_cols: nat, b_rows: nat, b_cols: nat, t: nat) -> Option<
    JobError,
> {
    if !(a_rows == a_cols && b_rows == b_cols && a_cols == b_cols) {
        Some(JobError::NonSquareOrMismatched)
    } else if t % 2 != 0 {
        Some(JobError::OddTileCount)
    } else if blocks_per_axis(t) == 0 || a_cols % blocks_per_axis(t) != 0 {
        Some(JobError::IndivisibleDimension)
    } else {
        None
    }
}

/// The block `(block row, block column)` that tile `i` of `t` is cut from.
/// The blocks are taken row by row, left to right, starting again at the
/// first block once the last one is used.
pub open spec fn tile_block(i: nat, t: nat) -> (nat, nat) {
    let k = blocks_per_axis(t);
    ((i / k) % k, i % k)
}

/// The placement `(row, column)` of tile `i`: the top-left corner of its
/// block in the square of side `d`.
pub open spec fn tile_placement(i: nat, d: nat, t: nat) -> (nat, nat) {
    let at = tile_block(i, t);
    (at.0 * tile_side(d, t), at.1 * tile_side(d, t))
}

/// The first tile that is cut from the block `(block_row, block_column)`.
pub open spec fn tile_index(block_row: nat, block_column: nat, t: nat) -> nat {
    block_row * blocks_per_axis(t) + block_column
}

/// The `s` by `s` block of `m` whose top-left corner is at `(r0, c0)`.
pub open spec fn block(m: Seq<Seq<i32>>, r0: nat, c0: nat, s: nat) -> Seq<Seq<i32>> {
    Seq::new(s, |i: int| Seq::new(s, |j: int| m[r0 + i][c0 + j]))
}

/// Whether `tile` is tile `i` of `t` cut from the squares `a` and `b` of side `d`.
pub open spec fn is_tile(tile: Tile, a: Seq<Seq<i32>>, b: Seq<Seq<i32>>, i: nat, d: nat, t: nat) -> bool {
    let at = tile_placement(i, d, t);
    let s = tile_side(d, t);
    &&& tile.1.0 == at.0
    &&& tile.1.1 == at.1
    &&& tile.0.0@ == block(a, at.0, at.1, s)
    &&& tile.0.1@ == block(b, at.0, at.1, s)
    &&& tile.0.0.cols() == s
    &&& tile.0.1.cols() == s
}

/// How quotient and remainder by `k` change from `x` to `x + 1`.
proof fn lemma_next_index(x: nat, k: nat)
    requires
        k > 0,
    ensures
        x % k + 1 < k ==> (x + 1) % k == x % k + 1 && (x + 1) / k == x / k,
        x % k + 1 >= k ==> (x + 1) % k == 0 && (x + 1) / k == x / k + 1,
{
    let q = x as int / k as int;
    let r = x as int % k as int;
    lemma_fundamental_div_mod(x as int, k as int);
    assert(k * q == q * k) by (nonlinear_arith);
    if r + 1 < k {
        lemma_fundamental_div_mod_converse(x as int + 1, k as int, q, r + 1);
    } else {
        assert((q + 1) * k == q * k + k) by (nonlinear_arith);
        lemma_fundamental_div_mod_converse(x as int + 1, k as int, q + 1, 0);
    }
}

/// With `k` blocks of side `s` along an axis of length `d`, block `at` lies
/// within the axis.
proof fn lemma_block_within(at: nat, k: nat, s: nat, d: nat)
    by (nonlinear_arith)
    requires
        at < k,
        k * s == d,
    ensures
        at * s + s <= d,
        s <= d,
        s * s <= d * d,
{
}

/// Every placement is the corner of a block of the grid: the tile lies within
/// the square, and where the tiles are not empty both coordinates are
/// multiples of the tile side.
pub proof fn lemma_placement_aligned(i: nat, d: nat, t: nat)
    requires
        tiling_error(d, d, d, d, t) is None,
        i < t,
    ensures
        tile_block(i, t).0 < blocks_per_axis(t),
        tile_block(i, t).1 < blocks_per_axis(t),
        tile_placement(i, d, t).0 + tile_side(d, t) <= d,
        tile_placement(i, d, t).1 + tile_side(d, t) <= d,
        tile_side(d, t) > 0 ==> tile_placement(i, d, t).0 % tile_side(d, t) == 0,
        tile_side(d, t) > 0 ==> tile_placement(i, d, t).1 % tile_side(d, t) == 0,
{
    let k = blocks_per_axis(t);
    let s = tile_side(d, t);
    let at = tile_block(i, t);
    lemma_fundamental_div_mod(d as int, k as int);
    lemma_block_within(at.0, k, s, d);
    lemma_block_within(at.1, k, s, d);
    if s > 0 {
        lemma_mod_multiples_basic(at.0 as int, s as int);
        lemma_mod_multiples_basic(at.1 as int, s as int);
    }
}

/// With at least two blocks along each axis and tiles that are not empty, no
/// two tiles share a placement.
pub proof fn lemma_placements_distinct(i: nat, j: nat, d: nat, t: nat)
    requires
        tiling_error(d, d, d, d, t) is None,
        blocks_per_axis(t) >= 2,
        d > 0,
        i < t,
        j < t,
        i != j,
    ensures
        tile_placement(i, d, t) != tile_placement(j, d, t),
{
    let k = blocks_per_axis(t) as int;
    let s = tile_side(d, t) as int;
    lemma_fundamental_div_mod(d as int, k);
    lemma_fundamental_div_mod(i as int, k);
    lemma_fundamental_div_mod(j as int, k);
    let qi = i as int / k;
    let qj = j as int / k;
    let ri = i as int % k;
    let rj = j as int % k;
    assert(0 <= qi < 2 && 0 <= qj < 2) by (nonlinear_arith)
        requires
            k >= 2,
            i == k * qi + ri,
            j == k * qj + rj,
            0 <= ri < k,
            0 <= rj < k,
            0 <= i < 2 * k,
            0 <= j < 2 * k,
    ;
    lemma_fundamental_div_mod_converse(qi, k, 0, qi);
    lemma_fundamental_div_mod_converse(qj, k, 0, qj);
    assert(tile_block(i, t) == (qi as nat, ri as nat));
    assert(tile_block(j, t) == (qj as nat, rj as nat));
    assert(s > 0) by (nonlinear_arith)
        requires
            d == k * s,
            d > 0,
            k > 0,
    ;
    assert(qi * s == qj * s && ri * s == rj * s ==> qi == qj && ri == rj) by (nonlinear_arith)
        requires
            s > 0,
    ;
}

/// When there are exactly as many tiles as blocks, the placements are a
/// permutation of the block grid: every placement is a block corner, no two
/// tiles share one, and every block corner is the placement of some tile.
/// With half the tile count as the number of blocks per axis, this is the
/// case of four tiles; more tiles leave the lower rows of blocks untouched,
/// and two tiles share the single block.
pub proof fn lemma_placements_permute_grid(d: nat, t: nat)
    requires
        tiling_error(d, d, d, d, t) is None,
        t == blocks_per_axis(t) * blocks_per_axis(t),
        d > 0,
    ensures
        forall|i: nat|
            i < t ==> (#[trigger] tile_block(i, t)).0 < blocks_per_axis(t) && tile_block(i, t).1
                < blocks_per_axis(t),
        forall|i: nat, j: nat|
            i < t && j < t && i != j ==> #[trigger] tile_placement(i, d, t)
                != #[trigger] tile_placement(j, d, t),
        forall|block_row: nat, block_column: nat|
            block_row < blocks_per_axis(t) && block_column < blocks_per_axis(t) ==> tile_placement(
                #[trigger] tile_index(block_row, block_column, t),
                d,
                t,
            ) == (block_row * tile_side(d, t), block_column * tile_side(d, t)) && tile_index(
                block_row,
                block_column,
                t,
            ) < t,
{
    let k = blocks_per_axis(t);
    let s = tile_side(d, t);
    assert(k == 2) by (nonlinear_arith)
        requires
            k > 0,
            2 * k == k * k,
    ;
    assert(t == 4);
    lemma_fundamental_div_mod(d as int, 2);
    assert(s > 0);
    assert(tile_block(0, t) == (0nat, 0nat));
    assert(tile_block(1, t) == (0nat, 1nat));
    assert(tile_block(2, t) == (1nat, 0nat));
    assert(tile_block(3, t) == (1nat, 1nat));
    assert(tile_index(0, 0, t) == 0);
    assert(tile_index(0, 1, t) == 1);
    assert(tile_index(1, 0, t) == 2);
    assert(tile_index(1, 1, t) == 3);
    assert(0 * s == 0 && 1 * s == s) by (nonlinear_arith);
    assert(tile_placement(0, d, t) == (0nat, 0nat));
    assert(tile_placement(1, d, t) == (0nat, s));
    assert(tile_placement(2, d, t) == (s, 0nat));
    assert(tile_placement(3, d, t) == (s, s));
    assert forall|i: nat, j: nat| i < t && j < t && i != j implies #[trigger] tile_placement(
        i,
        d,
        t,
    ) != #[trigger] tile_placement(j, d, t) by {
        assert(i == 0 || i == 1 || i == 2 || i == 3);
        assert(j == 0 || j == 1 || j == 2 || j == 3);
    }
    assert forall|block_row: nat, block_column: nat|
        block_row < blocks_per_axis(t) && block_column < blocks_per_axis(t) implies tile_placement(
        #[trigger] tile_index(block_row, block_column, t),
        d,
        t,
    ) == (block_row * tile_side(d, t), block_column * tile_side(d, t)) && tile_index(
        block_row,
        block_column,
        t,
    ) < t by {
        assert(block_row == 0 || block_row == 1);
        assert(block_column == 0 || block_column == 1);
    }
}

/// A square that the storage accepts has a side that fits in 32 bits.
proof fn lemma_side_fits_u32(d: nat)
    requires
        shape_fits(d, d),
    ensures
        d <= u32::MAX,
{
    assert(isize::MAX <= 0x7fff_ffff_ffff_ffff);
    if d > u32::MAX {
        assert(d * d >= 0x1_0000_0000 * 0x1_0000_0000) by (nonlinear_arith)
            requires
                d >= 0x1_0000_0000,
        ;
    }
}

/// Copies the `side` by `side` block of `matrix` at `(r0, c0)` into a matrix
/// of its own.
fn extract(matrix: &Matrix, r0: usize, c0: usize, side: usize) -> (sub: Matrix)
    requires
        r0 + side <= matrix.rows(),
        c0 + side <= matrix.cols(),
        shape_fits(side as nat, side as nat),
    ensures
        sub@ == block(matrix@, r0 as nat, c0 as nat, side as nat),
        sub.cols() == side,
{
    let rows: usize = matrix.nrows();
    let cols: usize = matrix.ncols();
    let mut sub = Matrix::zeros(side, side);
    let mut local_row: usize = 0;
    while local_row < side
        invariant
            local_row <= side,
            rows == matrix.rows(),
            cols == matrix.cols(),
            rectangular(matrix@, cols as nat),
            r0 + side <= rows,
            c0 + side <= cols,
            sub.cols() == side,
            sub@.len() == side,
            rectangular(sub@, side as nat),
            forall|i: int, j: int|
                0 <= i < local_row && 0 <= j < side ==> #[trigger] sub@[i][j] == matrix@[r0 + i][c0
                    + j],
        decreases side - local_row,
    {
        let mut local_column: usize = 0;
        while local_column < side
            invariant
                local_row < side,
                local_column <= side,
                rows == matrix.rows(),
                cols == matrix.cols(),
                rectangular(matrix@, cols as nat),
                r0 + side <= rows,
                c0 + side <= cols,
                sub.cols() == side,
                sub@.len() == side,
                rectangular(sub@, side as nat),
                forall|i: int, j: int|
                    0 <= i < local_row && 0 <= j < side ==> #[trigger] sub@[i][j] == matrix@[r0
                        + i][c0 + j],
                forall|j: int|
                    0 <= j < local_column ==> #[trigger] sub@[local_row as int][j] == matrix@[r0
                        + local_row][c0 + j],
            decreases side - local_column,
        {
            sub.set(local_row, local_column, matrix.get(r0 + local_row, c0 + local_column));
            local_column += 1;
        }
        local_row += 1;
    }
    assert(sub@ =~~= block(matrix@, r0 as nat, c0 as nat, side as nat));
    sub
}

impl Job {
    /// Cuts `matrix_a` and `matrix_b` into `num_of_tasks` tiles. Fails with the
    /// error that [`tiling_error`] names; otherwise tile `i` holds the blocks of
    /// both matrices at [`tile_placement`] of `i`, together with that placement.
    pub fn parallelize(matrix_a: &Matrix, matrix_b: &Matrix, num_of_tasks: usize) -> (res: Result<
        Vec<Tile>,
        JobError,
    >)
        ensures
            match tiling_error(
                matrix_a.rows(),
                matrix_a.cols(),
                matrix_b.rows(),
                matrix_b.cols(),
                num_of_tasks as nat,
            ) {
                Some(e) => res == Err::<Vec<Tile>, JobError>(e),
                None => res matches Ok(tasks) && tasks.len() == num_of_tasks && forall|i: int|
                    0 <= i < num_of_tasks ==> is_tile(
                        #[trigger] tasks@[i],
                        matrix_a@,
                        matrix_b@,
                        i as nat,
                        matrix_a.cols(),
                        num_of_tasks as nat,
                    ),
            },
    {
        if !(matrix_a.is_square() && matrix_b.is_square() && matrix_a.ncols() == matrix_b.ncols()) {
            return Err(JobError::NonSquareOrMismatched);
        }
        if num_of_tasks % 2 != 0 {
            return Err(JobError::OddTileCount);
        }
        let blocks: usize = num_of_tasks / 2;
        let dimension: usize = matrix_a.ncols();
        if blocks == 0 || dimension % blocks != 0 {
            return Err(JobError::IndivisibleDimension);
        }
        let sub_matrix_size: usize = dimension / blocks;
        proof {
            lemma_fundamental_div_mod(dimension as int, blocks as int);
            lemma_block_within(0, blocks as nat, sub_matrix_size as nat, dimension as nat);
            lemma_side_fits_u32(dimension as nat);
        }
        let mut tasks: Vec<Tile> = Vec::new();
        let mut block_row: usize = 0;
        let mut block_column: usize = 0;
        let mut index: usize = 0;
        while index < num_of_tasks
            invariant
                index <= num_of_tasks,
                blocks > 0,
                blocks == blocks_per_axis(num_of_tasks as nat),
                sub_matrix_size == tile_side(dimension as nat, num_of_tasks as nat),
                blocks * sub_matrix_size == dimension,
                dimension == matrix_a.rows(),
                dimension == matrix_a.cols(),
                dimension == matrix_b.rows(),
                dimension == matrix_b.cols(),
                dimension <= u32::MAX,
                shape_fits(sub_matrix_size as nat, sub_matrix_size as nat),
                block_row == (index / blocks) % blocks,
                block_column == index % blocks,
                tasks.len() == index,
                forall|i: int|
                    0 <= i < index ==> is_tile(
                        #[trigger] tasks@[i],
                        matrix_a@,
                        matrix_b@,
                        i as nat,
                        dimension as nat,
                        num_of_tasks as nat,
                    ),
            decreases num_of_tasks - index,
        {
            proof {
                lemma_block_within(
                    block_row as nat,
                    blocks as nat,
                    sub_matrix_size as nat,
                    dimension as nat,
                );
                lemma_block_within(
                    block_column as nat,
                    blocks as nat,
                    sub_matrix_size as nat,
                    dimension as nat,
                );
            }
            let row: usize = block_row * sub_matrix_size;
            let column: usize = block_column * sub_matrix_size;
            let a_sub = extract(matrix_a, row, column, sub_matrix_size);
            let b_sub = extract(matrix_b, row, column, sub_matrix_size);
            tasks.push(((a_sub, b_sub), (row as u32, column as u32)));
            proof {
                lemma_next_index(index as nat, blocks as nat);
                lemma_next_index((index / blocks) as nat, blocks as nat);
            }
            if block_column + 1 == blocks {
                block_column = 0;
                if block_row + 1 == blocks {
                    block_row = 0;
                } else {
                    block_row += 1;
                }
            } else {
                block_column += 1;
            }
            index += 1;
        }
        Ok(tasks)
    }

    /// Turns the tiles into payloads ready to be sent, in the same order. Each
    /// payload keeps the placement and both blocks of its tile; its result
    /// block is zero and has the shape of the first block.
    pub fn convert_to_data_slices(tasks: Vec<Tile>) -> (data: Vec<TilePayload>)
        ensures
            payload_views(data@) == Seq::new(tasks.len() as nat, |i: int| outbound(tasks@[i])),
            forall|i: int|
                0 <= i < tasks.len() ==> (#[trigger] data@[i]).placement == tasks@[i].1
                    && data@[i].a_sub == tasks@[i].0.0 && data@[i].b_sub == tasks@[i].0.1
                    && data@[i].result_sub.cols() == tasks@[i].0.0.cols(),
    {
        let ghost tiles = tasks@;
        let mut data: Vec<TilePayload> = Vec::new();
        for tuple in iter: tasks
            invariant
                iter.seq() == tiles,
                data.len() == iter.index(),
                forall|i: int| 0 <= i < data.len() ==> (#[trigger] data@[i])@ == outbound(tiles[i]),
                forall|i: int|
                    0 <= i < data.len() ==> (#[trigger] data@[i]).placement == tiles[i].1
                        && data@[i].a_sub == tiles[i].0.0 && data@[i].b_sub == tiles[i].0.1
                        && data@[i].result_sub.cols() == tiles[i].0.0.cols(),
        {
            data.push(TilePayload::new(tuple.1, tuple.0.0, tuple.0.1));
        }
        assert(payload_views(data@) =~= Seq::new(tiles.len(), |i: int| outbound(tiles[i])));
        data
    }
}

} // verus!
