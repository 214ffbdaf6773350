//! What the pipeline gives back when every tile returns its first operand:
//! the first input matrix, wherever the tiles reach.

use crate::matrix::{rectangular, zero_grid};
use crate::payload::PayloadView;
use crate::reassembly::{
    agrees, combined, covers, lemma_agreeing_payloads, lemma_stamped_all_shape, written,
    window_side,
};
use crate::squaring::{larger, padded};
use crate::tiler::{
    block, blocks_per_axis, lemma_placement_aligned, tile_block, tile_placement, tile_side,
    tiling_error,
};
use vstd::arithmetic::div_mod::{lemma_fundamental_div_mod, lemma_fundamental_div_mod_converse};
use vstd::prelude::*;

verus! {

/// The number of leading rows of the square that the tiles reach. The tiles
/// take the blocks row by row, and there are twice as many tiles as blocks
/// in a row: they fill the first two rows of blocks, or the single block if
/// there is only one.
pub open spec fn covered_rows(d: nat, t: nat) -> nat {
    if blocks_per_axis(t) == 1 {
        d
    } else {
        2 * tile_side(d, t)
    }
}

/// Every cell of the square within [`covered_rows`] lies in the block of
/// some tile.
pub proof fn lemma_tiles_reach(d: nat, t: nat, r: int, c: int) -> (i: nat)
    requires
        tiling_error(d, d, d, d, t) is None,
        0 <= r < covered_rows(d, t),
        r < d,
        0 <= c < d,
    ensures
        i < t,
        tile_placement(i, d, t).0 <= r < tile_placement(i, d, t).0 + tile_side(d, t),
        tile_placement(i, d, t).1 <= c < tile_placement(i, d, t).1 + tile_side(d, t),
{
    let k = blocks_per_axis(t);
    let s = tile_side(d, t);
    lemma_fundamental_div_mod(d as int, k as int);
    assert(s > 0) by (nonlinear_arith)
        requires
            d == k * s,
            d > 0,
            k > 0,
    ;
    if k == 1 {
        assert(tile_block(0, t) == (0nat, 0nat));
        assert(0 * s == 0) by (nonlinear_arith);
        assert(s == d) by (nonlinear_arith)
            requires
                d == k * s,
                k == 1,
        ;
        0
    } else {
        let block_row = r / (s as int);
        let block_column = c / (s as int);
        lemma_fundamental_div_mod(r, s as int);
        lemma_fundamental_div_mod(c, s as int);
        assert(0 <= block_row < 2 && 0 <= block_column < k) by (nonlinear_arith)
            requires
                s > 0,
                k > 0,
                0 <= r < 2 * s,
                0 <= c < k * s,
                r == s * block_row + r % (s as int),
                c == s * block_column + c % (s as int),
                0 <= r % (s as int) < s,
                0 <= c % (s as int) < s,
        ;
        let i = (block_row * k + block_column) as nat;
        lemma_fundamental_div_mod_converse(i as int, k as int, block_row, block_column);
        lemma_fundamental_div_mod_converse(block_row, k as int, 0, block_row);
        assert(tile_block(i, t) == (block_row as nat, block_column as nat));
        assert(i < t) by (nonlinear_arith)
            requires
                i == block_row * k + block_column,
                0 <= block_row < 2,
                0 <= block_column < k,
                t == 2 * k,
        ;
        assert(block_row * s == s * block_row && block_column * s == s * block_column)
            by (nonlinear_arith);
        i
    }
}

/// No tile reaches a row at or beyond [`covered_rows`].
pub proof fn lemma_tiles_stop(d: nat, t: nat, i: nat)
    requires
        tiling_error(d, d, d, d, t) is None,
        i < t,
    ensures
        tile_placement(i, d, t).0 + tile_side(d, t) <= covered_rows(d, t),
{
    let k = blocks_per_axis(t);
    let s = tile_side(d, t);
    lemma_fundamental_div_mod(d as int, k as int);
    lemma_placement_aligned(i, d, t);
    if k > 1 {
        let q = i as int / k as int;
        lemma_fundamental_div_mod(i as int, k as int);
        assert(0 <= q < 2) by (nonlinear_arith)
            requires
                i == k * q + i as int % k as int,
                0 <= i as int % k as int,
                0 <= i < 2 * k,
                k > 0,
        ;
        lemma_fundamental_div_mod_converse(q, k as int, 0, q);
        assert(tile_block(i, t).0 == q);
        assert(q * s + s <= 2 * s) by (nonlinear_arith)
            requires
                0 <= q < 2,
                s >= 0,
        ;
    }
}

/// Sending a matrix through the pipeline with a kernel that hands back each
/// tile's first operand reproduces the matrix.
///
/// `a` has `a_cols` columns and is padded to a square of side `d`, which is cut
/// into `t` tiles; `results` are the payloads that come back, each with its
/// result block equal to its first operand. Assembled at the extents of `a`,
/// they give `a` again, provided that `a` is zero in the rows that no tile
/// reaches.
pub proof fn lemma_echo_round_trip(
    a: Seq<Seq<i32>>,
    a_cols: nat,
    d: nat,
    t: nat,
    results: Seq<PayloadView>,
)
    requires
        rectangular(a, a_cols),
        d >= larger(a.len(), a_cols),
        tiling_error(d, d, d, d, t) is None,
        forall|r: int, c: int|
            covered_rows(d, t) <= r < a.len() && 0 <= c < a_cols ==> #[trigger] a[r][c] == 0,
        results.len() == t,
        forall|i: int|
            0 <= i < t ==> (#[trigger] results[i]).placement == tile_placement(i as nat, d, t),
        forall|i: int|
            0 <= i < t ==> (#[trigger] results[i]).a_sub == block(
                padded(a, d),
                tile_placement(i as nat, d, t).0,
                tile_placement(i as nat, d, t).1,
                tile_side(d, t),
            ),
        forall|i: int| 0 <= i < t ==> (#[trigger] results[i]).result_sub == results[i].a_sub,
    ensures
        combined(results, a.len(), a_cols) == a,
{
    let k = blocks_per_axis(t);
    let s = tile_side(d, t);
    let out = zero_grid(a.len(), a_cols);
    let final_grid = combined(results, a.len(), a_cols);
    assert(t >= 2);
    assert(results[0].result_sub.len() == s);
    assert(window_side(results) == s);
    assert forall|i: int| 0 <= i < t implies agrees(#[trigger] results[i], s, a) by {
        let p = results[i];
        lemma_placement_aligned(i as nat, d, t);
        assert forall|r: int, c: int|
            0 <= r < a.len() && 0 <= c < a[r].len() && #[trigger] covers(
                p,
                s,
                r,
                c,
            ) implies p.result_sub[r - p.placement.0][c - p.placement.1] == a[r][c] by {
            let row = r - p.placement.0;
            let column = c - p.placement.1;
            assert(p.result_sub[row][column] == padded(a, d)[p.placement.0 + row][p.placement.1
                + column]);
        }
    }
    lemma_agreeing_payloads(results, t, s, out, a, a_cols);
    lemma_stamped_all_shape(results, t, s, out, a_cols);
    assert forall|r: int, c: int| 0 <= r < a.len() && 0 <= c < a_cols implies #[trigger] final_grid[r][c]
        == a[r][c] by {
        if r < covered_rows(d, t) {
            let i = lemma_tiles_reach(d, t, r, c);
            assert(covers(results[i as int], s, r, c));
            assert(written(results, t, s, r, c));
        } else {
            if written(results, t, s, r, c) {
                let i = choose|i: int| 0 <= i < t && #[trigger] covers(results[i], s, r, c);
                lemma_tiles_stop(d, t, i as nat);
            }
        }
    }
    assert(final_grid =~~= a);
}

} // verus!
