//! The reassembler: writing the returned tiles into one result matrix, each at
//! its placement, clipped at the extents of the result.

use crate::job::Job;
use crate::matrix::{rectangular, shape_fits, zero_grid, Matrix};
use crate::payload::{payload_views, PayloadView, TilePayload};
use vstd::prelude::*;

verus! {

/// The side of the window that every payload is copied through: the number of
/// rows of the first payload's result block, or zero without any payload.
pub open spec fn window_side(data: Seq<PayloadView>) -> nat {
    if data.len() == 0 {
        0
    } else {
        data[0].result_sub.len()
    }
}

/// Whether payload `p`, copied through a window of side `s`, writes the cell
/// `(r, c)`: the cell lies in the window at the payload's placement, and the
/// result block has an entry for it.
pub open spec fn covers(p: PayloadView, s: nat, r: int, c: int) -> bool {
    let i = r - p.placement.0;
    let j = c - p.placement.1;
    &&& 0 <= i < s
    &&& 0 <= j < s
    &&& i < p.result_sub.len()
    &&& j < p.result_sub[i].len()
}

/// `out` after payload `p` is copied into it through a window of side `s`.
/// Cells outside `out` are dropped.
pub open spec fn stamped(out: Seq<Seq<i32>>, p: PayloadView, s: nat) -> Seq<Seq<i32>> {
    Seq::new(
        out.len(),
        |r: int|
            Seq::new(
                out[r].len(),
                |c: int|
                    if covers(p, s, r, c) {
                        p.result_sub[r - p.placement.0][c - p.placement.1]
                    } else {
                        out[r][c]
                    },
            ),
    )
}

/// `out` after the first `n` payloads of `data` are copied into it, in order.
pub open spec fn stamped_all(data: Seq<PayloadView>, n: nat, s: nat, out: Seq<Seq<i32>>) -> Seq<
    Seq<i32>,
>
    decreases n,
{
    if n == 0 {
        out
    } else {
        stamped(stamped_all(data, (n - 1) as nat, s, out), data[n - 1], s)
    }
}

/// The `rows` by `cols` result of a job whose tiles came back as `data`.
pub open spec fn combined(data: Seq<PayloadView>, rows: nat, cols: nat) -> Seq<Seq<i32>> {
    stamped_all(data, data.len(), window_side(data), zero_grid(rows, cols))
}

/// Copying payloads never changes the shape of the output.
pub proof fn lemma_stamped_all_shape(
    data: Seq<PayloadView>,
    n: nat,
    s: nat,
    out: Seq<Seq<i32>>,
    cols: nat,
)
    requires
        rectangular(out, cols),
    ensures
        stamped_all(data, n, s, out).len() == out.len(),
        rectangular(stamped_all(data, n, s, out), cols),
    decreases n,
{
    if n > 0 {
        lemma_stamped_all_shape(data, (n - 1) as nat, s, out, cols);
    }
}

/// Whether one of the first `n` payloads writes the cell `(r, c)`.
pub open spec fn written(data: Seq<PayloadView>, n: nat, s: nat, r: int, c: int) -> bool {
    exists|i: int| 0 <= i < n && #[trigger] covers(data[i], s, r, c)
}

/// Whether payload `p` carries, wherever it writes into an output of the same
/// width as `g`, the entry that `g` has there.
pub open spec fn agrees(p: PayloadView, s: nat, g: Seq<Seq<i32>>) -> bool {
    forall|r: int, c: int|
        0 <= r < g.len() && 0 <= c < g[r].len() && #[trigger] covers(p, s, r, c)
            ==> p.result_sub[r - p.placement.0][c - p.placement.1] == g[r][c]
}

/// When every payload agrees with one grid `g`, the order of the payloads
/// does not matter: a cell that some payload writes ends up with the entry of
/// `g`, and every other cell keeps what it had.
pub proof fn lemma_agreeing_payloads(
    data: Seq<PayloadView>,
    n: nat,
    s: nat,
    out: Seq<Seq<i32>>,
    g: Seq<Seq<i32>>,
    cols: nat,
)
    requires
        n <= data.len(),
        rectangular(out, cols),
        rectangular(g, cols),
        out.len() <= g.len(),
        forall|i: int| 0 <= i < n ==> agrees(#[trigger] data[i], s, g),
    ensures
        forall|r: int, c: int|
            0 <= r < out.len() && 0 <= c < cols ==> #[trigger] stamped_all(data, n, s, out)[r][c]
                == (if written(data, n, s, r, c) {
                g[r][c]
            } else {
                out[r][c]
            }),
    decreases n,
{
    if n > 0 {
        let before = (n - 1) as nat;
        lemma_agreeing_payloads(data, before, s, out, g, cols);
        lemma_stamped_all_shape(data, before, s, out, cols);
        let last = data[n - 1];
        assert(agrees(last, s, g));
        assert forall|r: int, c: int| 0 <= r < out.len() && 0 <= c < cols implies #[trigger] stamped_all(
            data,
            n,
            s,
            out,
        )[r][c] == (if written(data, n, s, r, c) {
            g[r][c]
        } else {
            out[r][c]
        }) by {
            if covers(last, s, r, c) {
                assert(covers(data[n - 1], s, r, c));
            } else {
                if written(data, n, s, r, c) {
                    let i = choose|i: int| 0 <= i < n && #[trigger] covers(data[i], s, r, c);
                    assert(0 <= i < before);
                }
                if written(data, before, s, r, c) {
                    let i = choose|i: int| 0 <= i < before && #[trigger] covers(data[i], s, r, c);
                    assert(0 <= i < n);
                }
            }
        }
    }
}

/// A cell that no payload writes stays zero.
pub proof fn lemma_unwritten_cell_is_zero(
    data: Seq<PayloadView>,
    rows: nat,
    cols: nat,
    r: int,
    c: int,
)
    requires
        0 <= r < rows,
        0 <= c < cols,
        !written(data, data.len(), window_side(data), r, c),
    ensures
        combined(data, rows, cols)[r][c] == 0,
{
    lemma_cell_history(data, data.len(), window_side(data), zero_grid(rows, cols), cols, r, c);
}

/// A cell holds what the last payload that writes it carries for it: the
/// entry of that payload's result block at the cell's offset from the
/// placement. Where no two payloads write the same cell, every payload is
/// copied cell for cell as far as the window and the result reach.
pub proof fn lemma_last_writer_wins(
    data: Seq<PayloadView>,
    rows: nat,
    cols: nat,
    i: int,
    r: int,
    c: int,
)
    requires
        0 <= r < rows,
        0 <= c < cols,
        0 <= i < data.len(),
        covers(data[i], window_side(data), r, c),
        forall|j: int| i < j < data.len() ==> !#[trigger] covers(data[j], window_side(data), r, c),
    ensures
        combined(data, rows, cols)[r][c] == data[i].result_sub[r - data[i].placement.0][c
            - data[i].placement.1],
{
    lemma_cell_history(data, data.len(), window_side(data), zero_grid(rows, cols), cols, r, c);
}

/// The cell `(r, c)` after the first `n` payloads: what it had before if none
/// of them writes it, and else the entry of the last one that does.
proof fn lemma_cell_history(
    data: Seq<PayloadView>,
    n: nat,
    s: nat,
    out: Seq<Seq<i32>>,
    cols: nat,
    r: int,
    c: int,
)
    requires
        n <= data.len(),
        rectangular(out, cols),
        0 <= r < out.len(),
        0 <= c < cols,
    ensures
        !written(data, n, s, r, c) ==> stamped_all(data, n, s, out)[r][c] == out[r][c],
        forall|i: int|
            0 <= i < n && #[trigger] covers(data[i], s, r, c) && (forall|j: int|
                i < j < n ==> !covers(data[j], s, r, c)) ==> stamped_all(data, n, s, out)[r][c]
                == data[i].result_sub[r - data[i].placement.0][c - data[i].placement.1],
    decreases n,
{
    if n > 0 {
        let before = (n - 1) as nat;
        lemma_cell_history(data, before, s, out, cols, r, c);
        lemma_stamped_all_shape(data, before, s, out, cols);
        let last = data[n - 1];
        if covers(last, s, r, c) {
            assert(covers(data[n - 1], s, r, c));
        } else {
            if written(data, before, s, r, c) {
                let i = choose|i: int| 0 <= i < before && #[trigger] covers(data[i], s, r, c);
                assert(0 <= i < n);
            }
        }
    }
}

/// Copies one payload into `result` through a window of side `slice_size`.
fn stamp(result: &mut Matrix, payload: &TilePayload, slice_size: usize)
    ensures
        final(result)@ == stamped(old(result)@, payload@, slice_size as nat),
        final(result).cols() == old(result).cols(),
{
    let rows: usize = result.nrows();
    let cols: usize = result.ncols();
    let row0: usize = payload.placement.0 as usize;
    let col0: usize = payload.placement.1 as usize;
    let ghost before = result@;
    let ghost p = payload@;
    let ghost s = slice_size as nat;
    if row0 < rows && col0 < cols {
        let sub_rows: usize = payload.result_sub.nrows();
        let sub_cols: usize = payload.result_sub.ncols();
        let mut height: usize = rows - row0;
        if slice_size < height {
            height = slice_size;
        }
        if sub_rows < height {
            height = sub_rows;
        }
        let mut width: usize = cols - col0;
        if slice_size < width {
            width = slice_size;
        }
        if sub_cols < width {
            width = sub_cols;
        }
        let mut i: usize = 0;
        while i < height
            invariant
                i <= height,
                p == payload@,
                row0 == p.placement.0,
                col0 == p.placement.1,
                row0 + height <= rows,
                col0 + width <= cols,
                height <= s,
                width <= s,
                height <= sub_rows,
                width <= sub_cols,
                height == rows - row0 || height == s || height == sub_rows,
                width == cols - col0 || width == s || width == sub_cols,
                sub_rows == payload.result_sub.rows(),
                sub_cols == payload.result_sub.cols(),
                rectangular(payload.result_sub@, sub_cols as nat),
                rows == before.len(),
                rectangular(before, cols as nat),
                result.cols() == cols,
                result@.len() == rows,
                rectangular(result@, cols as nat),
                forall|r: int, c: int|
                    0 <= r < rows && 0 <= c < cols ==> #[trigger] result@[r][c] == (if covers(
                        p,
                        s,
                        r,
                        c,
                    ) && r - row0 < i {
                        p.result_sub[r - row0][c - col0]
                    } else {
                        before[r][c]
                    }),
            decreases height - i,
        {
            let mut j: usize = 0;
            while j < width
                invariant
                    i < height,
                    j <= width,
                    p == payload@,
                    row0 == p.placement.0,
                    col0 == p.placement.1,
                    row0 + height <= rows,
                    col0 + width <= cols,
                    height <= s,
                    width <= s,
                    height <= sub_rows,
                    width <= sub_cols,
                    height == rows - row0 || height == s || height == sub_rows,
                    width == cols - col0 || width == s || width == sub_cols,
                    sub_rows == payload.result_sub.rows(),
                    sub_cols == payload.result_sub.cols(),
                    rectangular(payload.result_sub@, sub_cols as nat),
                    rows == before.len(),
                    rectangular(before, cols as nat),
                    result.cols() == cols,
                    result@.len() == rows,
                    rectangular(result@, cols as nat),
                    forall|r: int, c: int|
                        0 <= r < rows && 0 <= c < cols ==> #[trigger] result@[r][c] == (if covers(
                            p,
                            s,
                            r,
                            c,
                        ) && (r - row0 < i || (r - row0 == i && c - col0 < j)) {
                            p.result_sub[r - row0][c - col0]
                        } else {
                            before[r][c]
                        }),
                decreases width - j,
            {
                result.set(row0 + i, col0 + j, payload.result_sub.get(i, j));
                j += 1;
            }
            i += 1;
        }
    }
    assert(result@ =~~= stamped(before, p, s));
}

impl Job {
    /// Assembles the `rows` by `cols` result from the returned payloads.
    ///
    /// The output starts as zero. Each payload in turn is copied to its
    /// placement through a window whose side is the number of rows of the
    /// first payload's result block. What falls outside the output is dropped,
    /// so a payload placed at or beyond `rows` or `cols` changes nothing; where
    /// a result block is smaller than the window, only the entries it has are
    /// copied.
    pub fn combine_results(data: Vec<TilePayload>, rows: usize, cols: usize) -> (result: Matrix)
        requires
            shape_fits(rows as nat, cols as nat),
        ensures
            result@ == combined(payload_views(data@), rows as nat, cols as nat),
            result.rows() == rows,
            result.cols() == cols,
    {
        proof {
            lemma_stamped_all_shape(
                payload_views(data@),
                data@.len(),
                window_side(payload_views(data@)),
                zero_grid(rows as nat, cols as nat),
                cols as nat,
            );
        }
        let mut result = Matrix::zeros(rows, cols);
        let count: usize = data.len();
        if count == 0 {
            return result;
        }
        let slice_size: usize = data[0].result_sub.nrows();
        let ghost views = payload_views(data@);
        let mut n: usize = 0;
        while n < count
            invariant
                n <= count,
                count == data.len(),
                views == payload_views(data@),
                slice_size == window_side(views),
                result.cols() == cols,
                result@ == stamped_all(
                    views,
                    n as nat,
                    slice_size as nat,
                    zero_grid(rows as nat, cols as nat),
                ),
            decreases count - n,
        {
            stamp(&mut result, &data[n], slice_size);
            n += 1;
        }
        result
    }

    /// Stands in for the remote kernel: every payload's result block becomes a
    /// copy of its first operand, with the same shape and the same entries.
    /// Placement and operands stay as they are.
    pub fn test_matrix_multiplication(data_list: &mut Vec<TilePayload>)
        ensures
            final(data_list).len() == old(data_list).len(),
            forall|i: int|
                0 <= i < old(data_list).len() ==> (#[trigger] final(data_list)@[i]).placement
                    == old(data_list)@[i].placement && final(data_list)@[i].a_sub == old(
                    data_list,
                )@[i].a_sub && final(data_list)@[i].b_sub == old(data_list)@[i].b_sub,
            forall|i: int|
                0 <= i < old(data_list).len() ==> (#[trigger] final(data_list)@[i]).result_sub@
                    == old(data_list)@[i].a_sub@ && final(data_list)@[i].result_sub.cols() == old(
                    data_list,
                )@[i].a_sub.cols(),
    {
        let count: usize = data_list.len();
        let mut n: usize = 0;
        while n < count
            invariant
                n <= count,
                count == data_list.len(),
                count == old(data_list).len(),
                forall|i: int|
                    0 <= i < count ==> (#[trigger] data_list@[i]).placement == old(
                        data_list,
                    )@[i].placement && data_list@[i].a_sub == old(data_list)@[i].a_sub
                        && data_list@[i].b_sub == old(data_list)@[i].b_sub,
                forall|i: int|
                    0 <= i < n ==> (#[trigger] data_list@[i]).result_sub@ == old(
                        data_list,
                    )@[i].a_sub@ && data_list@[i].result_sub.cols() == old(
                        data_list,
                    )@[i].a_sub.cols(),
            decreases count - n,
        {
            let copy = data_list[n].a_sub.duplicate();
            data_list[n].result_sub = copy;
            n += 1;
        }
    }
}

} // verus!
