//! Tiles and the payloads that carry them to a node and back.

use crate::matrix::{zero_grid, Matrix};
use vstd::prelude::*;

verus! {

/// One tile as the tiler emits it: the two operand blocks, then the placement
/// `(row, column)` of the tile's top-left corner in the squared grid.
pub type Tile = ((Matrix, Matrix), (u32, u32));

/// What travels over the wire for one tile: the placement, the two operand
/// blocks, and the block of results. The result block is zero on the way out
/// and filled in on the way back.
#[derive(Debug)]
pub struct TilePayload {
    pub placement: (u32, u32),
    pub a_sub: Matrix,
    pub b_sub: Matrix,
    pub result_sub: Matrix,
}

/// The mathematical content of a [`TilePayload`].
pub struct PayloadView {
    pub placement: (nat, nat),
    pub a_sub: Seq<Seq<i32>>,
    pub b_sub: Seq<Seq<i32>>,
    pub result_sub: Seq<Seq<i32>>,
}

impl View for TilePayload {
    type V = PayloadView;

    open spec fn view(&self) -> PayloadView {
        PayloadView {
            placement: (self.placement.0 as nat, self.placement.1 as nat),
            a_sub: self.a_sub@,
            b_sub: self.b_sub@,
            result_sub: self.result_sub@,
        }
    }
}

/// The payload that a tile is sent out as: its blocks and placement, with a
/// result block of zeros in the shape of the first block.
pub open spec fn outbound(tile: Tile) -> PayloadView {
    PayloadView {
        placement: (tile.1.0 as nat, tile.1.1 as nat),
        a_sub: tile.0.0@,
        b_sub: tile.0.1@,
        result_sub: zero_grid(tile.0.0.rows(), tile.0.0.cols()),
    }
}

/// The contents of a list of payloads, in order.
pub open spec fn payload_views(data: Seq<TilePayload>) -> Seq<PayloadView> {
    Seq::new(data.len(), |i: int| data[i]@)
}

impl TilePayload {
    /// The column counts of the first operand, the second operand and the
    /// result block. The view does not show them for a block without rows.
    pub open spec fn widths(&self) -> (nat, nat, nat) {
        (self.a_sub.cols(), self.b_sub.cols(), self.result_sub.cols())
    }

    /// Whether each of the three blocks has as many columns as rows.
    pub open spec fn has_square_blocks(&self) -> bool {
        &&& self.a_sub.cols() == self.a_sub.rows()
        &&& self.b_sub.cols() == self.b_sub.rows()
        &&& self.result_sub.cols() == self.result_sub.rows()
    }

    /// A payload for the given operands whose result block is all zero and has
    /// the shape of the first operand.
    pub fn new(placement: (u32, u32), a_sub: Matrix, b_sub: Matrix) -> (payload: TilePayload)
        ensures
            payload.placement == placement,
            payload.a_sub == a_sub,
            payload.b_sub == b_sub,
            payload.result_sub@ == zero_grid(a_sub.rows(), a_sub.cols()),
            payload.result_sub.cols() == a_sub.cols(),
    {
        let rows: usize = a_sub.nrows();
        let cols: usize = a_sub.ncols();
        let result_sub = Matrix::zeros(rows, cols);
        TilePayload { placement, a_sub, b_sub, result_sub }
    }
}

} // verus!
