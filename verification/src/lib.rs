//! Tiling, dispatch planning and reassembly for integer matrix jobs that are
//! computed tile by tile on a pool of remote nodes.

pub mod dispatch;
pub mod error;
pub mod job;
pub mod matrix;
pub mod payload;
pub mod reassembly;
pub mod registry;
pub mod round_trip;
pub mod squaring;
pub mod tiler;
