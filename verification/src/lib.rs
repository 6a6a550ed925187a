//! Dense fixed-dimensionality numeric grids.
//!
//! Two components: a coordinate/vector value type with componentwise
//! arithmetic (`coordinate::C`), and a dense N-dimensional board backed by a
//! single flat buffer, addressed by raw linear offsets or by coordinates
//! mapped to offsets through a per-axis stride table (`board::VecBoard`).

pub mod board;
pub mod coordinate;
