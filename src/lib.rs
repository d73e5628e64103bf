//! An in-memory two-dimensional cell store that switches between a
//! map-backed (sparse) and a nested-vector-backed (dense) representation,
//! guided by an occupancy heuristic evaluated after every mutation.
pub mod distance;
pub mod grid;

pub use distance::{ConvertHeuristic, GapMeasurement, MaxGapConvertHeuristic};


pub use grid::{CellCoordinate, DenseGrid, Grid, GridCell, GridContainer, SparseGrid};
