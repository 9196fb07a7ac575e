//! Acceleration primitives for workloads on a hexagonal hierarchical grid:
//! clustering sparse rasters into boxes, matching a grid resolution to a
//! raster's pixel size, a packed spatial index over a column of bounding
//! rectangles, and compression of edge paths into long edges.

pub mod error;
pub mod geometry;
pub mod grid;
pub mod h3;
pub mod longedge;
pub mod boxes;
pub mod column;
pub mod resolution;
pub mod rtree;
pub mod spatial_index;

pub use crate::boxes::find_boxes_containing_data;
pub use crate::error::AccelError;
pub use crate::geometry::{Coordinate, Rect};
pub use crate::grid::Grid;
pub use crate::resolution::{nearest_h3_resolution, NearestH3ResolutionSearchMode};
pub use crate::longedge::LongEdge;
pub use crate::spatial_index::{BuildPackedHilbertRTreeIndex, PackedHilbertRTreeIndex};
