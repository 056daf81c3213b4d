//! A rasterization engine that burns 2D vector geometries (points, line
//! strings, polygons with holes, and their multi-part forms) into a dense
//! row-major grid of numeric pixel values.
//!
//! Coordinates are fixed-point integers with [`fixed::SCALE`] subunits per
//! coordinate unit, so that every step of the pipeline — the affine
//! world-to-pixel transform, scan conversion, and the merge of overlapping
//! shapes — is exact integer arithmetic with a proved meaning.

pub mod dispatch;
pub mod fixed;
pub mod geom;
pub mod grid;
pub mod pixel;
pub mod raster;
pub mod scan;
pub mod transform;
