//! Exact two-dimensional collision geometry with a quadtree spatial index,
//! plus a small reference-counted keyed cache.
//!
//! Coordinates are bounded integers, so every geometric comparison is exact;
//! intersection points are reported as canonical rational coordinates.

pub mod vector;
pub mod frac;
pub mod intersect;
pub mod primitive;
pub mod line_line;
pub mod circle_line;
pub mod circle_aabb;
pub mod quadtree;
pub mod laws;
pub mod storage;
pub mod collision;
