//! Spatial data structures.
//!
//! Verified implementations of the most common data structures for
//! storing and querying spatial data:
//!
//! * `Quadtree`, usually used for partitioning two-dimensional space.
//! * `Octree`, used for partitioning three-dimensional space.
//!
//! In order for an *object* to be inserted into a quad- or an octree,
//! it must implement the appropriate `Index` trait, which projects the
//! object onto its coordinates. Coordinates are `i64` scalars; a caller
//! that works in fractional units picks a fixed scale and supplies
//! scaled coordinates.

pub use octree::Octree;
pub use quadtree::Quadtree;

pub mod octree;
pub mod quadtree;
