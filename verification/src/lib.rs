//! A constrained Delaunay triangulation (CDT) of a planar point set.
//!
//! The mesh is a triangle complex over a growing vertex set such that no
//! triangle's circumcircle strictly contains another vertex, except where a
//! user-supplied constraint edge forbids the flip that would restore that
//! property, and such that every inserted constraint polyline appears
//! verbatim as a chain of mesh edges.
//!
//! Coordinates are fixed-point: every point is a pair of `i64` coordinates on
//! an integer grid, and every geometric predicate (orientation, in-circle,
//! segment crossing) is evaluated exactly in `i128` arithmetic. A caller
//! working in floating point scales into the grid before touching the mesh.

pub mod point;
pub mod orientation;
pub mod predicates;
pub mod vertex;
pub mod edge;
pub mod face;
pub mod sym_edge;
pub mod locate_result;
pub mod symmetric_compare;
pub mod cdt;
pub mod structure;
pub mod location;
pub mod delaunay;
pub mod constraints;
pub mod export;
