use vstd::prelude::*;

use crate::point::Point;

verus! {

/// A triangulation vertex: a stable dense index, a grid position, and the
/// number of constraint insertions that referenced it.
#[derive(Clone, Copy, PartialEq, Eq, Structural, Debug)]
pub struct Vertex {
    /// Index of the vertex: its offset in the mesh's vertex array.
    pub index: usize,
    /// Position of the vertex on the fixed-point grid.
    pub position: Point,
    /// Number of constraints referencing this vertex.
    pub constraints: usize,
}

} // verus!
