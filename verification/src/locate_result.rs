use vstd::prelude::*;

verus! {

/// Outcome of locating a query point in the mesh. `Vertex` takes priority
/// over `Edge`, which takes priority over `Face`: a coincidence with an
/// existing vertex is never reported as landing on an edge or in a face.
#[derive(Clone, Copy, PartialEq, Eq, Structural, Debug)]
pub enum LocateResult {
    /// The point coincides with this vertex index.
    Vertex(usize),
    /// The point lies on the open interior of this edge slot.
    Edge(usize),
    /// The point lies in this face slot.
    Face(usize),
    /// The point lies outside the triangulated domain.
    Outside,
}

} // verus!
