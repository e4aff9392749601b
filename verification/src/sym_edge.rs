use vstd::prelude::*;

verus! {

/// A half-edge of the mesh: one directed edge tagged with the face on its
/// side. `nxt` walks the same face to the next corner (cyclic with period
/// three); `rot` walks counter-clockwise around the origin vertex to the
/// next sym-edge leaving it, or is `None` for a vertex with a single
/// incident sym-edge.
#[derive(Clone, Copy, PartialEq, Eq, Structural, Debug)]
pub struct SymEdge {
    /// The origin ("from") vertex index.
    pub vertex: usize,
    /// The arena slot of the underlying undirected edge.
    pub edge: usize,
    /// The arena slot of the face this half-edge borders.
    pub face: usize,
    /// Which corner of the face this sym-edge leaves (0, 1 or 2).
    pub slot: usize,
    /// Arena slot of the next sym-edge of the same face.
    pub nxt: usize,
    /// Arena slot of the next sym-edge around `vertex`, if any.
    pub rot: Option<usize>,
}

impl SymEdge {
    /// The same half-edge with a different `rot` pointer.
    pub fn with_rot(&self, rot: Option<usize>) -> (r: SymEdge)
        ensures
            r.vertex == self.vertex,
            r.edge == self.edge,
            r.face == self.face,
            r.slot == self.slot,
            r.nxt == self.nxt,
            r.rot == rot,
    {
        SymEdge {
            vertex: self.vertex,
            edge: self.edge,
            face: self.face,
            slot: self.slot,
            nxt: self.nxt,
            rot,
        }
    }
}

} // verus!
