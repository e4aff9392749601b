use vstd::prelude::*;

use crate::vertex::Vertex;

verus! {

/// A triangle of the mesh. `v0, v1, v2` are vertex indices in winding order;
/// `s0, s1, s2` are the arena slots of the three sym-edges of the face, where
/// sym-edge `i` starts at vertex `i` and runs along the side to vertex
/// `(i + 1) % 3`.
#[derive(Clone, Copy, PartialEq, Eq, Structural, Debug)]
pub struct Face {
    pub v0: usize,
    pub v1: usize,
    pub v2: usize,
    pub s0: usize,
    pub s1: usize,
    pub s2: usize,
}

impl Face {
    /// Vertex index at corner `i`.
    pub open spec fn vtx(self, i: int) -> usize {
        if i == 0 {
            self.v0
        } else if i == 1 {
            self.v1
        } else {
            self.v2
        }
    }

    /// Sym-edge slot at corner `i`.
    pub open spec fn sym(self, i: int) -> usize {
        if i == 0 {
            self.s0
        } else if i == 1 {
            self.s1
        } else {
            self.s2
        }
    }

    /// Whether `v` is one of the three corners.
    pub open spec fn has_vertex(self, v: usize) -> bool {
        self.v0 == v || self.v1 == v || self.v2 == v
    }

    /// The unordered side `{ vtx(i), vtx(i+1) }` equals `{ a, b }`.
    pub open spec fn side_is(self, i: int, a: usize, b: usize) -> bool {
        (self.vtx(i) == a && self.vtx((i + 1) % 3) == b) || (self.vtx(i) == b && self.vtx(
            (i + 1) % 3,
        ) == a)
    }

    /// Vertex index at corner `i`, as executable code.
    pub fn vertex_at(&self, i: usize) -> (r: usize)
        requires
            i < 3,
        ensures
            r == self.vtx(i as int),
    {
        if i == 0 {
            self.v0
        } else if i == 1 {
            self.v1
        } else {
            self.v2
        }
    }

    /// Sym-edge slot at corner `i`, as executable code.
    pub fn sym_at(&self, i: usize) -> (r: usize)
        requires
            i < 3,
        ensures
            r == self.sym(i as int),
    {
        if i == 0 {
            self.s0
        } else if i == 1 {
            self.s1
        } else {
            self.s2
        }
    }

    /// The three directed sides of the face, in winding order.
    pub fn edge_indices(&self) -> (r: [(usize, usize); 3])
        ensures
            r[0] == (self.v0, self.v1),
            r[1] == (self.v1, self.v2),
            r[2] == (self.v2, self.v0),
    {
        [(self.v0, self.v1), (self.v1, self.v2), (self.v2, self.v0)]
    }

    /// The three corner vertex indices in winding order.
    pub fn vertex_indices(&self) -> (r: [usize; 3])
        ensures
            r[0] == self.v0,
            r[1] == self.v1,
            r[2] == self.v2,
    {
        [self.v0, self.v1, self.v2]
    }

    /// The corner of the face that the side `{a, b}` does not touch: the
    /// first corner, in order, that is neither `a` nor `b`.
    pub open spec fn opposite_spec(self, a: usize, b: usize) -> usize {
        if self.v0 != a && self.v0 != b {
            self.v0
        } else if self.v1 != a && self.v1 != b {
            self.v1
        } else {
            self.v2
        }
    }

    /// The vertex of the face opposite the side `{a, b}`: the one corner
    /// that is neither `a` nor `b`.
    pub fn opposite_vertex(&self, a: usize, b: usize) -> (r: usize)
        requires
            self.has_vertex(a),
            self.has_vertex(b),
            a != b,
            self.v0 != self.v1,
            self.v1 != self.v2,
            self.v0 != self.v2,
        ensures
            r == self.opposite_spec(a, b),
            self.has_vertex(r),
            r != a,
            r != b,
    {
        if self.v0 != a && self.v0 != b {
            self.v0
        } else if self.v1 != a && self.v1 != b {
            self.v1
        } else {
            self.v2
        }
    }
}

/// Conversion of vertex-carrying values into plain index tuples.
pub trait ToIndices<T> {
    /// The index tuple that stands for `self`.
    spec fn to_indices_spec(&self) -> T;

    /// Executable conversion, pinned to the specification.
    fn to_indices(&self) -> (r: T)
        ensures
            r == self.to_indices_spec(),
    ;
}

impl ToIndices<(usize, usize)> for (Vertex, Vertex) {
    open spec fn to_indices_spec(&self) -> (usize, usize) {
        (self.0.index, self.1.index)
    }

    fn to_indices(&self) -> (r: (usize, usize)) {
        (self.0.index, self.1.index)
    }
}

} // verus!
