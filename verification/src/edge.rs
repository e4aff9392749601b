use vstd::prelude::*;

verus! {

/// An undirected mesh edge between two vertices, stored with an orientation.
/// A non-empty `crep` marks the edge as constrained: it is never flipped.
#[derive(Debug)]
pub struct Edge {
    /// Index of one endpoint vertex.
    pub a: usize,
    /// Index of the other endpoint vertex.
    pub b: usize,
    /// Identifiers of the constraints this edge represents, without
    /// duplicates.
    pub crep: Vec<usize>,
}

impl Edge {
    /// The endpoint pair in stored orientation.
    pub fn edge_indices(&self) -> (r: (usize, usize))
        ensures
            r == (self.a, self.b),
    {
        (self.a, self.b)
    }

    /// Whether `constraint` is already recorded on this edge.
    pub fn carries(&self, constraint: usize) -> (r: bool)
        ensures
            r == self.crep@.contains(constraint),
    {
        let mut i: usize = 0;
        while i < self.crep.len()
            invariant
                0 <= i <= self.crep@.len(),
                forall|j: int| 0 <= j < i ==> self.crep@[j] != constraint,
            decreases self.crep@.len() - i,
        {
            if self.crep[i] == constraint {
                return true;
            }
            i = i + 1;
        }
        false
    }

    /// The recorded constraint identifiers are pairwise distinct.
    pub open spec fn crep_nodup(self) -> bool {
        forall|i: int, j: int| 0 <= i < j < self.crep@.len() ==> self.crep@[i] != self.crep@[j]
    }

    /// Record `constraint` on this edge: appended once when absent, left
    /// alone when already recorded, so `crep` stays duplicate-free.
    pub fn insert_constraint(&mut self, constraint: usize)
        ensures
            final(self).a == old(self).a,
            final(self).b == old(self).b,
            final(self).crep@ == if old(self).crep@.contains(constraint) {
                old(self).crep@
            } else {
                old(self).crep@.push(constraint)
            },
            final(self).crep@.contains(constraint),
            forall|c: usize| old(self).crep@.contains(c) ==> final(self).crep@.contains(c),
            old(self).crep_nodup() ==> final(self).crep_nodup(),
    {
        if !self.carries(constraint) {
            self.crep.push(constraint);
            proof {
                assert(self.crep@[self.crep@.len() - 1] == constraint);
                assert forall|c: usize| old(self).crep@.contains(c) implies self.crep@.contains(
                    c,
                ) by {
                    let j = choose|j: int|
                        0 <= j < old(self).crep@.len() && old(self).crep@[j] == c;
                    assert(self.crep@[j] == c);
                }
                if old(self).crep_nodup() {
                    assert forall|i: int, j: int| 0 <= i < j < self.crep@.len() implies
                        self.crep@[i] != self.crep@[j] by {
                        if j == self.crep@.len() - 1 && self.crep@[i] == constraint {
                            assert(old(self).crep@[i] == constraint);
                            assert(old(self).crep@.contains(constraint));
                        }
                    }
                }
            }
        }
    }

    /// An edge is constrained when it represents at least one constraint.
    pub fn is_constrained(&self) -> (r: bool)
        ensures
            r == (self.crep@.len() > 0),
    {
        self.crep.len() > 0
    }
}

} // verus!
