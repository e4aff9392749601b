use vstd::prelude::*;

verus! {

/// Largest coordinate magnitude the predicates accept.
///
/// Keeping every coordinate within this bound guarantees that the fourth
/// degree in-circle determinant, the largest intermediate value any predicate
/// computes, stays far inside the range of `i128`.
pub const COORD_LIMIT: i64 = 100_000_000;

/// A point of the plane on the fixed-point integer grid.
#[derive(Clone, Copy, PartialEq, Eq, Structural, Debug)]
pub struct Point {
    pub x: i64,
    pub y: i64,
}

impl Point {
    /// Both coordinates lie within the range the geometric predicates accept.
    pub open spec fn wf(self) -> bool {
        &&& -COORD_LIMIT <= self.x <= COORD_LIMIT
        &&& -COORD_LIMIT <= self.y <= COORD_LIMIT
    }

    pub fn new(x: i64, y: i64) -> (r: Point)
        ensures
            r.x == x,
            r.y == y,
    {
        Point { x, y }
    }

    /// Whether both coordinates are within `COORD_LIMIT`.
    pub fn in_range(&self) -> (r: bool)
        ensures
            r == self.wf(),
    {
        -COORD_LIMIT <= self.x && self.x <= COORD_LIMIT && -COORD_LIMIT <= self.y
            && self.y <= COORD_LIMIT
    }
}

} // verus!
