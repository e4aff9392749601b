use vstd::prelude::*;

verus! {

/// Equality of index pairs up to direction.
pub trait SymmetricCompare {
    /// `self` and `other` name the same pair in the same direction.
    spec fn same_spec(&self, other: &Self) -> bool;

    /// `self` and `other` name the same pair in opposite directions.
    spec fn inverse_spec(&self, other: &Self) -> bool;

    /// The two pairs are equal in either direction.
    fn symmetric_compare(&self, other: &Self) -> (r: bool)
        ensures
            r == (self.same_spec(other) || self.inverse_spec(other)),
    ;

    /// The two pairs are equal with their directions reversed.
    fn inverse_compare(&self, other: &Self) -> (r: bool)
        ensures
            r == self.inverse_spec(other),
    ;
}

impl SymmetricCompare for (usize, usize) {
    open spec fn same_spec(&self, other: &(usize, usize)) -> bool {
        self.0 == other.0 && self.1 == other.1
    }

    open spec fn inverse_spec(&self, other: &(usize, usize)) -> bool {
        self.0 == other.1 && self.1 == other.0
    }

    fn symmetric_compare(&self, other: &(usize, usize)) -> (r: bool) {
        (self.0 == other.0 && self.1 == other.1) || (self.0 == other.1 && self.1 == other.0)
    }

    fn inverse_compare(&self, other: &(usize, usize)) -> (r: bool) {
        self.0 == other.1 && self.1 == other.0
    }
}

/// Reversal of a directed index pair.
pub trait Flipped {
    /// The reversed pair.
    spec fn flipped_spec(&self) -> (usize, usize);

    /// Executable reversal, pinned to the specification.
    fn flipped(&self) -> (r: (usize, usize))
        ensures
            r == self.flipped_spec(),
    ;
}

impl Flipped for (usize, usize) {
    open spec fn flipped_spec(&self) -> (usize, usize) {
        (self.1, self.0)
    }

    fn flipped(&self) -> (r: (usize, usize)) {
        (self.1, self.0)
    }
}

/// Canonical ordering of an index pair, smaller component first.
pub trait TupleOrdered {
    /// The pair with its smaller component first.
    spec fn ordered_spec(&self) -> (usize, usize);

    /// Executable canonicalisation, pinned to the specification.
    fn ordered(&self) -> (r: (usize, usize))
        ensures
            r == self.ordered_spec(),
    ;
}

impl TupleOrdered for (usize, usize) {
    open spec fn ordered_spec(&self) -> (usize, usize) {
        if self.0 < self.1 {
            (self.0, self.1)
        } else {
            (self.1, self.0)
        }
    }

    fn ordered(&self) -> (r: (usize, usize)) {
        if self.0 < self.1 {
            (self.0, self.1)
        } else {
            (self.1, self.0)
        }
    }
}

} // verus!
