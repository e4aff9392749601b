use vstd::prelude::*;

verus! {

/// The three ways an ordered vertex triple can turn.
#[derive(Clone, Copy, PartialEq, Eq, Structural, Debug)]
pub enum Orientation {
    Clockwise,
    CounterClockwise,
    Collinear,
}

} // verus!
