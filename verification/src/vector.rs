//! The plain two-dimensional quantities that a node carries.
//!
//! Every component is a fixed-point number: the stored integer counts
//! thousandths of a unit (see [`crate::fixed::SCALE`]).

use vstd::prelude::*;

verus! {

/// Positions stay inside the square `[-WORLD_LIMIT, WORLD_LIMIT]` on both
/// axes: a thousand million units in every direction.
pub const WORLD_LIMIT: i64 = 1_000_000_000_000;

/// Where a node is.
#[derive(Clone, Copy, Debug, PartialEq, Eq, Structural)]
pub struct Position {
    pub x: i64,
    pub y: i64,
}

/// How fast a node moves, per unit of time.
#[derive(Clone, Copy, Debug, PartialEq, Eq, Structural)]
pub struct Velocity {
    pub x: i64,
    pub y: i64,
}

/// A force, or a sum of forces. The components are wide enough to hold the
/// sum of every contribution that one step can make to one node.
#[derive(Clone, Copy, Debug, PartialEq, Eq, Structural)]
pub struct Force {
    pub x: i128,
    pub y: i128,
}

/// The radius with which a node is drawn.
#[derive(Clone, Copy, Debug, PartialEq, Eq, Structural)]
pub struct Size {
    pub radius: i64,
}

/// A pair of unbounded integers: what a force is before it is stored.
pub struct Vector {
    pub x: int,
    pub y: int,
}

impl Vector {
    /// The vector that changes nothing.
    pub open spec fn zero() -> Vector {
        Vector { x: 0, y: 0 }
    }

    /// The vector of the same length in the opposite direction.
    pub open spec fn negated(self) -> Vector {
        Vector { x: -self.x, y: -self.y }
    }

    /// Componentwise sum.
    pub open spec fn plus(self, other: Vector) -> Vector {
        Vector { x: self.x + other.x, y: self.y + other.y }
    }

    /// Whether neither component exceeds `limit` in size.
    pub open spec fn within(self, limit: int) -> bool {
        &&& -limit <= self.x <= limit
        &&& -limit <= self.y <= limit
    }
}

impl View for Force {
    type V = Vector;

    open spec fn view(&self) -> Vector {
        Vector { x: self.x as int, y: self.y as int }
    }
}

impl Position {
    /// Whether the position lies inside the world.
    pub open spec fn in_world(self) -> bool {
        &&& -WORLD_LIMIT <= self.x <= WORLD_LIMIT
        &&& -WORLD_LIMIT <= self.y <= WORLD_LIMIT
    }

    /// Tells whether the position lies inside the world.
    pub fn is_in_world(&self) -> (inside: bool)
        ensures
            inside == self.in_world(),
    {
        -WORLD_LIMIT <= self.x && self.x <= WORLD_LIMIT && -WORLD_LIMIT <= self.y && self.y
            <= WORLD_LIMIT
    }
}

} // verus!
