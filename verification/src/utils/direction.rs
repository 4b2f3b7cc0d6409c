//! Coordinate axes and the six faces of an axis-aligned box.

use vstd::prelude::*;

verus! {

/// One of the three coordinate axes.
#[derive(Clone, Copy, Debug, PartialEq, Eq, Structural)]
pub enum Axis {
    X,
    Y,
    Z,
}

/// One of the six faces of a box: the low or the high end of an axis.
#[derive(Clone, Copy, Debug, PartialEq, Eq, Structural)]
pub enum Direction {
    Xlo,
    Xhi,
    Ylo,
    Yhi,
    Zlo,
    Zhi,
}

impl Axis {
    /// Position of the axis in a coordinate triple.
    pub open spec fn spec_index(self) -> int {
        match self {
            Axis::X => 0,
            Axis::Y => 1,
            Axis::Z => 2,
        }
    }

    /// The face at the high (`hi == true`) or low end of the axis.
    pub open spec fn spec_direction(self, hi: bool) -> Direction {
        match (self, hi) {
            (Axis::X, false) => Direction::Xlo,
            (Axis::X, true) => Direction::Xhi,
            (Axis::Y, false) => Direction::Ylo,
            (Axis::Y, true) => Direction::Yhi,
            (Axis::Z, false) => Direction::Zlo,
            (Axis::Z, true) => Direction::Zhi,
        }
    }

    pub fn index(&self) -> (r: usize)
        ensures
            r == self.spec_index(),
            r < 3,
    {
        match self {
            Axis::X => 0,
            Axis::Y => 1,
            Axis::Z => 2,
        }
    }

    pub fn direction(&self, hi: bool) -> (d: Direction)
        ensures
            d == self.spec_direction(hi),
            d.spec_axis() == *self,
            d.spec_is_hi() == hi,
    {
        match (self, hi) {
            (Axis::X, false) => Direction::Xlo,
            (Axis::X, true) => Direction::Xhi,
            (Axis::Y, false) => Direction::Ylo,
            (Axis::Y, true) => Direction::Yhi,
            (Axis::Z, false) => Direction::Zlo,
            (Axis::Z, true) => Direction::Zhi,
        }
    }
}

impl Direction {
    /// The face across the box on the same axis.
    pub open spec fn spec_opposite(self) -> Direction {
        match self {
            Direction::Xlo => Direction::Xhi,
            Direction::Xhi => Direction::Xlo,
            Direction::Ylo => Direction::Yhi,
            Direction::Yhi => Direction::Ylo,
            Direction::Zlo => Direction::Zhi,
            Direction::Zhi => Direction::Zlo,
        }
    }

    /// The axis the face is perpendicular to.
    pub open spec fn spec_axis(self) -> Axis {
        match self {
            Direction::Xlo | Direction::Xhi => Axis::X,
            Direction::Ylo | Direction::Yhi => Axis::Y,
            Direction::Zlo | Direction::Zhi => Axis::Z,
        }
    }

    /// Whether the face is the high end of its axis.
    pub open spec fn spec_is_hi(self) -> bool {
        self == Direction::Xhi || self == Direction::Yhi || self == Direction::Zhi
    }

    /// Slot of the face in the order `Xlo, Xhi, Ylo, Yhi, Zlo, Zhi`.
    pub open spec fn spec_index(self) -> int {
        2 * self.spec_axis().spec_index() + if self.spec_is_hi() { 1int } else { 0int }
    }

    pub fn opposite(&self) -> (d: Self)
        ensures
            d == self.spec_opposite(),
            d.spec_axis() == self.spec_axis(),
            d.spec_is_hi() != self.spec_is_hi(),
            d.spec_opposite() == *self,
    {
        match self {
            Direction::Xlo => Direction::Xhi,
            Direction::Xhi => Direction::Xlo,
            Direction::Ylo => Direction::Yhi,
            Direction::Yhi => Direction::Ylo,
            Direction::Zlo => Direction::Zhi,
            Direction::Zhi => Direction::Zlo,
        }
    }

    pub fn axis(&self) -> (a: Axis)
        ensures
            a == self.spec_axis(),
    {
        match self {
            Direction::Xlo | Direction::Xhi => Axis::X,
            Direction::Ylo | Direction::Yhi => Axis::Y,
            Direction::Zlo | Direction::Zhi => Axis::Z,
        }
    }

    pub fn index(&self) -> (r: usize)
        ensures
            r == self.spec_index(),
            r < 6,
    {
        match self {
            Direction::Xlo => 0,
            Direction::Xhi => 1,
            Direction::Ylo => 2,
            Direction::Yhi => 3,
            Direction::Zlo => 4,
            Direction::Zhi => 5,
        }
    }

    pub fn is_lo(&self) -> (b: bool)
        ensures
            b == !self.spec_is_hi(),
    {
        match self {
            Direction::Xlo | Direction::Ylo | Direction::Zlo => true,
            _ => false,
        }
    }

    pub fn is_hi(&self) -> (b: bool)
        ensures
            b == self.spec_is_hi(),
    {
        match self {
            Direction::Xlo | Direction::Ylo | Direction::Zlo => false,
            _ => true,
        }
    }
}

} // verus!
