//! The simulation box: a region with a boundary condition per axis.

use crate::utils::direction::Axis;
use vstd::prelude::*;

verus! {

/// Boundary conditions of one axis, low side first.
///
/// P: periodic (always on both sides), F: fixed, S: shrink-wrapped,
/// M: shrink-wrapped with a minimum.
#[derive(Clone, Copy, Debug, PartialEq, Eq, Structural)]
pub enum BC {
    PP,
    FF,
    FM,
    FS,
    MF,
    MM,
    MS,
    SF,
    SM,
    SS,
}

impl BC {
    /// Whether the axis wraps around.
    pub fn is_periodic(&self) -> (b: bool)
        ensures
            b == (*self == BC::PP),
    {
        match self {
            BC::PP => true,
            _ => false,
        }
    }
}

/// The simulation box: the region `rect`, whose representation is the
/// caller's, and the boundary conditions of the three axes.
pub struct Container<R> {
    rect: R,
    bc: [BC; 3],
}

impl<R> Container<R> {
    pub closed spec fn spec_rect(&self) -> R {
        self.rect
    }

    /// The boundary condition of the axis.
    pub closed spec fn spec_bc(&self, axis: Axis) -> BC {
        self.bc[axis.spec_index()]
    }

    /// A box over `rect` with the given boundary conditions.
    pub fn new(rect: R, xbc: BC, ybc: BC, zbc: BC) -> (c: Self)
        ensures
            c.spec_rect() == rect,
            c.spec_bc(Axis::X) == xbc,
            c.spec_bc(Axis::Y) == ybc,
            c.spec_bc(Axis::Z) == zbc,
    {
        Container { rect, bc: [xbc, ybc, zbc] }
    }

    /// A box over `rect` that is periodic along every axis.
    pub fn from_rect_periodic(rect: R) -> (c: Self)
        ensures
            c.spec_rect() == rect,
            forall|axis: Axis| c.spec_bc(axis) == BC::PP,
    {
        Container { rect, bc: [BC::PP, BC::PP, BC::PP] }
    }

    /// Whether the box wraps around along the axis.
    pub fn is_periodic(&self, axis: Axis) -> (b: bool)
        ensures
            b == (self.spec_bc(axis) == BC::PP),
    {
        self.bc[axis.index()].is_periodic()
    }

    /// The region of the box.
    pub fn rect(&self) -> (r: &R)
        ensures
            *r == self.spec_rect(),
    {
        &self.rect
    }

    /// Replaces the region of the box.
    pub fn set_rect(&mut self, rect: R)
        ensures
            final(self).spec_rect() == rect,
            forall|axis: Axis| final(self).spec_bc(axis) == old(self).spec_bc(axis),
    {
        self.rect = rect;
    }

    /// Sets the boundary condition of one axis; the others stay.
    pub fn set_boundary_condition(&mut self, axis: Axis, bc: BC)
        ensures
            final(self).spec_rect() == old(self).spec_rect(),
            final(self).spec_bc(axis) == bc,
            forall|other: Axis| other != axis ==> final(self).spec_bc(other) == old(self).spec_bc(other),
    {
        let i: usize = axis.index();
        self.bc[i] = bc;
    }
}

} // verus!
