//! The kinds of failure a simulation reports.

use vstd::prelude::*;

verus! {

/// What part of a simulation a failure came from.
#[derive(Clone, Copy, Debug, PartialEq, Eq, Structural)]
pub enum Error {
    AtomicPotentialError,
    IntegratorError,
    NeighborListError,
    OtherError,
}

} // verus!
