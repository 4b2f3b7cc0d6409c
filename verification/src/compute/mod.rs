//! The quantities a simulation can report.

use crate::output::{Operatable, Operation};
use vstd::prelude::*;

verus! {

/// A built-in quantity computed from the state of one worker.
#[derive(Clone, Copy, Debug, PartialEq, Eq, Structural)]
pub enum Compute {
    AvgVsq,
    KineticE,
    PotentialE,
    Temperature,
    TotalE,
}

impl Compute {
    /// The column title of the quantity.
    pub open spec fn spec_name(self) -> Seq<char> {
        match self {
            Compute::AvgVsq => "AvgVsq"@,
            Compute::KineticE => "KineticE"@,
            Compute::PotentialE => "PotentialE"@,
            Compute::Temperature => "Temperature"@,
            Compute::TotalE => "TotalE"@,
        }
    }

    /// The column title of the quantity.
    pub fn name(&self) -> (s: &'static str)
        ensures
            s@ == self.spec_name(),
    {
        match self {
            Compute::AvgVsq => "AvgVsq",
            Compute::KineticE => "KineticE",
            Compute::PotentialE => "PotentialE",
            Compute::Temperature => "Temperature",
            Compute::TotalE => "TotalE",
        }
    }
}

impl Operatable for Compute {
    /// Every built-in quantity is a sum over the workers.
    fn op(&self) -> (o: Operation)
        ensures
            o == Operation::Sum,
    {
        Operation::Sum
    }
}

} // verus!
