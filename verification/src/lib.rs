//! Core of a domain-decomposed molecular-dynamics engine: the index
//! arithmetic, atom bookkeeping, neighbour binning and message routing that
//! every worker runs, each with a machine-checked contract.

pub mod atomic;
pub mod atoms;
pub mod compute;
pub mod container;
pub mod error;
pub mod jmd;
pub mod neighbor;
pub mod output;
pub mod parallel;
pub mod simulation;
pub mod utils;
