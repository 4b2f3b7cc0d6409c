//! What a worker needs to take part in a run with other workers.

pub mod comm;
pub mod communication;
pub mod domain;
pub mod message;

pub use communication::{Communicator, NeighborDirection, NeighborProcs};
pub use domain::{get_neighbor, proc_grid_candidates};
pub use message::AtomMessage;
