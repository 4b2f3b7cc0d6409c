//! Binned search for the pairs of atoms that are close enough to interact.

pub mod neighbor_list;
pub mod neighbor_update_settings;
pub mod stencil;

pub use neighbor_list::NeighborList;
pub use neighbor_update_settings::UpdateSettings;
pub use stencil::compute_stencil;
