//! Bookkeeping shared by pairwise potentials.

pub mod coeff_table;
pub mod none;

pub use coeff_table::CoeffTable;
pub use none::None_;
