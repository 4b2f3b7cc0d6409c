//! Small building blocks shared by the rest of the crate.

pub mod direction;
pub mod indices;
pub mod keyed_vec;
pub mod select;
pub mod sort;
pub mod type_range;
pub mod types;

pub use direction::{Axis, Direction};
pub use indices::Index;
pub use keyed_vec::{KeyError, KeyedVec};
pub use sort::{get_sort_indices, sort_atoms};
pub use type_range::{CoeffType, TypeRange};
pub use types::Types;
