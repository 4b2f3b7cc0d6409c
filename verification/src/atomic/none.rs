//! The potential that exerts no force.

use vstd::prelude::*;

verus! {

/// A potential without interactions: it has no coefficients, so none is ever
/// missing.
pub struct None_ {}

impl None_ {
    /// The potential without forces; it has no parts, so there is one such
    /// value.
    pub fn new() -> (p: Self)
        ensures
            p == (None_ {  }),
    {
        None_ {  }
    }

    /// Accepts any number of types and keeps none.
    pub fn set_num_types(&mut self, _num_types: usize)
        ensures
            *final(self) == *old(self),
    {
    }

    pub fn num_types(&self) -> (n: usize)
        ensures
            n == 0,
    {
        0
    }

    pub fn all_set(&self) -> (b: bool)
        ensures
            b,
    {
        true
    }

    /// Accepts and discards a coefficient.
    pub fn set_coeff(&mut self, _typei: usize, _typej: usize)
        ensures
            *final(self) == *old(self),
    {
    }
}

} // verus!
