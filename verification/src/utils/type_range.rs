//! Ranges of atom types that may be open at either end.

use vstd::prelude::*;

verus! {

/// One end of a range of types: a type index, or no limit.
#[derive(Clone, Copy, Debug, PartialEq, Eq, Structural)]
pub enum CoeffType {
    Value(u32),
    Span,
}

/// A range of atom types, both ends included, each end possibly open.
#[derive(Clone, Copy, Debug, PartialEq, Eq, Structural)]
pub struct TypeRange {
    begin: CoeffType,
    end: CoeffType,
}

impl TypeRange {
    /// The lower end, if the range has one.
    pub closed spec fn spec_min(&self) -> Option<u32> {
        match self.begin {
            CoeffType::Value(x) => Some(x),
            CoeffType::Span => None,
        }
    }

    /// The upper end, if the range has one.
    pub closed spec fn spec_max(&self) -> Option<u32> {
        match self.end {
            CoeffType::Value(x) => Some(x),
            CoeffType::Span => None,
        }
    }

    /// Whether the type `idx` lies in the range.
    pub open spec fn spec_contains(&self, idx: u32) -> bool {
        &&& match self.spec_min() {
            Some(lo) => lo <= idx,
            None => true,
        }
        &&& match self.spec_max() {
            Some(hi) => idx <= hi,
            None => true,
        }
    }

    /// The range from `min` to `max`, both included; `None` leaves an end
    /// open.
    pub fn new(min: Option<u32>, max: Option<u32>) -> (r: Self)
        ensures
            r.spec_min() == min,
            r.spec_max() == max,
    {
        let begin = match min {
            Some(b) => CoeffType::Value(b),
            None => CoeffType::Span,
        };
        let end = match max {
            Some(e) => CoeffType::Value(e),
            None => CoeffType::Span,
        };
        TypeRange { begin, end }
    }

    pub fn contains(&self, idx: u32) -> (b: bool)
        ensures
            b == self.spec_contains(idx),
    {
        if let CoeffType::Value(begin) = self.begin {
            if begin > idx {
                return false;
            }
        }
        if let CoeffType::Value(end) = self.end {
            if end < idx {
                return false;
            }
        }
        true
    }

    pub fn max(&self) -> (r: Option<u32>)
        ensures
            r == self.spec_max(),
    {
        match self.end {
            CoeffType::Value(x) => Some(x),
            CoeffType::Span => None,
        }
    }

    pub fn min(&self) -> (r: Option<u32>)
        ensures
            r == self.spec_min(),
    {
        match self.begin {
            CoeffType::Value(x) => Some(x),
            CoeffType::Span => None,
        }
    }
}

} // verus!
