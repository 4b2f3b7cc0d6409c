//! One atom type or a run of them.

use std::ops::Range;
use vstd::prelude::*;

verus! {

/// A single atom type, or the types from the start of a range up to, not
/// including, its end.
pub enum Types {
    One(usize),
    Range(Range<usize>),
}

impl Types {
    /// The types named, in ascending order.
    pub open spec fn spec_seq(&self) -> Seq<usize> {
        match self {
            Types::One(i) => seq![*i],
            Types::Range(r) => if r.start < r.end {
                Seq::new((r.end - r.start) as nat, |k: int| (r.start + k) as usize)
            } else {
                Seq::empty()
            },
        }
    }

    /// The types named, in ascending order.
    pub fn to_vec(&self) -> (v: Vec<usize>)
        ensures
            v@ == self.spec_seq(),
    {
        match self {
            Types::One(i) => {
                let mut v: Vec<usize> = Vec::new();
                v.push(*i);
                assert(v@ =~= seq![*i]);
                v
            },
            Types::Range(r) => {
                let mut v: Vec<usize> = Vec::new();
                let start: usize = r.start;
                let end: usize = r.end;
                if start < end {
                    let mut t: usize = start;
                    while t < end
                        invariant
                            start <= t <= end,
                            v@.len() == t - start,
                            forall|k: int| 0 <= k < v@.len() ==> v@[k] == start + k,
                        decreases end - t,
                    {
                        v.push(t);
                        t += 1;
                    }
                }
                assert(v@ =~= self.spec_seq());
                v
            },
        }
    }

    /// The types named, as a range.
    pub fn to_range(&self) -> (r: Range<usize>)
        requires
            self matches Types::One(i) ==> i < usize::MAX,
        ensures
            match self {
                Types::One(i) => r.start == *i && r.end == *i + 1,
                Types::Range(given) => r == *given,
            },
    {
        match self {
            Types::One(i) => *i..*i + 1,
            Types::Range(r) => r.start..r.end,
        }
    }
}

impl From<Range<usize>> for Types {
    fn from(value: Range<usize>) -> (t: Self) {
        Types::Range(value)
    }
}

impl vstd::std_specs::convert::FromSpecImpl<Range<usize>> for Types {
    open spec fn obeys_from_spec() -> bool {
        true
    }

    open spec fn from_spec(value: Range<usize>) -> Self {
        Types::Range(value)
    }
}

impl From<usize> for Types {
    fn from(value: usize) -> (t: Self) {
        Types::One(value)
    }
}

impl vstd::std_specs::convert::FromSpecImpl<usize> for Types {
    open spec fn obeys_from_spec() -> bool {
        true
    }

    open spec fn from_spec(value: usize) -> Self {
        Types::One(value)
    }
}

} // verus!
