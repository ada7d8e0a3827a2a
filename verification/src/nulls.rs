//! Marker values for "nothing here".

use vstd::prelude::*;

verus! {

/// Marks a result that has no meaningful value.
#[derive(Copy, Clone, Debug, PartialEq, Eq)]
pub struct Undefined;

/// Marks the absence of a value.
#[derive(Copy, Clone, Debug, PartialEq, Eq)]
pub struct Null;

impl Null {
    pub fn new() -> (n: Self)
        ensures
            n == Null,
    {
        Null
    }
}

} // verus!
