//! The overflow signal shared by the bounded containers.

use vstd::prelude::*;

verus! {

/// Signals that a bounded container had no room for an element, and hands the
/// rejected element back to the caller.
#[derive(Clone, Copy, Debug, PartialEq, Eq)]
pub struct CapacityError<T = ()> {
    element: T,
}

impl<T> View for CapacityError<T> {
    type V = T;

    /// The element that was rejected.
    closed spec fn view(&self) -> T {
        self.element
    }
}

impl<T> CapacityError<T> {
    /// Wraps the element that could not be stored.
    pub fn new(element: T) -> (e: CapacityError<T>)
        ensures
            e@ == element,
    {
        CapacityError { element }
    }

    /// Gives the rejected element back.
    pub fn element(self) -> (element: T)
        ensures
            element == self@,
    {
        self.element
    }

    /// Forgets the rejected element, keeping only the fact of the overflow.
    pub fn simplify(self) -> (e: CapacityError<()>)
        ensures
            e@ == (),
    {
        CapacityError { element: () }
    }

    /// What the error says of itself, whatever element it carries.
    pub fn message(&self) -> (text: String)
        ensures
            text@ == "insufficient capacity"@,
    {
        broadcast use vstd::string::to_string_from_display_ensures_for_str;

        "insufficient capacity".to_string()
    }
}

} // verus!
