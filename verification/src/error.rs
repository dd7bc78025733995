//! Error value indicating insufficient capacity.

use vstd::prelude::*;

verus! {

/// Error value indicating insufficient capacity.
///
/// This error only occurs for `ArrayDeque<_, Saturating>`: an insertion
/// into a full deque is rejected and the element is returned unchanged
/// inside this error, never silently dropped.
#[derive(Clone, Copy, Eq, Ord, PartialEq, PartialOrd, Debug)]
pub struct CapacityError<T = ()> {
    /// The element that caused the error.
    pub element: T,
}

impl<T> CapacityError<T> {
    /// A short description of the error, for diagnostics.
    pub fn message(&self) -> (r: &'static str)
        ensures
            r@ == "insufficient capacity"@,
    {
        "insufficient capacity"
    }
}

} // verus!
