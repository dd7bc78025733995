//! Overflow behaviors for `ArrayDeque`.
//!
//! A behavior decides what an insertion does when the deque is full:
//! `Saturating` rejects the new element, `Wrapping` evicts one element
//! from the opposite end and then inserts.

use vstd::prelude::*;

verus! {

/// Marker trait for indicating behaviors of `ArrayDeque`.
pub trait Behavior {
}

/// Behavior for `ArrayDeque` that specifies saturating write semantics:
/// an insertion into a full deque is rejected and the element is handed
/// back to the caller unchanged.
#[derive(Clone, Copy)]
pub struct Saturating;

impl Behavior for Saturating {
}

/// Behavior for `ArrayDeque` that specifies wrapping write semantics:
/// an insertion into a full deque first evicts one element from the
/// opposite end and returns it to the caller.
#[derive(Clone, Copy)]
pub struct Wrapping;

impl Behavior for Wrapping {
}

} // verus!
