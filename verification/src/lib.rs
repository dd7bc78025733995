//! A fixed-capacity ring buffer (double-ended queue) with verified index
//! arithmetic, memory-movement engines and overflow policies.
//!
//! The deque stores its elements in a fixed block of `capacity` slots; the
//! logical sequence may start at any physical offset (`tail`) and wraps
//! around the end of the block.  Pushes and pops at either end are O(1);
//! `insert`, `remove` and `drain` move the cheaper of the two neighbouring
//! runs of elements.  Two overflow policies are provided: `Saturating`
//! (reject when full) and `Wrapping` (evict from the opposite end).

pub mod behavior;
pub mod deque;
pub mod error;
pub mod laws;
pub mod storage;
pub mod utils;

pub use behavior::{Behavior, Saturating, Wrapping};
pub use deque::ArrayDeque;
pub use error::CapacityError;
pub use utils::{count, wrap_add, wrap_sub};
