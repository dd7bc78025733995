//! Modular index arithmetic for ring buffers.

use vstd::prelude::*;

verus! {

/// Returns `(index + addend) mod capacity`.
pub fn wrap_add(index: usize, addend: usize, capacity: usize) -> (r: usize)
    requires
        capacity > 0,
        addend <= capacity,
        index + addend <= usize::MAX,
    ensures
        r == (index + addend) % (capacity as int),
        index < capacity ==> r == if index + addend < capacity {
            index + addend
        } else {
            index + addend - capacity
        },
{
    let sum = index + addend;
    proof {
        if index < capacity {
            if sum < capacity {
                assert(sum as int % capacity as int == sum as int) by (nonlinear_arith)
                    requires 0 <= sum < capacity;
            } else {
                assert(sum as int % capacity as int == sum - capacity) by (nonlinear_arith)
                    requires capacity <= sum < 2 * capacity, capacity > 0;
            }
        }
    }
    sum % capacity
}

/// Returns `(index + capacity - subtrahend) mod capacity`.
pub fn wrap_sub(index: usize, subtrahend: usize, capacity: usize) -> (r: usize)
    requires
        capacity > 0,
        subtrahend <= capacity,
        index + capacity <= usize::MAX,
    ensures
        r == (index + capacity - subtrahend) % (capacity as int),
        index < capacity ==> r == if index >= subtrahend {
            index - subtrahend
        } else {
            index + capacity - subtrahend
        },
{
    let sum = index + capacity - subtrahend;
    proof {
        if index < capacity {
            if sum < capacity {
                assert(sum as int % capacity as int == sum as int) by (nonlinear_arith)
                    requires 0 <= sum < capacity;
            } else {
                assert(sum as int % capacity as int == sum - capacity) by (nonlinear_arith)
                    requires capacity <= sum < 2 * capacity, capacity > 0;
            }
        }
    }
    sum % capacity
}

/// Returns the number of live elements of a head/tail ring buffer:
/// `head - tail` when `head >= tail`, else `capacity + head - tail`.
pub fn count(tail: usize, head: usize, capacity: usize) -> (r: usize)
    requires
        tail < capacity,
        head < capacity,
    ensures
        r == if head >= tail {
            head - tail
        } else {
            capacity + head - tail
        },
{
    if head >= tail {
        head - tail
    } else {
        capacity - tail + head
    }
}

} // verus!
