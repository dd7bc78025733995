//! The backing store of the deque and its memory-movement engine.
//!
//! The store is a fixed-length `Vec<Option<T>>`: a `Some` slot holds a live
//! element, a `None` slot is vacant.  Keeping vacant slots `None` (instead
//! of unspecified contents) guarantees that exactly the live elements are
//! ever dropped, and that no vacant slot is ever read as a value.
//!
//! `copy` moves a contiguous block of slots and `wrap_copy` moves a block
//! that may wrap around the end of the store; both move the elements out of
//! their source slots, so a moved element exists in exactly one slot at any
//! time.

use vstd::prelude::*;

verus! {

/// Physical slot `k` steps after `start` on a ring of `cap` slots,
/// for `0 <= start < cap` and `0 <= k <= cap`.
pub open spec fn ring_add(start: int, k: int, cap: int) -> int {
    if start + k < cap {
        start + k
    } else {
        start + k - cap
    }
}

/// Number of forward steps from `start` to `p` on a ring of `cap` slots,
/// for `0 <= start < cap` and `0 <= p < cap`.
pub open spec fn ring_dist(start: int, p: int, cap: int) -> int {
    if p >= start {
        p - start
    } else {
        p + cap - start
    }
}

/// Does slot `p` lie in the ring range of `len` slots starting at `start`?
pub open spec fn in_ring_range(p: int, start: int, len: int, cap: int) -> bool {
    ring_dist(start, p, cap) < len
}

/// Moves the contents of slot `offset` out of the store, leaving the slot
/// vacant.
pub fn buffer_read<T>(buf: &mut Vec<Option<T>>, offset: usize) -> (r: Option<T>)
    requires
        offset < old(buf)@.len(),
    ensures
        r == old(buf)@[offset as int],
        final(buf)@ == old(buf)@.update(offset as int, None::<T>),
{
    let slot = &mut buf[offset];
    slot.take()
}

/// Writes `element` into the vacant slot `offset`.
///
/// The slot must be vacant, so that no live element is ever overwritten
/// (and hence dropped) by a write.
pub fn buffer_write<T>(buf: &mut Vec<Option<T>>, offset: usize, element: Option<T>)
    requires
        offset < old(buf)@.len(),
        old(buf)@[offset as int] is None,
    ensures
        final(buf)@ == old(buf)@.update(offset as int, element),
{
    let slot = &mut buf[offset];
    *slot = element;
}

/// Moves a contiguous block of `len` slots from `src` to `dst`, neither
/// block wrapping around the end of the store.  The two blocks may overlap;
/// the move is overlap-safe, like a memory move.  Source slots that are not
/// also destination slots are left vacant.
///
/// Destination slots outside the source block must be vacant beforehand,
/// so that the move never drops a live element.
pub fn copy<T>(buf: &mut Vec<Option<T>>, dst: usize, src: usize, len: usize)
    requires
        dst + len <= old(buf)@.len(),
        src + len <= old(buf)@.len(),
        forall|j: int|
            dst <= j < dst + len && !(src <= j < src + len) ==> #[trigger] old(buf)@[j] is None,
    ensures
        final(buf)@.len() == old(buf)@.len(),
        forall|j: int|
            dst <= j < dst + len ==> #[trigger] final(buf)@[j] == old(buf)@[j - dst + src],
        forall|j: int|
            src <= j < src + len && !(dst <= j < dst + len) ==> #[trigger] final(buf)@[j] is None,
        forall|j: int|
            0 <= j < final(buf)@.len() && !(dst <= j < dst + len) && !(src <= j < src + len)
                ==> #[trigger] final(buf)@[j] == old(buf)@[j],
{
    if dst <= src {
        let mut i: usize = 0;
        while i < len
            invariant
                dst <= src,
                buf.len() == buf@.len(),
                dst + len <= buf@.len(),
                src + len <= buf@.len(),
                buf@.len() == old(buf)@.len(),
                i <= len,
                forall|j: int|
                    dst <= j < dst + i ==> #[trigger] buf@[j] == old(buf)@[j - dst + src],
                forall|j: int|
                    src <= j < src + i && !(dst <= j < dst + i) ==> #[trigger] buf@[j] is None,
                forall|j: int|
                    0 <= j < buf@.len() && !(dst <= j < dst + i) && !(src <= j < src + i)
                        ==> #[trigger] buf@[j] == old(buf)@[j],
                forall|j: int|
                    dst <= j < dst + len && !(src <= j < src + len)
                        ==> #[trigger] old(buf)@[j] is None,
            decreases len - i,
        {
            let v = buffer_read(buf, src + i);
            assert(buf@[dst + i as int] is None);
            buffer_write(buf, dst + i, v);
            i = i + 1;
        }
    } else {
        let mut i: usize = len;
        while i > 0
            invariant
                dst > src,
                buf.len() == buf@.len(),
                dst + len <= buf@.len(),
                src + len <= buf@.len(),
                buf@.len() == old(buf)@.len(),
                i <= len,
                forall|j: int|
                    dst + i <= j < dst + len ==> #[trigger] buf@[j] == old(buf)@[j - dst + src],
                forall|j: int|
                    src + i <= j < src + len && !(dst + i <= j < dst + len)
                        ==> #[trigger] buf@[j] is None,
                forall|j: int|
                    0 <= j < buf@.len() && !(dst + i <= j < dst + len)
                        && !(src + i <= j < src + len) ==> #[trigger] buf@[j] == old(buf)@[j],
                forall|j: int|
                    dst <= j < dst + len && !(src <= j < src + len)
                        ==> #[trigger] old(buf)@[j] is None,
            decreases i,
        {
            i = i - 1;
            let v = buffer_read(buf, src + i);
            assert(buf@[dst + i as int] is None);
            buffer_write(buf, dst + i, v);
        }
    }
}

/// The smaller of the two circular distances between slots `a` and `b` on
/// a ring of `cap` slots.
pub open spec fn ring_gap(a: int, b: int, cap: int) -> int {
    let d = if a >= b {
        a - b
    } else {
        b - a
    };
    if d <= cap - d {
        d
    } else {
        cap - d
    }
}

/// Moves a block of `len` slots that starts at `src` and may wrap around
/// the end of the store to the block of `len` slots starting at `dst`,
/// which may also wrap.  The two blocks must overlap in at most one
/// contiguous arc of the ring: `ring_gap(dst, src) + len <= cap`.
///
/// The block is classified by whether the destination start lies
/// cyclically within the moved block, and by whether the source and the
/// destination wrap; each of the reachable combinations is performed as
/// one to three straight `copy` calls, ordered so that no slot is
/// overwritten before it has been read.
///
/// As with `copy`, destination slots outside the source block must be
/// vacant beforehand, and source slots that are not also destination
/// slots are left vacant.
#[verifier::rlimit(100)]
#[verifier::spinoff_prover]
pub fn wrap_copy<T>(buf: &mut Vec<Option<T>>, dst: usize, src: usize, len: usize)
    requires
        dst < old(buf)@.len(),
        src < old(buf)@.len(),
        len <= old(buf)@.len(),
        ring_gap(dst as int, src as int, old(buf)@.len() as int) + len <= old(buf)@.len(),
        forall|p: int|
            0 <= p < old(buf)@.len() && in_ring_range(p, dst as int, len as int, old(buf)@.len() as int)
                && !in_ring_range(p, src as int, len as int, old(buf)@.len() as int)
                ==> #[trigger] old(buf)@[p] is None,
    ensures
        final(buf)@.len() == old(buf)@.len(),
        forall|p: int|
            0 <= p < old(buf)@.len() && in_ring_range(p, dst as int, len as int, old(buf)@.len() as int)
                ==> #[trigger] final(buf)@[p] == old(buf)@[ring_add(
                src as int,
                ring_dist(dst as int, p, old(buf)@.len() as int),
                old(buf)@.len() as int,
            )],
        forall|p: int|
            0 <= p < old(buf)@.len() && in_ring_range(p, src as int, len as int, old(buf)@.len() as int)
                && !in_ring_range(p, dst as int, len as int, old(buf)@.len() as int)
                ==> #[trigger] final(buf)@[p] is None,
        forall|p: int|
            0 <= p < old(buf)@.len() && !in_ring_range(p, dst as int, len as int, old(buf)@.len() as int)
                && !in_ring_range(p, src as int, len as int, old(buf)@.len() as int)
                ==> #[trigger] final(buf)@[p] == old(buf)@[p],
{
    let cap = buf.len();
    if src == dst || len == 0 {
        return;
    }
    let ds = if dst >= src {
        dst - src
    } else {
        dst + (cap - src)
    };
    let dst_after_src = ds < len;
    let src_pre_wrap_len = cap - src;
    let dst_pre_wrap_len = cap - dst;
    let src_wraps = src_pre_wrap_len < len;
    let dst_wraps = dst_pre_wrap_len < len;

    let ghost c = cap as int;
    let ghost d0 = dst as int;
    let ghost s0 = src as int;
    let ghost l0 = len as int;
    let ghost b0 = buf@;

    if !src_wraps && !dst_wraps {
        // neither block wraps: one straight move
        copy(buf, dst, src, len);
        proof {
            assert forall|p: int| 0 <= p < c implies buf@[p] == (if d0 <= p < d0 + l0 {
                b0[p - d0 + s0]
            } else if s0 <= p < s0 + l0 {
                None::<T>
            } else {
                b0[p]
            }) by {}
        }
    } else if !dst_after_src && !src_wraps && dst_wraps {
        // destination before source, only the destination wraps
        copy(buf, dst, src, dst_pre_wrap_len);
        copy(buf, 0, src + dst_pre_wrap_len, len - dst_pre_wrap_len);
        proof {
            assert forall|p: int| 0 <= p < c implies buf@[p] == (if d0 <= p < c {
                b0[p - d0 + s0]
            } else if 0 <= p < l0 - (c - d0) {
                b0[p + s0 + (c - d0)]
            } else if s0 <= p < s0 + l0 {
                None::<T>
            } else {
                b0[p]
            }) by {}
        }
    } else if dst_after_src && !src_wraps && dst_wraps {
        // source before destination, only the destination wraps: move the
        // wrapped part first so it is not overwritten
        copy(buf, 0, src + dst_pre_wrap_len, len - dst_pre_wrap_len);
        copy(buf, dst, src, dst_pre_wrap_len);
        proof {
            assert forall|p: int| 0 <= p < c implies buf@[p] == (if d0 <= p < c {
                b0[p - d0 + s0]
            } else if 0 <= p < l0 - (c - d0) {
                b0[p + s0 + (c - d0)]
            } else if s0 <= p < s0 + l0 {
                None::<T>
            } else {
                b0[p]
            }) by {}
        }
    } else if !dst_after_src && src_wraps && !dst_wraps {
        // destination before source, only the source wraps
        copy(buf, dst, src, src_pre_wrap_len);
        copy(buf, dst + src_pre_wrap_len, 0, len - src_pre_wrap_len);
        proof {
            assert forall|p: int| 0 <= p < c implies buf@[p] == (if d0 <= p < d0 + (c - s0) {
                b0[p - d0 + s0]
            } else if d0 + (c - s0) <= p < d0 + l0 {
                b0[p - d0 - (c - s0)]
            } else if p >= s0 || p < l0 - (c - s0) {
                None::<T>
            } else {
                b0[p]
            }) by {}
        }
    } else if dst_after_src && src_wraps && !dst_wraps {
        // source before destination, only the source wraps: move the
        // wrapped part first
        copy(buf, dst + src_pre_wrap_len, 0, len - src_pre_wrap_len);
        copy(buf, dst, src, src_pre_wrap_len);
        proof {
            assert forall|p: int| 0 <= p < c implies buf@[p] == (if d0 <= p < d0 + (c - s0) {
                b0[p - d0 + s0]
            } else if d0 + (c - s0) <= p < d0 + l0 {
                b0[p - d0 - (c - s0)]
            } else if p >= s0 || p < l0 - (c - s0) {
                None::<T>
            } else {
                b0[p]
            }) by {}
        }
    } else if !dst_after_src {
        // destination before source, both wrap: the pre-wrap destination
        // run is the longer one and is filled in two steps
        let delta = dst_pre_wrap_len - src_pre_wrap_len;
        copy(buf, dst, src, src_pre_wrap_len);
        copy(buf, dst + src_pre_wrap_len, 0, delta);
        copy(buf, 0, delta, len - dst_pre_wrap_len);
        proof {
            assert forall|p: int| 0 <= p < c implies buf@[p] == (if d0 <= p < d0 + (c - s0) {
                b0[p - d0 + s0]
            } else if d0 + (c - s0) <= p < c {
                b0[p - d0 - (c - s0)]
            } else if 0 <= p < l0 - (c - d0) {
                b0[p + (c - d0) - (c - s0)]
            } else if p >= s0 || p < l0 - (c - s0) {
                None::<T>
            } else {
                b0[p]
            }) by {}
        }
    } else {
        // source before destination, both wrap: the pre-wrap source run is
        // the longer one and is drained in two steps
        let delta = src_pre_wrap_len - dst_pre_wrap_len;
        copy(buf, delta, 0, len - src_pre_wrap_len);
        copy(buf, 0, cap - delta, delta);
        copy(buf, dst, src, dst_pre_wrap_len);
        proof {
            assert forall|p: int| 0 <= p < c implies buf@[p] == (if d0 <= p < c {
                b0[p - d0 + s0]
            } else if 0 <= p < (c - s0) - (c - d0) {
                b0[p + c - ((c - s0) - (c - d0))]
            } else if (c - s0) - (c - d0) <= p < l0 - (c - d0) {
                b0[p - ((c - s0) - (c - d0))]
            } else if p >= s0 || p < l0 - (c - s0) {
                None::<T>
            } else {
                b0[p]
            }) by {}
        }
    }
}

} // verus!
