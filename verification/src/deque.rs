//! The fixed-capacity ring-buffer deque.
//!
//! The deque owns a store of `capacity` slots (see `storage`) together with
//! `tail`, the physical slot of the logically first element, and `len`, the
//! number of live elements.  The logical element at position `i` lives in
//! physical slot `(tail + i) mod capacity`; exactly the live slots hold a
//! value.

use vstd::prelude::*;

use crate::behavior::{Behavior, Saturating, Wrapping};
use crate::error::CapacityError;
use crate::storage::{buffer_read, buffer_write, copy, in_ring_range, ring_add, ring_dist, wrap_copy};
use vstd::std_specs::cmp::PartialEqSpec;

verus! {

/// The subsequence of `s` at the positions where `keep` is true.
pub open spec fn filter_by<A>(s: Seq<A>, keep: Seq<bool>) -> Seq<A>
    recommends
        s.len() == keep.len(),
    decreases s.len(),
{
    if s.len() == 0 {
        Seq::empty()
    } else {
        (if keep[0] {
            seq![s[0]]
        } else {
            Seq::empty()
        }) + filter_by(s.skip(1), keep.skip(1))
    }
}

/// Appending one element to the input of `filter_by` appends it to the
/// output exactly when its `keep` flag is true.
pub proof fn lemma_filter_by_snoc<A>(s: Seq<A>, keep: Seq<bool>, x: A, b: bool)
    requires
        s.len() == keep.len(),
    ensures
        filter_by(s.push(x), keep.push(b)) == filter_by(s, keep) + (if b {
            seq![x]
        } else {
            Seq::<A>::empty()
        }),
    decreases s.len(),
{
    let tail = if b {
        seq![x]
    } else {
        Seq::<A>::empty()
    };
    if s.len() == 0 {
        assert(s.push(x).skip(1) =~= Seq::<A>::empty());
        assert(keep.push(b).skip(1) =~= Seq::<bool>::empty());
        assert(filter_by(s.push(x), keep.push(b)) == (if b {
            seq![s.push(x)[0]]
        } else {
            Seq::<A>::empty()
        }) + filter_by(Seq::<A>::empty(), Seq::<bool>::empty()));
        assert(filter_by(Seq::<A>::empty(), Seq::<bool>::empty()) == Seq::<A>::empty());
        assert(filter_by(s, keep) == Seq::<A>::empty());
        assert(filter_by(s.push(x), keep.push(b)) =~= filter_by(s, keep) + tail);
    } else {
        lemma_filter_by_snoc(s.skip(1), keep.skip(1), x, b);
        assert(s.push(x).skip(1) =~= s.skip(1).push(x));
        assert(keep.push(b).skip(1) =~= keep.skip(1).push(b));
        assert(s.push(x)[0] == s[0]);
        assert(keep.push(b)[0] == keep[0]);
        assert(filter_by(s.push(x), keep.push(b)) == (if keep[0] {
            seq![s[0]]
        } else {
            Seq::<A>::empty()
        }) + filter_by(s.skip(1).push(x), keep.skip(1).push(b)));
        assert(filter_by(s, keep) == (if keep[0] {
            seq![s[0]]
        } else {
            Seq::<A>::empty()
        }) + filter_by(s.skip(1), keep.skip(1)));
        assert(filter_by(s.push(x), keep.push(b)) =~= filter_by(s, keep) + tail);
    }
}

/// A fixed capacity ring buffer.
///
/// The "default" usage of this type as a queue is to use `push_back` to add
/// to the queue, and `pop_front` to remove from the queue.  Element `0` is
/// the front of the queue.
pub struct ArrayDeque<T, B: Behavior = Saturating> {
    buf: Vec<Option<T>>,
    tail: usize,
    len: usize,
    marker: core::marker::PhantomData<B>,
}

impl<T: Clone, B: Behavior> Clone for ArrayDeque<T, B> {
    /// Clones the backing store slot by slot; the copy has the same
    /// capacity and rotation.
    fn clone(&self) -> Self {
        ArrayDeque {
            buf: self.buf.clone(),
            tail: self.tail,
            len: self.len,
            marker: core::marker::PhantomData,
        }
    }
}

impl<T, B: Behavior> View for ArrayDeque<T, B> {
    type V = Seq<T>;

    closed spec fn view(&self) -> Seq<T> {
        Seq::new(
            self.len as nat,
            |i: int| self.buf@[ring_add(self.tail as int, i, self.buf@.len() as int)]->0,
        )
    }
}

impl<T, B: Behavior> ArrayDeque<T, B> {
    /// The fixed number of slots of the backing store.
    pub closed spec fn spec_capacity(&self) -> int {
        self.buf@.len() as int
    }

    /// The physical slot of the logically first element.
    pub closed spec fn spec_tail(&self) -> int {
        self.tail as int
    }

    /// The physical slot one past the logically last element.
    pub open spec fn spec_head(&self) -> int {
        ring_add(self.spec_tail(), self@.len() as int, self.spec_capacity())
    }

    /// Well-formedness: `tail` and `len` are in range and exactly the live
    /// ring range `[tail, tail + len)` holds values.
    pub closed spec fn wf(&self) -> bool {
        &&& self.len as int == self@.len()
        &&& self.len <= self.buf@.len()
        &&& self.tail < self.buf@.len() || (self.tail == 0 && self.buf@.len() == 0)
        &&& forall|p: int|
            0 <= p < self.buf@.len() ==> ((#[trigger] self.buf@[p]) is Some <==> in_ring_range(
                p,
                self.tail as int,
                self.len as int,
                self.buf@.len() as int,
            ))
    }

    /// Creates an empty `ArrayDeque` with the given fixed capacity.
    pub fn new(capacity: usize) -> (r: Self)
        ensures
            r.wf(),
            r@ == Seq::<T>::empty(),
            r.spec_capacity() == capacity,
            r.spec_tail() == 0,
    {
        let mut buf: Vec<Option<T>> = Vec::new();
        while buf.len() < capacity
            invariant
                buf@.len() <= capacity,
                forall|p: int| 0 <= p < buf@.len() ==> (#[trigger] buf@[p]) is None,
            decreases capacity - buf@.len(),
        {
            buf.push(None);
        }
        let r = ArrayDeque { buf, tail: 0, len: 0, marker: core::marker::PhantomData };
        proof {
            assert(r@ =~= Seq::<T>::empty());
        }
        r
    }

    /// Returns the capacity of the `ArrayDeque`.
    pub fn capacity(&self) -> (r: usize)
        ensures
            r == self.spec_capacity(),
    {
        self.buf.len()
    }

    /// Returns the number of elements in the `ArrayDeque`.
    pub fn len(&self) -> (r: usize)
        requires
            self.wf(),
        ensures
            r == self@.len(),
    {
        self.len
    }

    /// Returns true if the buffer contains no elements.
    pub fn is_empty(&self) -> (r: bool)
        requires
            self.wf(),
        ensures
            r == (self@.len() == 0),
    {
        self.len == 0
    }

    /// Returns true if the buffer is full.
    pub fn is_full(&self) -> (r: bool)
        requires
            self.wf(),
        ensures
            r == (self@.len() == self.spec_capacity()),
    {
        self.len == self.buf.len()
    }

    /// Returns the physical slot of the logically first element.
    pub fn tail(&self) -> (r: usize)
        requires
            self.wf(),
        ensures
            r == self.spec_tail(),
            self.spec_capacity() > 0 ==> r < self.spec_capacity(),
    {
        self.tail
    }

    /// Returns the physical slot one past the logically last element.
    pub fn head(&self) -> (r: usize)
        requires
            self.wf(),
            self.spec_capacity() > 0,
        ensures
            r == self.spec_head(),
            r < self.spec_capacity(),
    {
        let d = self.buf.len() - self.tail;
        if self.len < d {
            self.tail + self.len
        } else {
            self.len - d
        }
    }

    /// Returns true if the live range does not wrap past the end of the
    /// backing store.
    pub fn is_contiguous(&self) -> (r: bool)
        requires
            self.wf(),
        ensures
            r == (self.spec_tail() + self@.len() <= self.spec_capacity()),
    {
        self.len <= self.buf.len() - self.tail
    }

    /// Retrieves an element in the `ArrayDeque` by index, or `None` if the
    /// index is out of bounds.
    ///
    /// Element at index 0 is the front of the queue.
    pub fn get(&self, index: usize) -> (r: Option<&T>)
        requires
            self.wf(),
        ensures
            r is Some <==> index < self@.len(),
            index < self@.len() ==> (r matches Some(v) && *v == self@[index as int]),
    {
        if index < self.len {
            let d = self.buf.len() - self.tail;
            let idx = if index < d {
                self.tail + index
            } else {
                index - d
            };
            self.buf[idx].as_ref()
        } else {
            None
        }
    }

    /// Retrieves an element in the `ArrayDeque` mutably by index, or
    /// `None` if the index is out of bounds.  The deque afterwards holds
    /// whatever value the caller leaves in the returned reference.
    ///
    /// Element at index 0 is the front of the queue.
    pub fn get_mut(&mut self, index: usize) -> (r: Option<&mut T>)
        requires
            old(self).wf(),
        ensures
            final(self).wf(),
            final(self).spec_capacity() == old(self).spec_capacity(),
            r is Some <==> index < old(self)@.len(),
            index >= old(self)@.len() ==> final(self)@ == old(self)@,
            index < old(self)@.len() ==> *r.unwrap() == old(self)@[index as int] && final(self)@
                == old(self)@.update(index as int, *final(r.unwrap())),
    {
        if index < self.len {
            let d = self.buf.len() - self.tail;
            let idx = if index < d {
                self.tail + index
            } else {
                index - d
            };
            self.buf[idx].as_mut()
        } else {
            None
        }
    }

    /// Provides a reference to the front element, or `None` if the
    /// sequence is empty.
    pub fn front(&self) -> (r: Option<&T>)
        requires
            self.wf(),
        ensures
            r is Some <==> self@.len() > 0,
            self@.len() > 0 ==> (r matches Some(v) && *v == self@[0]),
    {
        self.get(0)
    }

    /// Provides a mutable reference to the front element, or `None` if
    /// the sequence is empty.
    pub fn front_mut(&mut self) -> (r: Option<&mut T>)
        requires
            old(self).wf(),
        ensures
            final(self).wf(),
            final(self).spec_capacity() == old(self).spec_capacity(),
            r is Some <==> old(self)@.len() > 0,
            old(self)@.len() == 0 ==> final(self)@ == old(self)@,
            old(self)@.len() > 0 ==> *r.unwrap() == old(self)@[0] && final(self)@ == old(
                self,
            )@.update(0, *final(r.unwrap())),
    {
        self.get_mut(0)
    }

    /// Provides a reference to the back element, or `None` if the sequence
    /// is empty.
    pub fn back(&self) -> (r: Option<&T>)
        requires
            self.wf(),
        ensures
            r is Some <==> self@.len() > 0,
            self@.len() > 0 ==> (r matches Some(v) && *v == self@[self@.len() - 1]),
    {
        if self.len == 0 {
            None
        } else {
            self.get(self.len - 1)
        }
    }

    /// Provides a mutable reference to the back element, or `None` if
    /// the sequence is empty.
    pub fn back_mut(&mut self) -> (r: Option<&mut T>)
        requires
            old(self).wf(),
        ensures
            final(self).wf(),
            final(self).spec_capacity() == old(self).spec_capacity(),
            r is Some <==> old(self)@.len() > 0,
            old(self)@.len() == 0 ==> final(self)@ == old(self)@,
            old(self)@.len() > 0 ==> *r.unwrap() == old(self)@.last() && final(self)@ == old(
                self,
            )@.update(old(self)@.len() - 1, *final(r.unwrap())),
    {
        let len = self.len;
        if len == 0 {
            None
        } else {
            self.get_mut(len - 1)
        }
    }

    /// Adds an element to the front of a deque that has room, moving the
    /// tail boundary one slot backwards.
    pub fn push_front_unchecked(&mut self, element: T)
        requires
            old(self).wf(),
            old(self)@.len() < old(self).spec_capacity(),
        ensures
            final(self).wf(),
            final(self)@ == seq![element] + old(self)@,
            final(self).spec_capacity() == old(self).spec_capacity(),
    {
        let cap = self.buf.len();
        let new_tail = if self.tail == 0 {
            cap - 1
        } else {
            self.tail - 1
        };
        buffer_write(&mut self.buf, new_tail, Some(element));
        self.tail = new_tail;
        self.len = self.len + 1;
        proof {
            assert(self@ =~= seq![element] + old(self)@);
        }
    }

    /// Adds an element to the back of a deque that has room, moving the
    /// head boundary one slot forwards.
    pub fn push_back_unchecked(&mut self, element: T)
        requires
            old(self).wf(),
            old(self)@.len() < old(self).spec_capacity(),
        ensures
            final(self).wf(),
            final(self)@ == old(self)@.push(element),
            final(self).spec_capacity() == old(self).spec_capacity(),
            final(self).spec_tail() == old(self).spec_tail(),
    {
        // binding the store length keeps its bound on the index arithmetic
        // below in scope
        let cap = self.buf.len();
        let head = self.head();
        buffer_write(&mut self.buf, head, Some(element));
        self.len = self.len + 1;
        proof {
            assert(self@ =~= old(self)@.push(element));
        }
    }

    /// Makes room for an element at logical position `index` of a deque
    /// that has room, and writes `element` there, keeping the relative
    /// order of all other elements.
    ///
    /// Whichever end is closer to the insertion point is moved: at most
    /// `min(index, len - index)` elements are shifted by one slot, plus at
    /// most one relocation of the element at the physical wrap boundary.
    /// The cases are selected by whether the live range wraps, which end is
    /// closer, and whether the insertion slot lies in the tail section
    /// (before the wrap) or the head section (after the wrap).
    pub fn insert_unchecked(&mut self, index: usize, element: T)
        requires
            old(self).wf(),
            old(self)@.len() < old(self).spec_capacity(),
            index <= old(self)@.len(),
        ensures
            final(self).wf(),
            final(self)@ == old(self)@.insert(index as int, element),
            final(self).spec_capacity() == old(self).spec_capacity(),
    {
        let cap = self.buf.len();
        let tail = self.tail;
        let len = self.len;
        let contiguous = len < cap - tail;
        let closer_to_tail = index <= len - index;
        let tail_section = index < cap - tail;

        if contiguous && closer_to_tail && index == 0 {
            self.push_front_unchecked(element);
            proof {
                assert(self@ =~= old(self)@.insert(0, element));
            }
        } else if contiguous && closer_to_tail {
            self.insert_contiguous_near_tail(index, element);
        } else if contiguous {
            self.insert_contiguous_near_head(index, element);
        } else if closer_to_tail && tail_section {
            self.insert_wrapped_tail_section_near_tail(index, element);
        } else if tail_section {
            self.insert_wrapped_tail_section_near_head(index, element);
        } else if closer_to_tail {
            self.insert_wrapped_head_section_near_tail(index, element);
        } else {
            self.insert_wrapped_head_section_near_head(index, element);
        }
    }

    /// Insert case: no wraparound, the run before the insertion point is
    /// the cheaper one to move.  The first element moves one slot back
    /// (possibly wrapping to the last physical slot) and the rest of the
    /// run follows.
    #[verifier::rlimit(100)]
    #[verifier::spinoff_prover]
    fn insert_contiguous_near_tail(&mut self, index: usize, element: T)
        requires
            old(self).wf(),
            old(self).spec_tail() + old(self)@.len() < old(self).spec_capacity(),
            1 <= index <= old(self)@.len(),
        ensures
            final(self).wf(),
            final(self)@ == old(self)@.insert(index as int, element),
            final(self).spec_capacity() == old(self).spec_capacity(),
    {
        let cap = self.buf.len();
        let tail = self.tail;
        let new_tail = if tail == 0 {
            cap - 1
        } else {
            tail - 1
        };
        copy(&mut self.buf, new_tail, tail, 1);
        copy(&mut self.buf, tail, tail + 1, index - 1);
        buffer_write(&mut self.buf, tail + index - 1, Some(element));
        self.tail = new_tail;
        self.len = self.len + 1;
        proof {
            old(self)@.insert_ensures(index as int, element);
            assert(self@ =~= old(self)@.insert(index as int, element));
        }
    }

    /// Insert case: no wraparound, the run after the insertion point is
    /// the cheaper one to move; it shifts one slot forward.
    #[verifier::rlimit(100)]
    #[verifier::spinoff_prover]
    fn insert_contiguous_near_head(&mut self, index: usize, element: T)
        requires
            old(self).wf(),
            old(self).spec_tail() + old(self)@.len() < old(self).spec_capacity(),
            index <= old(self)@.len(),
        ensures
            final(self).wf(),
            final(self)@ == old(self)@.insert(index as int, element),
            final(self).spec_capacity() == old(self).spec_capacity(),
    {
        // binding the store length keeps its bound on the index arithmetic
        // below in scope
        let cap = self.buf.len();
        let tail = self.tail;
        let len = self.len;
        let idx = tail + index;
        copy(&mut self.buf, idx + 1, idx, len - index);
        buffer_write(&mut self.buf, idx, Some(element));
        self.len = len + 1;
        proof {
            old(self)@.insert_ensures(index as int, element);
            assert(self@ =~= old(self)@.insert(index as int, element));
        }
    }

    /// Insert case: the live range wraps, the insertion slot is in the
    /// tail section, and the run before the insertion point is cheaper:
    /// that run shifts one slot back into the free slot before the tail.
    #[verifier::rlimit(100)]
    #[verifier::spinoff_prover]
    fn insert_wrapped_tail_section_near_tail(&mut self, index: usize, element: T)
        requires
            old(self).wf(),
            old(self).spec_tail() + old(self)@.len() >= old(self).spec_capacity(),
            old(self)@.len() < old(self).spec_capacity(),
            old(self).spec_tail() + index < old(self).spec_capacity(),
        ensures
            final(self).wf(),
            final(self)@ == old(self)@.insert(index as int, element),
            final(self).spec_capacity() == old(self).spec_capacity(),
    {
        // binding the store length keeps its bound on the index arithmetic
        // below in scope
        let cap = self.buf.len();
        let tail = self.tail;
        copy(&mut self.buf, tail - 1, tail, index);
        buffer_write(&mut self.buf, tail - 1 + index, Some(element));
        self.tail = tail - 1;
        self.len = self.len + 1;
        proof {
            old(self)@.insert_ensures(index as int, element);
            assert(self@ =~= old(self)@.insert(index as int, element));
        }
    }

    /// Insert case: the live range wraps, the insertion slot is in the
    /// tail section, and the run after the insertion point is cheaper:
    /// the head section shifts forward, the last physical slot is
    /// relocated across the wrap, and the rest of the tail section shifts
    /// forward.
    #[verifier::rlimit(100)]
    #[verifier::spinoff_prover]
    fn insert_wrapped_tail_section_near_head(&mut self, index: usize, element: T)
        requires
            old(self).wf(),
            old(self).spec_tail() + old(self)@.len() >= old(self).spec_capacity(),
            old(self)@.len() < old(self).spec_capacity(),
            old(self).spec_tail() + index < old(self).spec_capacity(),
            index <= old(self)@.len(),
        ensures
            final(self).wf(),
            final(self)@ == old(self)@.insert(index as int, element),
            final(self).spec_capacity() == old(self).spec_capacity(),
    {
        let cap = self.buf.len();
        let tail = self.tail;
        let len = self.len;
        let idx = tail + index;
        let head = len - (cap - tail);
        copy(&mut self.buf, 1, 0, head);
        copy(&mut self.buf, 0, cap - 1, 1);
        copy(&mut self.buf, idx + 1, idx, cap - 1 - idx);
        buffer_write(&mut self.buf, idx, Some(element));
        self.len = len + 1;
        proof {
            let c = cap as int;
            let t = tail as int;
            let h = head as int;
            let x = idx as int;
            let b0 = old(self).buf@;
            assert forall|p: int| 0 <= p < c implies self.buf@[p] == (if p == x {
                Some(element)
            } else if p == 0 {
                b0[c - 1]
            } else if p <= h {
                b0[p - 1]
            } else if p > x {
                b0[p - 1]
            } else {
                b0[p]
            }) by {}
            old(self)@.insert_ensures(index as int, element);
            assert(self@ =~= old(self)@.insert(index as int, element));
        }
    }

    /// Insert case: the live range wraps, the insertion slot is in the
    /// head section, and the run before the insertion point is cheaper:
    /// the tail section shifts back, the old first physical slot is
    /// relocated across the wrap into the freed last slot, and the start
    /// of the head section shifts back.
    #[verifier::rlimit(100)]
    #[verifier::spinoff_prover]
    fn insert_wrapped_head_section_near_tail(&mut self, index: usize, element: T)
        requires
            old(self).wf(),
            old(self).spec_tail() + old(self)@.len() >= old(self).spec_capacity(),
            old(self)@.len() < old(self).spec_capacity(),
            old(self).spec_tail() + index >= old(self).spec_capacity(),
            index <= old(self)@.len(),
        ensures
            final(self).wf(),
            final(self)@ == old(self)@.insert(index as int, element),
            final(self).spec_capacity() == old(self).spec_capacity(),
    {
        let cap = self.buf.len();
        let tail = self.tail;
        let idx = index - (cap - tail);
        if idx == 0 {
            copy(&mut self.buf, tail - 1, tail, cap - tail);
            buffer_write(&mut self.buf, cap - 1, Some(element));
        } else {
            copy(&mut self.buf, tail - 1, tail, cap - tail);
            copy(&mut self.buf, cap - 1, 0, 1);
            copy(&mut self.buf, 0, 1, idx - 1);
            buffer_write(&mut self.buf, idx - 1, Some(element));
        }
        self.tail = tail - 1;
        self.len = self.len + 1;
        proof {
            old(self)@.insert_ensures(index as int, element);
            assert(self@ =~= old(self)@.insert(index as int, element));
        }
    }

    /// Insert case: the live range wraps, the insertion slot is in the
    /// head section, and the run after the insertion point is cheaper: it
    /// shifts one slot forward.
    #[verifier::rlimit(100)]
    #[verifier::spinoff_prover]
    fn insert_wrapped_head_section_near_head(&mut self, index: usize, element: T)
        requires
            old(self).wf(),
            old(self).spec_tail() + old(self)@.len() >= old(self).spec_capacity(),
            old(self)@.len() < old(self).spec_capacity(),
            old(self).spec_tail() + index >= old(self).spec_capacity(),
            index <= old(self)@.len(),
        ensures
            final(self).wf(),
            final(self)@ == old(self)@.insert(index as int, element),
            final(self).spec_capacity() == old(self).spec_capacity(),
    {
        let cap = self.buf.len();
        let tail = self.tail;
        let len = self.len;
        let idx = index - (cap - tail);
        let head = len - (cap - tail);
        copy(&mut self.buf, idx + 1, idx, head - idx);
        buffer_write(&mut self.buf, idx, Some(element));
        self.len = len + 1;
        proof {
            old(self)@.insert_ensures(index as int, element);
            assert(self@ =~= old(self)@.insert(index as int, element));
        }
    }

    /// Removes and returns the element at `index`, closing the gap by
    /// shifting whichever neighbouring run is cheaper to move.  Returns
    /// `None` if `index` is out of bounds.
    ///
    /// Element at index 0 is the front of the queue.
    pub fn remove(&mut self, index: usize) -> (r: Option<T>)
        requires
            old(self).wf(),
        ensures
            final(self).wf(),
            final(self).spec_capacity() == old(self).spec_capacity(),
            index < old(self)@.len() ==> r == Some(old(self)@[index as int]) && final(self)@
                == old(self)@.remove(index as int),
            index >= old(self)@.len() ==> r is None && final(self)@ == old(self)@,
    {
        if index >= self.len {
            return None;
        }
        let cap = self.buf.len();
        let tail = self.tail;
        let len = self.len;
        let contiguous = len < cap - tail;
        let closer_to_tail = index <= len - index;
        let tail_section = index < cap - tail;

        if closer_to_tail && tail_section {
            self.remove_near_tail(index)
        } else if closer_to_tail {
            self.remove_wrapped_head_section_near_tail(index)
        } else if contiguous {
            self.remove_contiguous_near_head(index)
        } else if tail_section {
            self.remove_wrapped_tail_section_near_head(index)
        } else {
            self.remove_wrapped_head_section_near_head(index)
        }
    }

    /// Remove case: the gap and the whole run before it lie in the tail
    /// section (in particular whenever the live range does not wrap and
    /// the front run is cheaper): that run shifts one slot forward.
    #[verifier::rlimit(100)]
    #[verifier::spinoff_prover]
    fn remove_near_tail(&mut self, index: usize) -> (r: Option<T>)
        requires
            old(self).wf(),
            index < old(self)@.len(),
            old(self).spec_tail() + index < old(self).spec_capacity(),
        ensures
            final(self).wf(),
            final(self).spec_capacity() == old(self).spec_capacity(),
            r == Some(old(self)@[index as int]),
            final(self)@ == old(self)@.remove(index as int),
    {
        let cap = self.buf.len();
        let tail = self.tail;
        let idx = tail + index;
        let r = buffer_read(&mut self.buf, idx);
        copy(&mut self.buf, tail + 1, tail, index);
        self.tail = if tail + 1 == cap {
            0
        } else {
            tail + 1
        };
        self.len = self.len - 1;
        proof {
            old(self)@.remove_ensures(index as int);
            assert(self@ =~= old(self)@.remove(index as int));
        }
        r
    }

    /// Remove case: no wraparound, the run after the gap is cheaper: it
    /// shifts one slot back.
    #[verifier::rlimit(100)]
    #[verifier::spinoff_prover]
    fn remove_contiguous_near_head(&mut self, index: usize) -> (r: Option<T>)
        requires
            old(self).wf(),
            index < old(self)@.len(),
            old(self).spec_tail() + old(self)@.len() <= old(self).spec_capacity(),
        ensures
            final(self).wf(),
            final(self).spec_capacity() == old(self).spec_capacity(),
            r == Some(old(self)@[index as int]),
            final(self)@ == old(self)@.remove(index as int),
    {
        // binding the store length keeps its bound on the index arithmetic
        // below in scope
        let cap = self.buf.len();
        let tail = self.tail;
        let len = self.len;
        let idx = tail + index;
        let r = buffer_read(&mut self.buf, idx);
        copy(&mut self.buf, idx, idx + 1, len - index - 1);
        self.len = len - 1;
        proof {
            old(self)@.remove_ensures(index as int);
            assert(self@ =~= old(self)@.remove(index as int));
        }
        r
    }

    /// Remove case: the live range wraps, the gap is in the head section,
    /// and the run after it is cheaper: the rest of the head section
    /// shifts one slot back.
    #[verifier::rlimit(100)]
    #[verifier::spinoff_prover]
    fn remove_wrapped_head_section_near_head(&mut self, index: usize) -> (r: Option<T>)
        requires
            old(self).wf(),
            index < old(self)@.len(),
            old(self).spec_tail() + index >= old(self).spec_capacity(),
        ensures
            final(self).wf(),
            final(self).spec_capacity() == old(self).spec_capacity(),
            r == Some(old(self)@[index as int]),
            final(self)@ == old(self)@.remove(index as int),
    {
        let cap = self.buf.len();
        let tail = self.tail;
        let len = self.len;
        let idx = index - (cap - tail);
        let head = len - (cap - tail);
        let r = buffer_read(&mut self.buf, idx);
        copy(&mut self.buf, idx, idx + 1, head - idx - 1);
        self.len = len - 1;
        proof {
            old(self)@.remove_ensures(index as int);
            assert(self@ =~= old(self)@.remove(index as int));
        }
        r
    }

    /// Remove case: the live range wraps (or ends exactly at the last
    /// physical slot), the gap is in the tail section, and the run after
    /// it is cheaper: the rest of the tail section shifts back, and if the
    /// head section is not empty, the first physical slot is relocated
    /// across the wrap and the head section shifts back.
    #[verifier::rlimit(100)]
    #[verifier::spinoff_prover]
    fn remove_wrapped_tail_section_near_head(&mut self, index: usize) -> (r: Option<T>)
        requires
            old(self).wf(),
            index < old(self)@.len(),
            old(self).spec_tail() + old(self)@.len() >= old(self).spec_capacity(),
            old(self).spec_tail() + index < old(self).spec_capacity(),
        ensures
            final(self).wf(),
            final(self).spec_capacity() == old(self).spec_capacity(),
            r == Some(old(self)@[index as int]),
            final(self)@ == old(self)@.remove(index as int),
    {
        let cap = self.buf.len();
        let tail = self.tail;
        let len = self.len;
        let idx = tail + index;
        let head = len - (cap - tail);
        let r = buffer_read(&mut self.buf, idx);
        copy(&mut self.buf, idx, idx + 1, cap - idx - 1);
        if head != 0 {
            copy(&mut self.buf, cap - 1, 0, 1);
            copy(&mut self.buf, 0, 1, head - 1);
        }
        self.len = len - 1;
        proof {
            let c = cap as int;
            let t = tail as int;
            let h = head as int;
            let x = idx as int;
            let b0 = old(self).buf@;
            if h != 0 {
                assert forall|p: int| 0 <= p < c implies self.buf@[p] == (if p < h - 1 {
                    b0[p + 1]
                } else if p == h - 1 {
                    None::<T>
                } else if p < x {
                    b0[p]
                } else if p < c - 1 {
                    b0[p + 1]
                } else {
                    b0[0]
                }) by {}
            } else {
                assert forall|p: int| 0 <= p < c implies self.buf@[p] == (if p < x {
                    b0[p]
                } else if p < c - 1 {
                    b0[p + 1]
                } else {
                    None::<T>
                }) by {}
            }
            old(self)@.remove_ensures(index as int);
            assert(self@ =~= old(self)@.remove(index as int));
        }
        r
    }

    /// Remove case: the live range wraps, the gap is in the head section,
    /// and the run before it is cheaper: the start of the head section
    /// shifts forward, the last physical slot is relocated across the
    /// wrap, and the tail section shifts forward.
    #[verifier::rlimit(100)]
    #[verifier::spinoff_prover]
    fn remove_wrapped_head_section_near_tail(&mut self, index: usize) -> (r: Option<T>)
        requires
            old(self).wf(),
            index < old(self)@.len(),
            old(self).spec_tail() + index >= old(self).spec_capacity(),
        ensures
            final(self).wf(),
            final(self).spec_capacity() == old(self).spec_capacity(),
            r == Some(old(self)@[index as int]),
            final(self)@ == old(self)@.remove(index as int),
    {
        let cap = self.buf.len();
        let tail = self.tail;
        let idx = index - (cap - tail);
        let r = buffer_read(&mut self.buf, idx);
        copy(&mut self.buf, 1, 0, idx);
        copy(&mut self.buf, 0, cap - 1, 1);
        copy(&mut self.buf, tail + 1, tail, cap - tail - 1);
        self.tail = if tail + 1 == cap {
            0
        } else {
            tail + 1
        };
        self.len = self.len - 1;
        proof {
            let c = cap as int;
            let t = tail as int;
            let x = idx as int;
            let b0 = old(self).buf@;
            assert forall|p: int| 0 <= p < c implies self.buf@[p] == (if p == 0 {
                b0[c - 1]
            } else if p <= x {
                b0[p - 1]
            } else if p < t {
                b0[p]
            } else if p == t {
                None::<T>
            } else {
                b0[p - 1]
            }) by {}
            old(self)@.remove_ensures(index as int);
            assert(self@ =~= old(self)@.remove(index as int));
        }
        r
    }

    /// Removes the first element and returns it, or `None` if the sequence
    /// is empty.
    pub fn pop_front(&mut self) -> (r: Option<T>)
        requires
            old(self).wf(),
        ensures
            final(self).wf(),
            final(self).spec_capacity() == old(self).spec_capacity(),
            old(self)@.len() == 0 ==> r is None && final(self)@ == old(self)@,
            old(self)@.len() > 0 ==> r == Some(old(self)@[0]) && final(self)@ == old(self)@.skip(
                1,
            ),
    {
        if self.len == 0 {
            return None;
        }
        let cap = self.buf.len();
        let r = buffer_read(&mut self.buf, self.tail);
        self.tail = if self.tail + 1 == cap {
            0
        } else {
            self.tail + 1
        };
        self.len = self.len - 1;
        proof {
            assert(self@ =~= old(self)@.skip(1));
        }
        r
    }

    /// Removes the logical range `[start, end)` and returns the removed
    /// elements in order.  Afterwards the buffer holds the elements before
    /// the range followed by the elements after it: whichever of those two
    /// runs is cheaper to move is relocated to close the gap.
    /// The state in the middle of a drain: `self` is `orig` with the
    /// logical range `[start, end)` moved out, the vacated slots left
    /// `None` and the bookkeeping fields not yet reconciled.
    spec fn drained_state(self, orig: Self, start: int, end: int) -> bool {
        &&& orig.wf()
        &&& 0 <= start <= end <= orig@.len()
        &&& self.buf@.len() == orig.buf@.len()
        &&& self.tail == orig.tail
        &&& self.len == orig.len
        &&& forall|p: int|
            0 <= p < orig.buf@.len() ==> #[trigger] self.buf@[p] == (if in_ring_range(
                p,
                ring_add(orig.spec_tail(), start, orig.spec_capacity()),
                end - start,
                orig.spec_capacity(),
            ) {
                None::<T>
            } else {
                orig.buf@[p]
            })
    }

    /// Moves the logical range `[start, end)` out of the store into a
    /// fresh vector, leaving the vacated slots and the bookkeeping fields
    /// untouched for the caller to reconcile.
    #[verifier::loop_isolation(false)]
    fn drain_read(&mut self, start: usize, end: usize) -> (r: Vec<T>)
        requires
            old(self).wf(),
            start <= end <= old(self)@.len(),
        ensures
            r@ == old(self)@.subrange(start as int, end as int),
            final(self).buf@.len() == old(self).buf@.len(),
            final(self).tail == old(self).tail,
            final(self).len == old(self).len,
            forall|p: int|
                0 <= p < old(self).buf@.len() ==> #[trigger] final(self).buf@[p] == (if
                in_ring_range(
                    p,
                    ring_add(old(self).spec_tail(), start as int, old(self).spec_capacity()),
                    end - start,
                    old(self).spec_capacity(),
                ) {
                    None::<T>
                } else {
                    old(self).buf@[p]
                }),
    {
        let cap = self.buf.len();
        let tail = self.tail;
        let len = self.len;
        let ghost c = cap as int;
        let ghost t = tail as int;
        let ghost b0 = old(self).buf@;
        let mut r: Vec<T> = Vec::new();
        let mut k = start;
        while k < end
            invariant
                start <= k <= end,
                r@ == old(self)@.subrange(start as int, k as int),
                self.buf@.len() == c,
                self.tail == tail,
                self.len == len,
                forall|p: int|
                    0 <= p < c ==> #[trigger] self.buf@[p] == (if in_ring_range(
                        p,
                        ring_add(t, start as int, c),
                        k - start,
                        c,
                    ) {
                        None::<T>
                    } else {
                        b0[p]
                    }),
            decreases end - k,
        {
            let dd = cap - tail;
            let idx = if k < dd {
                tail + k
            } else {
                k - dd
            };
            let v = buffer_read(&mut self.buf, idx);
            r.push(v.unwrap());
            proof {
                assert(r@ =~= old(self)@.subrange(start as int, k + 1));
            }
            k = k + 1;
        }
        r
    }

    /// Removes the logical range `[start, end)` and returns the removed
    /// elements in order.  Afterwards the buffer holds the elements before
    /// the range followed by the elements after it: whichever of those two
    /// runs is cheaper to move is relocated to close the gap.
    #[verifier::rlimit(100)]
    #[verifier::spinoff_prover]
    pub fn drain(&mut self, start: usize, end: usize) -> (r: Vec<T>)
        requires
            old(self).wf(),
            start <= end <= old(self)@.len(),
        ensures
            final(self).wf(),
            final(self).spec_capacity() == old(self).spec_capacity(),
            r@ == old(self)@.subrange(start as int, end as int),
            final(self)@ == old(self)@.subrange(0, start as int) + old(self)@.subrange(
                end as int,
                old(self)@.len() as int,
            ),
    {
        let cap = self.buf.len();
        let tail = self.tail;
        let len = self.len;
        let ghost l = len as int;

        // move the drained elements out, leaving their slots vacant
        let r = self.drain_read(start, end);

        // reconcile: close the gap by moving the cheaper neighbouring run
        let tail_len = start;
        let head_len = len - end;
        let dd = cap - tail;
        if tail_len == 0 && head_len == 0 {
            self.tail = 0;
            self.len = 0;
            proof {
                assert(self@ =~= old(self)@.subrange(0, start as int) + old(self)@.subrange(
                    end as int,
                    l,
                ));
            }
        } else if tail_len == 0 {
            self.tail = if end < dd {
                tail + end
            } else {
                end - dd
            };
            self.len = head_len;
            proof {
                assert(self@ =~= old(self)@.subrange(0, start as int) + old(self)@.subrange(
                    end as int,
                    l,
                ));
            }
        } else if head_len == 0 {
            self.len = tail_len;
            proof {
                assert(self@ =~= old(self)@.subrange(0, start as int) + old(self)@.subrange(
                    end as int,
                    l,
                ));
            }
        } else if tail_len <= head_len {
            self.drain_close_before(start, end, Ghost(*old(self)));
        } else {
            self.drain_close_after(start, end, Ghost(*old(self)));
        }
        r
    }

    /// Closes a drained gap by moving the run before it backwards onto the
    /// end of the gap; used when that run is the cheaper one to move.
    #[verifier::rlimit(100)]
    #[verifier::spinoff_prover]
    fn drain_close_before(&mut self, start: usize, end: usize, Ghost(orig): Ghost<Self>)
        requires
            old(self).drained_state(orig, start as int, end as int),
            1 <= start,
            end < orig@.len(),
            start as int <= orig@.len() - end,
        ensures
            final(self).wf(),
            final(self).spec_capacity() == orig.spec_capacity(),
            final(self)@ == orig@.subrange(0, start as int) + orig@.subrange(
                end as int,
                orig@.len() as int,
            ),
    {
        let cap = self.buf.len();
        let tail = self.tail;
        let len = self.len;
        let ghost c = cap as int;
        let ghost t = tail as int;
        let ghost l = len as int;
        let ghost b0 = orig.buf@;
        let dd = cap - tail;
        let dl = end - start;
        let new_tail = if dl < dd {
            tail + dl
        } else {
            dl - dd
        };
        wrap_copy(&mut self.buf, new_tail, tail, start);
        self.tail = new_tail;
        self.len = len - dl;
        proof {
            assert forall|p: int| 0 <= p < c implies self.buf@[p] == (if ring_dist(t, p, c)
                < dl {
                None::<T>
            } else if ring_dist(t, p, c) < end {
                b0[ring_add(t, ring_dist(t, p, c) - dl, c)]
            } else {
                b0[p]
            }) by {
                let q = ring_dist(t, p, c);
                assert(ring_add(t, q, c) == p);
            }
            assert(self@ =~= orig@.subrange(0, start as int) + orig@.subrange(end as int, l));
        }
    }

    /// Closes a drained gap by moving the run after it forwards onto the
    /// start of the gap; used when that run is the cheaper one to move.
    #[verifier::rlimit(100)]
    #[verifier::spinoff_prover]
    fn drain_close_after(&mut self, start: usize, end: usize, Ghost(orig): Ghost<Self>)
        requires
            old(self).drained_state(orig, start as int, end as int),
            1 <= start,
            end < orig@.len(),
            orig@.len() - end < start as int,
        ensures
            final(self).wf(),
            final(self).spec_capacity() == orig.spec_capacity(),
            final(self)@ == orig@.subrange(0, start as int) + orig@.subrange(
                end as int,
                orig@.len() as int,
            ),
    {
        let cap = self.buf.len();
        let tail = self.tail;
        let len = self.len;
        let ghost c = cap as int;
        let ghost t = tail as int;
        let ghost l = len as int;
        let ghost b0 = orig.buf@;
        let dd = cap - tail;
        let dl = end - start;
        let head_len = len - end;
        let drain_tail = if start < dd {
            tail + start
        } else {
            start - dd
        };
        let drain_head = if end < dd {
            tail + end
        } else {
            end - dd
        };
        wrap_copy(&mut self.buf, drain_tail, drain_head, head_len);
        self.len = len - dl;
        proof {
            assert forall|p: int| 0 <= p < c implies self.buf@[p] == (if ring_dist(t, p, c)
                < start {
                b0[p]
            } else if ring_dist(t, p, c) < l - dl {
                b0[ring_add(t, ring_dist(t, p, c) + dl, c)]
            } else if ring_dist(t, p, c) < l {
                None::<T>
            } else {
                b0[p]
            }) by {
                let q = ring_dist(t, p, c);
                assert(ring_add(t, q, c) == p);
            }
            assert(self@ =~= orig@.subrange(0, start as int) + orig@.subrange(end as int, l));
        }
    }

    /// Clears the buffer, removing all values.
    pub fn clear(&mut self)
        requires
            old(self).wf(),
        ensures
            final(self).wf(),
            final(self).spec_capacity() == old(self).spec_capacity(),
            final(self)@ == Seq::<T>::empty(),
    {
        let len = self.len;
        let _ = self.drain(0, len);
        proof {
            assert(self@ =~= Seq::<T>::empty());
        }
    }

    /// Splits the collection into two at the given index: `self` keeps the
    /// elements `[0, at)`, the returned deque holds the elements
    /// `[at, len)` and has the same capacity.
    ///
    /// Element at index 0 is the front of the queue.
    pub fn split_off(&mut self, at: usize) -> (r: Self)
        requires
            old(self).wf(),
            at <= old(self)@.len(),
        ensures
            final(self).wf(),
            r.wf(),
            final(self).spec_capacity() == old(self).spec_capacity(),
            r.spec_capacity() == old(self).spec_capacity(),
            final(self)@ == old(self)@.subrange(0, at as int),
            r@ == old(self)@.subrange(at as int, old(self)@.len() as int),
    {
        let cap = self.buf.len();
        let tail = self.tail;
        let len = self.len;
        let ghost c = cap as int;
        let ghost t = tail as int;
        let ghost b0 = old(self).buf@;
        let mut other: Self = Self::new(cap);
        let mut k = at;
        #[verifier::loop_isolation(false)]
        while k < len
            invariant
                at <= k <= len,
                self.buf@.len() == c,
                self.tail == tail,
                self.len == len,
                other.buf@.len() == c,
                other.tail == 0,
                other.len == 0,
                forall|p: int|
                    0 <= p < c ==> #[trigger] self.buf@[p] == (if in_ring_range(
                        p,
                        ring_add(t, at as int, c),
                        k - at,
                        c,
                    ) {
                        None::<T>
                    } else {
                        b0[p]
                    }),
                forall|p: int|
                    0 <= p < c ==> #[trigger] other.buf@[p] == (if p < k - at {
                        b0[ring_add(t, at + p, c)]
                    } else {
                        None::<T>
                    }),
            decreases len - k,
        {
            let dd = cap - tail;
            let idx = if k < dd {
                tail + k
            } else {
                k - dd
            };
            let v = buffer_read(&mut self.buf, idx);
            buffer_write(&mut other.buf, k - at, v);
            k = k + 1;
        }
        self.len = at;
        other.len = len - at;
        proof {
            assert(self@ =~= old(self)@.subrange(0, at as int));
            assert(other@ =~= old(self)@.subrange(at as int, len as int));
        }
        other
    }

    /// Makes the buffer contiguous: afterwards the logical sequence is
    /// unchanged and occupies one physical run.
    pub fn linearize(&mut self)
        requires
            old(self).wf(),
        ensures
            final(self).wf(),
            final(self).spec_capacity() == old(self).spec_capacity(),
            final(self)@ == old(self)@,
            final(self).spec_tail() + final(self)@.len() <= final(self).spec_capacity(),
    {
        if self.len <= self.buf.len() - self.tail {
            return;
        }
        let cap = self.buf.len();
        let tail = self.tail;
        let len = self.len;
        let ghost c = cap as int;
        let ghost t = tail as int;
        let ghost b0 = old(self).buf@;
        let mut nb: Vec<Option<T>> = Vec::new();
        let mut k: usize = 0;
        #[verifier::loop_isolation(false)]
        while k < len
            invariant
                k <= len,
                self.buf@.len() == c,
                self.tail == tail,
                self.len == len,
                nb@.len() == k,
                forall|p: int|
                    0 <= p < c ==> #[trigger] self.buf@[p] == (if in_ring_range(p, t, k as int, c) {
                        None::<T>
                    } else {
                        b0[p]
                    }),
                forall|p: int| 0 <= p < k ==> #[trigger] nb@[p] == b0[ring_add(t, p, c)],
            decreases len - k,
        {
            let dd = cap - tail;
            let idx = if k < dd {
                tail + k
            } else {
                k - dd
            };
            let v = buffer_read(&mut self.buf, idx);
            nb.push(v);
            k = k + 1;
        }
        #[verifier::loop_isolation(false)]
        while nb.len() < cap
            invariant
                len <= nb@.len() <= c,
                forall|p: int| 0 <= p < len ==> #[trigger] nb@[p] == b0[ring_add(t, p, c)],
                forall|p: int| len <= p < nb@.len() ==> #[trigger] nb@[p] is None,
            decreases c - nb@.len(),
        {
            nb.push(None);
        }
        self.buf = nb;
        self.tail = 0;
        proof {
            assert(self@ =~= old(self)@);
        }
    }

    /// Retains only the elements for which the predicate returns true,
    /// in place and preserving the order of the retained elements.
    ///
    /// The result is `filter_by` of the original contents under some
    /// sequence of predicate verdicts, one per original element; for a
    /// predicate whose result is a function of the element this pins the
    /// result down to the filtered sequence.
    #[verifier::rlimit(100)]
    #[verifier::spinoff_prover]
    #[verifier::loop_isolation(false)]
    pub fn retain<F: Fn(&T) -> bool>(&mut self, f: F)
        requires
            old(self).wf(),
            forall|t: &T| #[trigger] f.requires((t,)),
        ensures
            final(self).wf(),
            final(self).spec_capacity() == old(self).spec_capacity(),
            exists|keep: Seq<bool>|
                {
                    &&& keep.len() == old(self)@.len()
                    &&& (forall|k: int|
                        0 <= k < keep.len() ==> f.ensures((&old(self)@[k],), keep[k]))
                    &&& final(self)@ == filter_by(old(self)@, keep)
                },
    {
        let len0 = self.len;
        let ghost orig = self@;
        let ghost mut keep = Seq::<bool>::empty();
        let mut i: usize = 0;
        while i < len0
            invariant
                self.wf(),
                self.spec_capacity() == old(self).spec_capacity(),
                i <= len0,
                orig.len() == len0,
                keep.len() == i,
                forall|k: int| 0 <= k < i ==> f.ensures((&orig[k],), keep[k]),
                self@ == orig.skip(i as int) + filter_by(orig.take(i as int), keep),
            decreases len0 - i,
        {
            proof {
                assert(self@[0] == orig[i as int]);
            }
            let x = self.pop_front().unwrap();
            let verdict = f(&x);
            proof {
                lemma_filter_by_snoc(orig.take(i as int), keep, orig[i as int], verdict);
                assert(orig.take(i + 1) =~= orig.take(i as int).push(orig[i as int]));
                keep = keep.push(verdict);
            }
            if verdict {
                self.push_back_unchecked(x);
                proof {
                    assert(self@ =~= orig.skip(i + 1) + filter_by(orig.take(i + 1), keep));
                }
            } else {
                proof {
                    assert(self@ =~= orig.skip(i + 1) + filter_by(orig.take(i + 1), keep));
                }
            }
            i = i + 1;
        }
        proof {
            assert(orig.take(len0 as int) =~= orig);
            assert(self@ =~= filter_by(orig, keep));
        }
    }

    /// Swaps elements at indices `i` and `j`.  `i` and `j` may be equal.
    ///
    /// Element at index 0 is the front of the queue.
    pub fn swap(&mut self, i: usize, j: usize)
        requires
            old(self).wf(),
            i < old(self)@.len(),
            j < old(self)@.len(),
        ensures
            final(self).wf(),
            final(self).spec_capacity() == old(self).spec_capacity(),
            final(self).spec_tail() == old(self).spec_tail(),
            final(self)@ == old(self)@.update(i as int, old(self)@[j as int]).update(
                j as int,
                old(self)@[i as int],
            ),
    {
        let cap = self.buf.len();
        let d = cap - self.tail;
        let ri = if i < d {
            self.tail + i
        } else {
            i - d
        };
        let rj = if j < d {
            self.tail + j
        } else {
            j - d
        };
        let vi = buffer_read(&mut self.buf, ri);
        let vj = buffer_read(&mut self.buf, rj);
        buffer_write(&mut self.buf, ri, vj);
        buffer_write(&mut self.buf, rj, vi);
        proof {
            assert(self@ =~= old(self)@.update(i as int, old(self)@[j as int]).update(
                j as int,
                old(self)@[i as int],
            ));
        }
    }

    /// Removes an element from anywhere in the `ArrayDeque` and returns
    /// it, replacing it with the last element.  This does not preserve
    /// ordering, but is O(1).  Returns `None` if `index` is out of bounds.
    pub fn swap_remove_back(&mut self, index: usize) -> (r: Option<T>)
        requires
            old(self).wf(),
        ensures
            final(self).wf(),
            final(self).spec_capacity() == old(self).spec_capacity(),
            index >= old(self)@.len() ==> r is None && final(self)@ == old(self)@,
            index < old(self)@.len() ==> r == Some(old(self)@[index as int]) && final(self)@
                == old(self)@.update(index as int, old(self)@.last()).drop_last(),
    {
        let length = self.len;
        if length > 0 && index < length - 1 {
            self.swap(index, length - 1);
        } else if index >= length {
            return None;
        }
        let r = self.pop_back();
        proof {
            assert(self@ =~= old(self)@.update(index as int, old(self)@.last()).drop_last());
        }
        r
    }

    /// Removes an element from anywhere in the `ArrayDeque` and returns
    /// it, replacing it with the first element.  This does not preserve
    /// ordering, but is O(1).  Returns `None` if `index` is out of bounds.
    pub fn swap_remove_front(&mut self, index: usize) -> (r: Option<T>)
        requires
            old(self).wf(),
        ensures
            final(self).wf(),
            final(self).spec_capacity() == old(self).spec_capacity(),
            index >= old(self)@.len() ==> r is None && final(self)@ == old(self)@,
            index < old(self)@.len() ==> r == Some(old(self)@[index as int]) && final(self)@
                == old(self)@.update(index as int, old(self)@[0]).skip(1),
    {
        let length = self.len;
        if length > 0 && index < length && index != 0 {
            self.swap(index, 0);
        } else if index >= length {
            return None;
        }
        let r = self.pop_front();
        proof {
            assert(self@ =~= old(self)@.update(index as int, old(self)@[0]).skip(1));
        }
        r
    }

    /// Returns `true` if the `ArrayDeque` contains an element equal to the
    /// given value.
    ///
    /// The result is pinned down only for element types whose equality
    /// obeys its specification (as all primitive types do).
    pub fn contains(&self, x: &T) -> (r: bool) where T: PartialEq
        requires
            self.wf(),
        ensures
            T::obeys_eq_spec() ==> (r <==> exists|k: int|
                0 <= k < self@.len() && (#[trigger] self@[k]).eq_spec(x)),
    {
        let mut i: usize = 0;
        while i < self.len
            invariant
                self.wf(),
                i <= self@.len(),
                T::obeys_eq_spec() ==> !(exists|k: int|
                    0 <= k < i && (#[trigger] self@[k]).eq_spec(x)),
            decreases self@.len() - i,
        {
            let v = self.get(i);
            if *v.unwrap() == *x {
                return true;
            }
            i = i + 1;
        }
        false
    }

    /// Returns references to the elements, front to back.
    pub fn iter(&self) -> (r: Vec<&T>)
        requires
            self.wf(),
        ensures
            r@.len() == self@.len(),
            forall|i: int| 0 <= i < r@.len() ==> *(#[trigger] r@[i]) == self@[i],
    {
        let mut r: Vec<&T> = Vec::new();
        let mut i: usize = 0;
        while i < self.len
            invariant
                self.wf(),
                i <= self@.len(),
                r@.len() == i,
                forall|k: int| 0 <= k < i ==> *(#[trigger] r@[k]) == self@[k],
            decreases self@.len() - i,
        {
            let v = self.get(i);
            r.push(v.unwrap());
            i = i + 1;
        }
        r
    }

    /// Copies the contents, front to back, into a new vector.
    pub fn to_vec(&self) -> (r: Vec<T>) where T: Copy
        requires
            self.wf(),
        ensures
            r@ == self@,
    {
        let mut r: Vec<T> = Vec::new();
        let mut i: usize = 0;
        while i < self.len
            invariant
                self.wf(),
                i <= self@.len(),
                r@ == self@.take(i as int),
            decreases self@.len() - i,
        {
            let v = self.get(i);
            r.push(*v.unwrap());
            proof {
                assert(r@ =~= self@.take(i + 1));
            }
            i = i + 1;
        }
        proof {
            assert(r@ =~= self@);
        }
        r
    }

    /// Moves the contents, front to back, into a new vector, consuming
    /// the deque.
    pub fn into_vec(self) -> (r: Vec<T>)
        requires
            self.wf(),
        ensures
            r@ == self@,
    {
        let mut this = self;
        let mut r: Vec<T> = Vec::new();
        while this.len > 0
            invariant
                this.wf(),
                r@ + this@ == self@,
            decreases this@.len(),
        {
            let v = this.pop_front();
            r.push(v.unwrap());
            proof {
                assert(r@ + this@ =~= self@);
            }
        }
        proof {
            assert(r@ =~= self@);
        }
        r
    }

    /// Returns a pair of vectors which contain, in order, the copied
    /// contents of the two physical runs of the `ArrayDeque`: the run
    /// from the tail to the end of the store, and the wrapped-around run
    /// from the start of the store.
    pub fn as_slices(&self) -> (r: (Vec<T>, Vec<T>)) where T: Copy
        requires
            self.wf(),
        ensures
            r.0@ + r.1@ == self@,
            r.0@.len() == if self@.len() <= self.spec_capacity() - self.spec_tail() {
                self@.len() as int
            } else {
                self.spec_capacity() - self.spec_tail()
            },
    {
        let cap = self.buf.len();
        let first_len = if self.len <= cap - self.tail {
            self.len
        } else {
            cap - self.tail
        };
        let mut first: Vec<T> = Vec::new();
        let mut i: usize = 0;
        while i < first_len
            invariant
                self.wf(),
                i <= first_len <= self@.len(),
                first@ == self@.take(i as int),
            decreases first_len - i,
        {
            let v = self.get(i);
            first.push(*v.unwrap());
            proof {
                assert(first@ =~= self@.take(i + 1));
            }
            i = i + 1;
        }
        let mut second: Vec<T> = Vec::new();
        while i < self.len
            invariant
                self.wf(),
                first_len <= i <= self@.len(),
                first@ == self@.take(first_len as int),
                second@ == self@.subrange(first_len as int, i as int),
            decreases self@.len() - i,
        {
            let v = self.get(i);
            second.push(*v.unwrap());
            proof {
                assert(second@ =~= self@.subrange(first_len as int, i + 1));
            }
            i = i + 1;
        }
        proof {
            assert(first@ + second@ =~= self@);
        }
        (first, second)
    }

    /// Removes the last element from a buffer and returns it, or `None` if
    /// it is empty.
    pub fn pop_back(&mut self) -> (r: Option<T>)
        requires
            old(self).wf(),
        ensures
            final(self).wf(),
            final(self).spec_capacity() == old(self).spec_capacity(),
            old(self)@.len() == 0 ==> r is None && final(self)@ == old(self)@,
            old(self)@.len() > 0 ==> r == Some(old(self)@.last()) && final(self)@ == old(
                self,
            )@.drop_last(),
    {
        if self.len == 0 {
            return None;
        }
        let d = self.buf.len() - self.tail;
        let last = if self.len - 1 < d {
            self.tail + self.len - 1
        } else {
            self.len - 1 - d
        };
        let r = buffer_read(&mut self.buf, last);
        self.len = self.len - 1;
        proof {
            assert(self@ =~= old(self)@.drop_last());
        }
        r
    }
}

impl<T> ArrayDeque<T, Saturating> {
    /// Adds an element to the front of the deque.
    ///
    /// Returns `Ok(())` if the push succeeds, or the rejected element
    /// inside a `CapacityError` if the deque is full.
    pub fn push_front(&mut self, element: T) -> (r: Result<(), CapacityError<T>>)
        requires
            old(self).wf(),
        ensures
            final(self).wf(),
            final(self).spec_capacity() == old(self).spec_capacity(),
            old(self)@.len() < old(self).spec_capacity() ==> r is Ok && final(self)@ == seq![
                element,
            ] + old(self)@,
            old(self)@.len() == old(self).spec_capacity() ==> (r matches Err(e) && e.element
                == element) && final(self)@ == old(self)@,
    {
        if !self.is_full() {
            self.push_front_unchecked(element);
            Ok(())
        } else {
            Err(CapacityError { element })
        }
    }

    /// Adds an element to the back of the deque.
    ///
    /// Returns `Ok(())` if the push succeeds, or the rejected element
    /// inside a `CapacityError` if the deque is full.
    pub fn push_back(&mut self, element: T) -> (r: Result<(), CapacityError<T>>)
        requires
            old(self).wf(),
        ensures
            final(self).wf(),
            final(self).spec_capacity() == old(self).spec_capacity(),
            old(self)@.len() < old(self).spec_capacity() ==> r is Ok && final(self)@ == old(
                self,
            )@.push(element),
            old(self)@.len() == old(self).spec_capacity() ==> (r matches Err(e) && e.element
                == element) && final(self)@ == old(self)@,
    {
        if !self.is_full() {
            self.push_back_unchecked(element);
            Ok(())
        } else {
            Err(CapacityError { element })
        }
    }

    /// Inserts an element at `index` within the `ArrayDeque`.  Whichever
    /// end is closer to the insertion point is moved to make room.
    ///
    /// Returns `Ok(())` if the insertion succeeds, or the rejected
    /// element inside a `CapacityError` if the deque is full.
    ///
    /// Element at index 0 is the front of the queue.
    pub fn insert(&mut self, index: usize, element: T) -> (r: Result<(), CapacityError<T>>)
        requires
            old(self).wf(),
            index <= old(self)@.len(),
        ensures
            final(self).wf(),
            final(self).spec_capacity() == old(self).spec_capacity(),
            old(self)@.len() < old(self).spec_capacity() ==> r is Ok && final(self)@ == old(
                self,
            )@.insert(index as int, element),
            old(self)@.len() == old(self).spec_capacity() ==> (r matches Err(e) && e.element
                == element) && final(self)@ == old(self)@,
    {
        if self.is_full() {
            return Err(CapacityError { element });
        }
        self.insert_unchecked(index, element);
        Ok(())
    }

    /// Extends the deque from the front with the contents of `items`,
    /// first element pushed first.  Elements for which there is no room
    /// are dropped, and no error occurs.
    #[verifier::rlimit(100)]
    #[verifier::spinoff_prover]
    #[verifier::loop_isolation(false)]
    pub fn extend_front(&mut self, items: Vec<T>)
        requires
            old(self).wf(),
        ensures
            final(self).wf(),
            final(self).spec_capacity() == old(self).spec_capacity(),
            final(self)@ == items@.take(
                if items@.len() <= old(self).spec_capacity() - old(self)@.len() {
                    items@.len() as int
                } else {
                    old(self).spec_capacity() - old(self)@.len()
                },
            ).reverse() + old(self)@,
    {
        let mut items = items;
        let n = items.len();
        let ghost all = items@;
        let ghost room = if all.len() <= old(self).spec_capacity() - old(self)@.len() {
            all.len() as int
        } else {
            old(self).spec_capacity() - old(self)@.len()
        };
        let mut i: usize = 0;
        while items.len() > 0
            invariant
                self.wf(),
                self.spec_capacity() == old(self).spec_capacity(),
                all.len() == n,
                i + items@.len() == all.len(),
                items@ == all.skip(i as int),
                self@ == all.take(if i <= room {
                    i as int
                } else {
                    room
                }).reverse() + old(self)@,
            decreases items@.len(),
        {
            let x = items.remove(0);
            proof {
                assert(all.take(if i <= room {
                    i as int
                } else {
                    room
                }).len() == if i <= room {
                    i as int
                } else {
                    room
                });
            }
            if !self.is_full() {
                proof {
                    assert(i < room);
                }
                self.push_front_unchecked(x);
                proof {
                    assert(all.take(i + 1).reverse() =~= seq![all[i as int]] + all.take(
                        i as int,
                    ).reverse());
                }
            } else {
                proof {
                    assert(i >= room);
                }
            }
            i = i + 1;
        }
        proof {
            assert(self@ =~= all.take(room).reverse() + old(self)@);
        }
    }

    /// Extends the deque from the back with the contents of `items`, in
    /// order.  Elements for which there is no room are dropped, and no
    /// error occurs.
    #[verifier::rlimit(100)]
    #[verifier::spinoff_prover]
    #[verifier::loop_isolation(false)]
    pub fn extend_back(&mut self, items: Vec<T>)
        requires
            old(self).wf(),
        ensures
            final(self).wf(),
            final(self).spec_capacity() == old(self).spec_capacity(),
            final(self)@ == old(self)@ + items@.take(
                if items@.len() <= old(self).spec_capacity() - old(self)@.len() {
                    items@.len() as int
                } else {
                    old(self).spec_capacity() - old(self)@.len()
                },
            ),
    {
        let mut items = items;
        let n = items.len();
        let ghost all = items@;
        let ghost room = if all.len() <= old(self).spec_capacity() - old(self)@.len() {
            all.len() as int
        } else {
            old(self).spec_capacity() - old(self)@.len()
        };
        let mut i: usize = 0;
        while items.len() > 0
            invariant
                self.wf(),
                self.spec_capacity() == old(self).spec_capacity(),
                all.len() == n,
                i + items@.len() == all.len(),
                items@ == all.skip(i as int),
                self@ == old(self)@ + all.take(if i <= room {
                    i as int
                } else {
                    room
                }),
            decreases items@.len(),
        {
            let x = items.remove(0);
            proof {
                assert(all.take(if i <= room {
                    i as int
                } else {
                    room
                }).len() == if i <= room {
                    i as int
                } else {
                    room
                });
            }
            if !self.is_full() {
                proof {
                    assert(i < room);
                }
                self.push_back_unchecked(x);
                proof {
                    assert(old(self)@ + all.take(i + 1) =~= (old(self)@ + all.take(i as int)).push(
                        all[i as int],
                    ));
                }
            } else {
                proof {
                    assert(i >= room);
                }
            }
            i = i + 1;
        }
        proof {
            assert(self@ =~= old(self)@ + all.take(room));
        }
    }

    /// Builds a deque of the given capacity from the elements of `items`:
    /// the first elements, up to capacity, are kept in order.
    pub fn from_iter(items: Vec<T>, capacity: usize) -> (r: Self)
        ensures
            r.wf(),
            r.spec_capacity() == capacity,
            r@ == items@.take(
                if items@.len() <= capacity {
                    items@.len() as int
                } else {
                    capacity as int
                },
            ),
    {
        let mut r: ArrayDeque<T, Saturating> = ArrayDeque::new(capacity);
        r.extend_back(items);
        proof {
            assert(r@ =~= items@.take(
                if items@.len() <= capacity {
                    items@.len() as int
                } else {
                    capacity as int
                },
            ));
        }
        r
    }

    /// Moves the contents of `other` to the back of `self`, leaving
    /// `other` empty.  Elements for which `self` has no room are dropped.
    #[verifier::rlimit(100)]
    #[verifier::spinoff_prover]
    #[verifier::loop_isolation(false)]
    pub fn append(&mut self, other: &mut Self)
        requires
            old(self).wf(),
            old(other).wf(),
        ensures
            final(self).wf(),
            final(other).wf(),
            final(self).spec_capacity() == old(self).spec_capacity(),
            final(other).spec_capacity() == old(other).spec_capacity(),
            final(other)@ == Seq::<T>::empty(),
            final(self)@ == old(self)@ + old(other)@.take(
                if old(other)@.len() <= old(self).spec_capacity() - old(self)@.len() {
                    old(other)@.len() as int
                } else {
                    old(self).spec_capacity() - old(self)@.len()
                },
            ),
    {
        let n = other.len();
        let ghost all = old(other)@;
        let ghost room = if all.len() <= old(self).spec_capacity() - old(self)@.len() {
            all.len() as int
        } else {
            old(self).spec_capacity() - old(self)@.len()
        };
        let mut i: usize = 0;
        loop
            invariant
                self.wf(),
                other.wf(),
                self.spec_capacity() == old(self).spec_capacity(),
                other.spec_capacity() == old(other).spec_capacity(),
                all.len() == n,
                i + other@.len() == all.len(),
                other@ == all.skip(i as int),
                self@ == old(self)@ + all.take(if i <= room {
                    i as int
                } else {
                    room
                }),
            decreases other@.len(),
        {
            let x = other.pop_front();
            match x {
                None => {
                    proof {
                        assert(other@ =~= Seq::<T>::empty());
                    }
                    break;
                },
                Some(x) => {
                    proof {
                        assert(all.skip(i as int)[0] == all[i as int]);
                        assert(other@ =~= all.skip(i + 1));
                        assert(all.take(if i <= room {
                            i as int
                        } else {
                            room
                        }).len() == if i <= room {
                            i as int
                        } else {
                            room
                        });
                    }
                    if !self.is_full() {
                        proof {
                            assert(i < room);
                        }
                        self.push_back_unchecked(x);
                        proof {
                            assert(old(self)@ + all.take(i + 1) =~= (old(self)@ + all.take(
                                i as int,
                            )).push(all[i as int]));
                        }
                    } else {
                        proof {
                            assert(i >= room);
                        }
                    }
                    i = i + 1;
                },
            }
        }
        proof {
            assert(self@ =~= old(self)@ + all.take(room));
            assert(other@ =~= Seq::<T>::empty());
        }
    }
}

impl<T> ArrayDeque<T, Wrapping> {
    /// Adds an element to the front of the deque.
    ///
    /// Returns `None` if the deque still has capacity, or the evicted
    /// backmost element if the deque is full.
    pub fn push_front(&mut self, element: T) -> (r: Option<T>)
        requires
            old(self).wf(),
        ensures
            final(self).wf(),
            final(self).spec_capacity() == old(self).spec_capacity(),
            old(self).spec_capacity() == 0 ==> r == Some(element) && final(self)@ == old(self)@,
            old(self)@.len() < old(self).spec_capacity() ==> r is None && final(self)@ == seq![
                element,
            ] + old(self)@,
            0 < old(self).spec_capacity() == old(self)@.len() ==> r == Some(old(self)@.last())
                && final(self)@ == seq![element] + old(self)@.drop_last(),
    {
        let existing = if self.is_full() {
            if self.capacity() == 0 {
                return Some(element);
            } else {
                self.pop_back()
            }
        } else {
            None
        };
        self.push_front_unchecked(element);
        existing
    }

    /// Appends an element to the back of the deque.
    ///
    /// Returns `None` if the deque still has capacity, or the evicted
    /// frontmost element if the deque is full.
    pub fn push_back(&mut self, element: T) -> (r: Option<T>)
        requires
            old(self).wf(),
        ensures
            final(self).wf(),
            final(self).spec_capacity() == old(self).spec_capacity(),
            old(self).spec_capacity() == 0 ==> r == Some(element) && final(self)@ == old(self)@,
            old(self)@.len() < old(self).spec_capacity() ==> r is None && final(self)@ == old(
                self,
            )@.push(element),
            0 < old(self).spec_capacity() == old(self)@.len() ==> r == Some(old(self)@[0])
                && final(self)@ == old(self)@.skip(1).push(element),
    {
        let existing = if self.is_full() {
            if self.capacity() == 0 {
                return Some(element);
            } else {
                self.pop_front()
            }
        } else {
            None
        };
        self.push_back_unchecked(element);
        existing
    }

    /// Extends the deque from the front with the contents of `items`,
    /// first element pushed first, evicting backmost elements as needed.
    #[verifier::rlimit(100)]
    #[verifier::spinoff_prover]
    #[verifier::loop_isolation(false)]
    pub fn extend_front(&mut self, items: Vec<T>)
        requires
            old(self).wf(),
        ensures
            final(self).wf(),
            final(self).spec_capacity() == old(self).spec_capacity(),
            old(self).spec_capacity() == 0 ==> final(self)@ == old(self)@,
            old(self).spec_capacity() > 0 ==> final(self)@ == (items@.reverse() + old(self)@).take(
                if items@.len() + old(self)@.len() <= old(self).spec_capacity() {
                    items@.len() + old(self)@.len() as int
                } else {
                    old(self).spec_capacity()
                },
            ),
    {
        let mut items = items;
        let n = items.len();
        let ghost all = items@;
        let ghost cap = old(self).spec_capacity();
        let mut i: usize = 0;
        while items.len() > 0
            invariant
                self.wf(),
                self.spec_capacity() == old(self).spec_capacity(),
                all.len() == n,
                i + items@.len() == all.len(),
                items@ == all.skip(i as int),
                cap == 0 ==> self@ == old(self)@,
                cap > 0 ==> self@ == (all.take(i as int).reverse() + old(self)@).take(
                    if i + old(self)@.len() <= cap {
                        i + old(self)@.len() as int
                    } else {
                        cap
                    },
                ),
            decreases items@.len(),
        {
            let x = items.remove(0);
            self.push_front(x);
            proof {
                if cap > 0 {
                    assert(all.take(i + 1).reverse() =~= seq![all[i as int]] + all.take(
                        i as int,
                    ).reverse());
                    assert(self@ =~= (all.take(i + 1).reverse() + old(self)@).take(
                        if i + 1 + old(self)@.len() <= cap {
                            i + 1 + old(self)@.len() as int
                        } else {
                            cap
                        },
                    ));
                }
            }
            i = i + 1;
        }
        proof {
            assert(all.take(all.len() as int) =~= all);
        }
    }

    /// Extends the deque from the back with the contents of `items`, in
    /// order, evicting frontmost elements as needed.
    #[verifier::rlimit(100)]
    #[verifier::spinoff_prover]
    #[verifier::loop_isolation(false)]
    pub fn extend_back(&mut self, items: Vec<T>)
        requires
            old(self).wf(),
        ensures
            final(self).wf(),
            final(self).spec_capacity() == old(self).spec_capacity(),
            old(self).spec_capacity() == 0 ==> final(self)@ == old(self)@,
            old(self).spec_capacity() > 0 ==> final(self)@ == (old(self)@ + items@).skip(
                if items@.len() + old(self)@.len() <= old(self).spec_capacity() {
                    0
                } else {
                    old(self)@.len() + items@.len() - old(self).spec_capacity()
                },
            ),
    {
        let mut items = items;
        let n = items.len();
        let ghost all = items@;
        let ghost cap = old(self).spec_capacity();
        let mut i: usize = 0;
        while items.len() > 0
            invariant
                self.wf(),
                self.spec_capacity() == old(self).spec_capacity(),
                all.len() == n,
                i + items@.len() == all.len(),
                items@ == all.skip(i as int),
                cap == 0 ==> self@ == old(self)@,
                cap > 0 ==> self@ == (old(self)@ + all.take(i as int)).skip(
                    if i + old(self)@.len() <= cap {
                        0
                    } else {
                        old(self)@.len() + i - cap
                    },
                ),
            decreases items@.len(),
        {
            let x = items.remove(0);
            self.push_back(x);
            proof {
                if cap > 0 {
                    assert(old(self)@ + all.take(i + 1) =~= (old(self)@ + all.take(i as int)).push(
                        all[i as int],
                    ));
                    assert(self@ =~= (old(self)@ + all.take(i + 1)).skip(
                        if i + 1 + old(self)@.len() <= cap {
                            0
                        } else {
                            old(self)@.len() + i + 1 - cap
                        },
                    ));
                }
            }
            i = i + 1;
        }
        proof {
            assert(all.take(all.len() as int) =~= all);
        }
    }

    /// Builds a deque of the given capacity from the elements of `items`:
    /// the last elements, up to capacity, are kept in order.
    pub fn from_iter(items: Vec<T>, capacity: usize) -> (r: Self)
        ensures
            r.wf(),
            r.spec_capacity() == capacity,
            capacity == 0 ==> r@ == Seq::<T>::empty(),
            capacity > 0 ==> r@ == items@.skip(
                if items@.len() <= capacity {
                    0
                } else {
                    items@.len() - capacity
                },
            ),
    {
        let mut r: ArrayDeque<T, Wrapping> = ArrayDeque::new(capacity);
        r.extend_back(items);
        proof {
            if capacity > 0 {
                assert((Seq::<T>::empty() + items@) =~= items@);
            }
        }
        r
    }
}

} // verus!
