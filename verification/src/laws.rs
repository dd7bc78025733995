//! Laws of the deque, stated over the logical sequences that the
//! operations' contracts speak of.
//!
//! Each law quantifies over the view of the deque; since the contracts of
//! the operations hold for every well-formed deque, the laws hold for
//! every rotation (`tail` offset) of the backing store.

use vstd::prelude::*;

verus! {

/// The effect of one `push_back` on a saturating deque holding `s` with
/// capacity `cap`: the element is appended when there is room and the
/// contents stay unchanged otherwise, exactly as the `ensures` of
/// `ArrayDeque::<T, Saturating>::push_back` states of the view.
pub open spec fn saturating_back_step<T>(s: Seq<T>, cap: int, x: T) -> Seq<T> {
    if s.len() < cap {
        s.push(x)
    } else {
        s
    }
}

/// The result of pushing each element of `items`, in order, onto the back
/// of a saturating deque holding `s`.
pub open spec fn saturating_push_back_all<T>(s: Seq<T>, cap: int, items: Seq<T>) -> Seq<T>
    decreases items.len(),
{
    if items.len() == 0 {
        s
    } else {
        saturating_push_back_all(saturating_back_step(s, cap, items[0]), cap, items.skip(1))
    }
}

/// The effect of one `push_back` on a wrapping deque holding `s` with
/// capacity `cap`: with room the element is appended; on a full deque the
/// front element is evicted first; with no capacity at all nothing
/// changes.  This is what the `ensures` of
/// `ArrayDeque::<T, Wrapping>::push_back` states of the view.
pub open spec fn wrapping_back_step<T>(s: Seq<T>, cap: int, x: T) -> Seq<T> {
    if cap <= 0 {
        s
    } else if s.len() < cap {
        s.push(x)
    } else {
        s.skip(1).push(x)
    }
}

/// The result of pushing each element of `items`, in order, onto the back
/// of a wrapping deque holding `s`.
pub open spec fn wrapping_push_back_all<T>(s: Seq<T>, cap: int, items: Seq<T>) -> Seq<T>
    decreases items.len(),
{
    if items.len() == 0 {
        s
    } else {
        wrapping_push_back_all(wrapping_back_step(s, cap, items[0]), cap, items.skip(1))
    }
}

/// Saturating pushes keep a prefix: pushing `items` onto the back of a
/// saturating deque holding `s` appends exactly the first elements of
/// `items` that fit within the capacity.
pub proof fn lemma_saturating_push_back_all<T>(s: Seq<T>, cap: int, items: Seq<T>)
    requires
        s.len() <= cap,
    ensures
        saturating_push_back_all(s, cap, items) == s + items.take(
            if items.len() <= cap - s.len() {
                items.len() as int
            } else {
                cap - s.len()
            },
        ),
    decreases items.len(),
{
    if items.len() == 0 {
        assert(saturating_push_back_all(s, cap, items) =~= s + items.take(0));
    } else if s.len() < cap {
        lemma_saturating_push_back_all(s.push(items[0]), cap, items.skip(1));
        let m = if items.skip(1).len() <= cap - s.len() - 1 {
            items.skip(1).len() as int
        } else {
            cap - s.len() - 1
        };
        assert(s.push(items[0]) + items.skip(1).take(m) =~= s + items.take(m + 1));
        assert(saturating_push_back_all(s, cap, items) =~= s + items.take(
            if items.len() <= cap - s.len() {
                items.len() as int
            } else {
                cap - s.len()
            },
        ));
    } else {
        lemma_saturating_push_back_all(s, cap, items.skip(1));
        assert(saturating_push_back_all(s, cap, items) =~= s + items.take(0));
    }
}

/// Order preservation: pushing any sequence of elements that fits within
/// the capacity onto the back of an empty deque yields exactly that
/// sequence, in order.
pub proof fn lemma_push_back_order_preservation<T>(cap: int, items: Seq<T>)
    requires
        items.len() <= cap,
    ensures
        saturating_push_back_all(Seq::<T>::empty(), cap, items) == items,
{
    lemma_saturating_push_back_all(Seq::<T>::empty(), cap, items);
    assert(Seq::<T>::empty() + items.take(items.len() as int) =~= items);
}

/// Capacity ceiling for the saturating policy: pushing any sequence of
/// elements onto the back of an empty saturating deque retains exactly
/// the earliest pushed elements, up to the capacity; every later push is
/// rejected and changes nothing.
pub proof fn lemma_saturating_capacity_ceiling<T>(cap: int, items: Seq<T>)
    requires
        0 <= cap,
    ensures
        saturating_push_back_all(Seq::<T>::empty(), cap, items) == items.take(
            if items.len() <= cap {
                items.len() as int
            } else {
                cap
            },
        ),
{
    lemma_saturating_push_back_all(Seq::<T>::empty(), cap, items);
    assert(Seq::<T>::empty() + items.take(
        if items.len() <= cap {
            items.len() as int
        } else {
            cap
        },
    ) =~= items.take(
        if items.len() <= cap {
            items.len() as int
        } else {
            cap
        },
    ));
}

/// Wrapping pushes keep a suffix: pushing `items` onto the back of a
/// wrapping deque holding `s` yields the last `cap` elements of `s`
/// followed by `items`.
pub proof fn lemma_wrapping_push_back_all<T>(s: Seq<T>, cap: int, items: Seq<T>)
    requires
        0 < cap,
        s.len() <= cap,
    ensures
        wrapping_push_back_all(s, cap, items) == (s + items).skip(
            if s.len() + items.len() <= cap {
                0
            } else {
                s.len() + items.len() - cap
            },
        ),
    decreases items.len(),
{
    if items.len() == 0 {
        assert(wrapping_push_back_all(s, cap, items) =~= (s + items).skip(0));
    } else if s.len() < cap {
        lemma_wrapping_push_back_all(s.push(items[0]), cap, items.skip(1));
        assert(s.push(items[0]) + items.skip(1) =~= s + items);
        assert(wrapping_push_back_all(s, cap, items) =~= (s + items).skip(
            if s.len() + items.len() <= cap {
                0
            } else {
                s.len() + items.len() - cap
            },
        ));
    } else {
        let s1 = s.skip(1).push(items[0]);
        lemma_wrapping_push_back_all(s1, cap, items.skip(1));
        assert(s1 + items.skip(1) =~= (s + items).skip(1));
        let m = if s1.len() + items.skip(1).len() <= cap {
            0
        } else {
            s1.len() + items.skip(1).len() - cap
        };
        assert((s1 + items.skip(1)).skip(m) =~= (s + items).skip(m + 1));
        assert(wrapping_push_back_all(s, cap, items) =~= (s + items).skip(
            if s.len() + items.len() <= cap {
                0
            } else {
                s.len() + items.len() - cap
            },
        ));
    }
}

/// Capacity ceiling for the wrapping policy: pushing at least `cap`
/// elements onto the back of an empty wrapping deque retains exactly the
/// most recent `cap` elements, in order; the oldest ones are evicted.
pub proof fn lemma_wrapping_capacity_ceiling<T>(cap: int, items: Seq<T>)
    requires
        0 < cap <= items.len(),
    ensures
        wrapping_push_back_all(Seq::<T>::empty(), cap, items) == items.skip(items.len() - cap),
{
    lemma_wrapping_push_back_all(Seq::<T>::empty(), cap, items);
    assert((Seq::<T>::empty() + items).skip(items.len() - cap) =~= items.skip(
        items.len() - cap,
    ));
}

/// Round-trip law: inserting `x` at a valid position `i` and then removing
/// the element at `i` yields back `x` and the original sequence.  Together
/// with the contracts of `ArrayDeque::insert` and `ArrayDeque::remove`
/// (which hold for every well-formed deque, hence for every rotation of the
/// backing store) this says that `insert(i, x)` followed by `remove(i)`
/// returns `x` and restores the deque.
pub proof fn lemma_insert_remove_roundtrip<T>(s: Seq<T>, i: int, x: T)
    requires
        0 <= i <= s.len(),
    ensures
        s.insert(i, x)[i] == x,
        s.insert(i, x).remove(i) == s,
{
    assert(s.insert(i, x).remove(i) =~= s);
}

/// Drain completeness: what `drain(a, b)` yields — the elements at the
/// logical positions `[a, b)` — and what it leaves behind recompose the
/// original sequence exactly.
pub proof fn lemma_drain_partition<T>(s: Seq<T>, a: int, b: int)
    requires
        0 <= a <= b <= s.len(),
    ensures
        s.subrange(0, a) + s.subrange(a, b) + s.subrange(b, s.len() as int) == s,
        (s.subrange(0, a) + s.subrange(b, s.len() as int)).len() == s.len() - (b - a),
{
    assert(s.subrange(0, a) + s.subrange(a, b) + s.subrange(b, s.len() as int) =~= s);
}

} // verus!
