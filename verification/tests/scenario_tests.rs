//! Further scenarios for the deque: rotations, slice views, drains,
//! splits and insertions at a second set of capacities.

use arraydeque::{ArrayDeque, Behavior, CapacityError, Saturating};
use std::cell::Cell;

fn padded<T: Copy, B: Behavior>(cap: usize, padding: usize, dummy: T) -> ArrayDeque<T, B> {
    let mut d: ArrayDeque<T, B> = ArrayDeque::new(cap);
    for _ in 0..padding {
        d.push_back_unchecked(dummy);
    }
    for _ in 0..padding {
        d.pop_front();
    }
    d
}

#[test]
fn mod_test_simple() {
    let mut tester: ArrayDeque<i32, Saturating> = ArrayDeque::new(7);
    assert_eq!(tester.capacity(), 7);
    assert_eq!(tester.len(), 0);

    let _ = tester.push_back(1);
    let _ = tester.push_back(2);
    let _ = tester.push_back(3);
    let _ = tester.push_back(4);
    assert_eq!(tester.len(), 4);

    assert_eq!(tester.pop_front(), Some(1));
    assert_eq!(tester.pop_front(), Some(2));
    assert_eq!(tester.len(), 2);
    assert_eq!(tester.pop_front(), Some(3));
    assert_eq!(tester.pop_front(), Some(4));
    assert_eq!(tester.pop_front(), None);
}

#[test]
fn mod_test_simple_reversely() {
    let mut tester: ArrayDeque<i32, Saturating> = ArrayDeque::new(7);
    assert_eq!(tester.capacity(), 7);
    assert_eq!(tester.len(), 0);

    let _ = tester.push_front(1);
    let _ = tester.push_front(2);
    let _ = tester.push_front(3);
    let _ = tester.push_front(4);
    assert_eq!(tester.len(), 4);
    assert_eq!(tester.pop_back(), Some(1));
    assert_eq!(tester.pop_back(), Some(2));
    assert_eq!(tester.len(), 2);
    assert_eq!(tester.pop_back(), Some(3));
    assert_eq!(tester.pop_back(), Some(4));
    assert_eq!(tester.pop_back(), None);
}

#[test]
fn test_overflow() {
    let mut tester: ArrayDeque<i32, Saturating> = ArrayDeque::new(2);
    assert_eq!(tester.push_back(1), Ok(()));
    assert_eq!(tester.push_back(2), Ok(()));
    assert_eq!(tester.push_back(3), Err(CapacityError { element: 3 }));
}

#[test]
fn mod_test_pop_empty() {
    let mut tester: ArrayDeque<i32, Saturating> = ArrayDeque::new(2);
    assert_eq!(tester.push_back(1), Ok(()));
    assert_eq!(tester.pop_front(), Some(1));
    assert_eq!(tester.is_empty(), true);
    assert_eq!(tester.len(), 0);
    assert_eq!(tester.pop_front(), None);
}

#[test]
fn mod_test_index() {
    let mut tester: ArrayDeque<i32, Saturating> = ArrayDeque::new(3);
    let _ = tester.push_back(1);
    let _ = tester.push_back(2);
    let _ = tester.push_back(3);
    assert_eq!(*tester.get(0).unwrap(), 1);
    // pop_front 1 <- [2, 3]
    assert_eq!(tester.pop_front(), Some(1));
    assert_eq!(*tester.get(0).unwrap(), 2);
    assert_eq!(tester.len(), 2);
    // push_front 0 -> [0, 2, 3]
    let _ = tester.push_front(0);
    assert_eq!(*tester.get(0).unwrap(), 0);
    // [0, 2] -> 3 pop_back
    assert_eq!(tester.pop_back(), Some(3));
    assert_eq!(*tester.get(1).unwrap(), 2);
}

#[derive(Eq, PartialEq, Debug)]
struct NoCopy<T>(T);

#[test]
fn mod_test_into_iter() {
    {
        let mut tester: ArrayDeque<NoCopy<u8>, Saturating> = ArrayDeque::new(2);
        let _ = tester.push_back(NoCopy(1));
        let _ = tester.push_back(NoCopy(2));
        let mut iter = tester.into_vec().into_iter();
        assert_eq!(iter.size_hint(), (2, Some(2)));
        assert_eq!(iter.next(), Some(NoCopy(1)));
        assert_eq!(iter.next(), Some(NoCopy(2)));
        assert_eq!(iter.next(), None);
        assert_eq!(iter.size_hint(), (0, Some(0)));
    }
    {
        let mut tester: ArrayDeque<NoCopy<u8>, Saturating> = ArrayDeque::new(2);
        let _ = tester.push_back(NoCopy(1));
        let _ = tester.push_back(NoCopy(2));
        tester.pop_front();
        let _ = tester.push_back(NoCopy(3));
        let mut iter = tester.into_vec().into_iter();
        assert_eq!(iter.next(), Some(NoCopy(2)));
        assert_eq!(iter.next(), Some(NoCopy(3)));
        assert_eq!(iter.next(), None);
    }
    {
        let mut tester: ArrayDeque<NoCopy<u8>, Saturating> = ArrayDeque::new(2);
        let _ = tester.push_back(NoCopy(1));
        let _ = tester.push_back(NoCopy(2));
        tester.pop_front();
        let _ = tester.push_back(NoCopy(3));
        tester.pop_front();
        let _ = tester.push_back(NoCopy(4));
        let mut iter = tester.into_vec().into_iter();
        assert_eq!(iter.next(), Some(NoCopy(3)));
        assert_eq!(iter.next(), Some(NoCopy(4)));
        assert_eq!(iter.next(), None);
    }
}

#[test]
fn mod_test_drain() {
    const CAP: usize = 7;

    for padding in 0..CAP {
        for drain_start in 0..CAP {
            for drain_end in drain_start..CAP {
                // deque starts from different tail position
                let mut tester: ArrayDeque<i32, Saturating> = padded(CAP, padding, 0);

                tester.extend_back((0..CAP as i32).collect());

                let mut expected = vec![0, 1, 2, 3, 4, 5, 6];
                let drains: Vec<_> = tester.drain(drain_start, drain_end);
                let expected_drains: Vec<_> =
                    expected.drain(drain_start..drain_end).collect();
                assert_eq!(drains, expected_drains);
                assert_eq!(tester.len(), expected.len());
            }
        }
    }
}

struct Bump<'a>(&'a Cell<i32>);

impl<'a> Drop for Bump<'a> {
    fn drop(&mut self) {
        let n = self.0.get();
        self.0.set(n + 1);
    }
}

#[test]
fn mod_test_drop() {
    let flag = &Cell::new(0);

    {
        let mut tester: ArrayDeque<Bump, Saturating> = ArrayDeque::new(127);
        let _ = tester.push_back(Bump(flag));
        let _ = tester.push_back(Bump(flag));
    }
    assert_eq!(flag.get(), 2);

    // test something with the nullable pointer optimization
    flag.set(0);
    {
        let mut tester: ArrayDeque<Vec<Bump>, Saturating> = ArrayDeque::new(3);
        let _ = tester.push_back(vec![Bump(flag)]);
        let _ = tester.push_back(vec![Bump(flag), Bump(flag)]);
        let _ = tester.push_back(vec![]);
        let _ = tester.push_back(vec![Bump(flag)]);
        assert_eq!(flag.get(), 1);
        drop(tester.pop_back());
        assert_eq!(flag.get(), 1);
        drop(tester.pop_back());
        assert_eq!(flag.get(), 3);
    }
    assert_eq!(flag.get(), 4);
}

#[test]
fn mod_test_as_slice() {
    const CAP: usize = 10;

    for len in 0..CAP - 1 {
        for padding in 0..CAP {
            // deque starts from different tail position
            let mut tester: ArrayDeque<i32, Saturating> = padded(CAP, padding, 0);

            let mut expected: Vec<i32> = vec![];
            tester.extend_back((0..len as i32).collect());
            expected.extend(0..len as i32);

            let split_idx = CAP - padding;
            let (first, second) = tester.as_slices();
            if split_idx < len {
                let (ea, eb) = expected[..].split_at(split_idx);
                assert_eq!((&first[..], &second[..]), (ea, eb));
            } else {
                assert_eq!((&first[..], &second[..]), (&expected[..], &[][..]));
            }
        }
    }
}

#[test]
fn mod_test_partial_equal() {
    const CAP: usize = 10;

    for len in 0..CAP - 1 {
        for padding in 0..CAP {
            // deque starts from different tail position
            let mut tester: ArrayDeque<f64, Saturating> = padded(CAP, padding, 0.0);

            let mut expected: ArrayDeque<f64, Saturating> = ArrayDeque::new(CAP);
            for x in 0..len {
                let _ = tester.push_back(x as f64);
                let _ = expected.push_back(x as f64);
            }
            assert_eq!(tester.to_vec(), expected.to_vec());

            // test negative
            if len > 2 {
                tester.pop_front();
                expected.pop_back();
                assert!(tester.to_vec() != expected.to_vec());
            }
        }
    }
}

#[test]
fn mod_test_fmt() {
    let mut tester: ArrayDeque<i32, Saturating> = ArrayDeque::new(4);
    tester.extend_back((0..4).collect());
    assert_eq!(format!("{:?}", tester.to_vec()), "[0, 1, 2, 3]");
}

#[test]
fn test_from_iterator() {
    let tester: ArrayDeque<i32, Saturating>;
    let mut expected: ArrayDeque<i32, Saturating> = ArrayDeque::new(4);
    tester = ArrayDeque::<i32, Saturating>::from_iter(vec![0, 1, 2, 3], 4);
    expected.extend_back((0..4).collect());
    assert_eq!(tester.to_vec(), expected.to_vec());
}

#[test]
fn test_extend() {
    let mut tester: ArrayDeque<usize, Saturating>;
    tester = ArrayDeque::<usize, Saturating>::from_iter(vec![0, 1, 2, 3], 9);
    tester.extend_back(vec![4, 5, 6, 7]);
    let expected = ArrayDeque::<usize, Saturating>::from_iter((0..8).collect(), 9);
    assert_eq!(tester.to_vec(), expected.to_vec());
}

#[test]
fn mod_test_swap_front_back_remove() {
    fn test(back: bool) {
        const CAP: usize = 15;
        let usable_cap = CAP;
        let final_len = usable_cap / 2;

        for len in 0..final_len {
            let expected: Vec<usize> = if back {
                (0..len).collect()
            } else {
                (0..len).rev().collect()
            };
            for padding in 0..usable_cap {
                let mut tester: ArrayDeque<usize, Saturating> = padded(CAP, padding, 0);
                if back {
                    for i in 0..len * 2 {
                        let _ = tester.push_front(i);
                    }
                    for i in 0..len {
                        assert_eq!(tester.swap_remove_back(i), Some(len * 2 - 1 - i));
                    }
                } else {
                    for i in 0..len * 2 {
                        let _ = tester.push_back(i);
                    }
                    for i in 0..len {
                        let idx = tester.len() - 1 - i;
                        assert_eq!(tester.swap_remove_front(idx), Some(len * 2 - 1 - i));
                    }
                }
                assert!(tester.tail() < CAP);
                assert!(tester.head() < CAP);
                assert_eq!(tester.to_vec(), expected);
            }
        }
    }
    test(true);
    test(false);
}

#[test]
fn mod_test_retain() {
    const CAP: usize = 10;
    for padding in 0..CAP - 1 {
        let mut tester: ArrayDeque<usize, Saturating> = padded(CAP - 1, padding, 0);
        tester.extend_back((0..CAP).collect());
        tester.retain(|x| x % 2 == 0);
        assert_eq!(tester.len(), CAP / 2);
    }
}

#[test]
fn test_append() {
    let mut a = ArrayDeque::<i32, Saturating>::from_iter(vec![1, 2, 3], 15);
    let mut b = ArrayDeque::<i32, Saturating>::from_iter(vec![4, 5, 6], 15);

    // normal append
    a.append(&mut b);
    assert_eq!(a.to_vec(), [1, 2, 3, 4, 5, 6]);
    assert_eq!(b.to_vec(), [] as [i32; 0]);

    // append nothing to something
    a.append(&mut b);
    assert_eq!(a.to_vec(), [1, 2, 3, 4, 5, 6]);
    assert_eq!(b.to_vec(), [] as [i32; 0]);

    // append something to nothing
    b.append(&mut a);
    assert_eq!(b.to_vec(), [1, 2, 3, 4, 5, 6]);
    assert_eq!(a.to_vec(), [] as [i32; 0]);
}

#[test]
fn mod_test_split_off() {
    const CAP: usize = 15;
    for len in 0..CAP + 1 {
        // index to split at
        for at in 0..len + 1 {
            for padding in 0..CAP {
                let expected_self: Vec<usize> = (0..).take(at).collect();
                let expected_other: Vec<usize> = (at..).take(len - at).collect();
                let mut tester: ArrayDeque<usize, Saturating> = padded(CAP, padding, 0);
                for i in 0..len {
                    let _ = tester.push_back(i);
                }
                let result = tester.split_off(at);
                assert!(tester.tail() < CAP);
                assert!(tester.head() < CAP);
                assert!(result.tail() < CAP);
                assert!(result.head() < CAP);
                assert_eq!(tester.to_vec(), expected_self);
                assert_eq!(result.to_vec(), expected_other);
            }
        }
    }
}

#[test]
fn test_insert() {
    const CAP: usize = 15;

    // len is the length *after* insertion
    for len in 1..CAP {
        // 0, 1, 2, .., len - 1
        let expected: Vec<usize> = (0..).take(len).collect();
        for padding in 0..CAP {
            for to_insert in 0..len {
                let mut tester: ArrayDeque<usize, Saturating> = padded(CAP, padding, 0);
                for i in 0..len {
                    if i != to_insert {
                        let _ = tester.push_back(i);
                    }
                }
                let _ = tester.insert(to_insert, to_insert);
                assert!(tester.tail() < CAP);
                assert!(tester.head() < CAP);
                assert_eq!(tester.to_vec(), expected);
            }
        }
    }
}

#[test]
fn mod_test_remove() {
    const CAP: usize = 15;

    // len is the length *after* removal
    for len in 0..CAP - 1 {
        // 0, 1, 2, .., len - 1
        let expected: Vec<usize> = (0..).take(len).collect();
        for padding in 0..CAP {
            for to_remove in 0..len + 1 {
                let mut tester: ArrayDeque<usize, Saturating> = padded(CAP, padding, 0);
                for i in 0..len {
                    if i == to_remove {
                        let _ = tester.push_back(1234);
                    }
                    let _ = tester.push_back(i);
                }
                if to_remove == len {
                    let _ = tester.push_back(1234);
                }
                tester.remove(to_remove);
                assert!(tester.tail() < CAP);
                assert!(tester.head() < CAP);
                assert_eq!(tester.to_vec(), expected);
            }
        }
    }
}

#[test]
fn mod_test_clone() {
    let tester = ArrayDeque::<i32, Saturating>::from_iter((0..16).collect(), 16);
    let cloned = tester.clone();
    assert_eq!(tester.to_vec(), cloned.to_vec())
}
