use std::collections::VecDeque;
use tinydeque::ArrayDeque;
use tinydeque::{wrap_add, wrap_index, wrap_sub};

#[test]
fn test_index_wrap() {
    assert_eq!(wrap_index(1, 10), 1);
    assert_eq!(wrap_index(13, 10), 3);
    assert_eq!(wrap_index(10, 10), 0);

    assert_eq!(wrap_add(9, 2, 10), 1);
    assert_eq!(wrap_add(5, 2, 10), 7);

    assert_eq!(wrap_sub(1, 6, 10), 5, "subtraction test");
}

#[test]
fn wrap_index_negative_inputs() {
    assert_eq!(wrap_index(-5, 10), 5);
    assert_eq!(wrap_index(-10, 10), 0);
    assert_eq!(wrap_index(-1, 3), 2);
    assert_eq!(wrap_index(0, 7), 0);
}

#[test]
fn capacity_is_the_const_parameter() {
    assert_eq!(ArrayDeque::<&'static str, 8>::capacity(), 8);
    assert_eq!(ArrayDeque::<i32, 0>::capacity(), 0);
}

#[test]
fn new_deque_is_empty() {
    let d: ArrayDeque<i32, 5> = ArrayDeque::new();
    assert_eq!(d.len(), 0);
    assert!(d.is_empty());
    assert!(!d.is_full());
    let d2: ArrayDeque<i32, 5> = Default::default();
    assert!(d2.is_empty());
}

#[test]
fn example_capacity_three() {
    // N = 3: fill it, reject an extra element, then rotate.
    let mut d: ArrayDeque<i32, 3> = ArrayDeque::new();
    d.push_back(1);
    d.push_back(2);
    d.push_back(3);
    assert!(d.is_full());
    assert_eq!(d.try_push_back(4), Err(4));
    assert_eq!(d.len(), 3);
    assert_eq!(d.pop_front(), Some(1));
    assert_eq!(d.len(), 2);
    d.push_front(0);
    assert_eq!(d.len(), 3);
    assert_eq!(d.get(0), Some(&0));
    assert_eq!(d.get(1), Some(&2));
    assert_eq!(d.get(2), Some(&3));
}

#[test]
fn try_push_back_on_full_changes_nothing() {
    let mut d: ArrayDeque<i32, 2> = ArrayDeque::new();
    assert_eq!(d.try_push_back(10), Ok(()));
    assert_eq!(d.try_push_front(5), Ok(()));
    // Full; the rejected element comes back unchanged and the deque keeps
    // its length, order and slice layout.
    let before: (Vec<i32>, Vec<i32>) = {
        let (a, b) = d.as_slices();
        (a.to_vec(), b.to_vec())
    };
    assert_eq!(d.try_push_back(99), Err(99));
    assert_eq!(d.try_push_front(98), Err(98));
    assert_eq!(d.len(), 2);
    let after: (Vec<i32>, Vec<i32>) = {
        let (a, b) = d.as_slices();
        (a.to_vec(), b.to_vec())
    };
    assert_eq!(before, after);
    assert_eq!(d.pop_front(), Some(5));
    assert_eq!(d.pop_front(), Some(10));
}

#[test]
fn interleaving_matches_reference_deque() {
    // A fixed interleaving of pushes and pops at both ends, never exceeding
    // the capacity, tracked against std's VecDeque.
    let mut d: ArrayDeque<i32, 5> = ArrayDeque::new();
    let mut r: VecDeque<i32> = VecDeque::new();
    let mut pushes: usize = 0;
    let mut pops: usize = 0;

    let script: [(u8, i32); 12] = [
        (0, 1),
        (0, 2),
        (1, 3),
        (2, 0),
        (0, 4),
        (1, 5),
        (3, 0),
        (0, 6),
        (0, 7),
        (2, 0),
        (1, 8),
        (3, 0),
    ];
    for (kind, x) in script {
        match kind {
            0 => {
                d.push_back(x);
                r.push_back(x);
                pushes += 1;
            }
            1 => {
                d.push_front(x);
                r.push_front(x);
                pushes += 1;
            }
            2 => {
                assert_eq!(d.pop_back(), r.pop_back());
                pops += 1;
            }
            _ => {
                assert_eq!(d.pop_front(), r.pop_front());
                pops += 1;
            }
        }
        assert_eq!(d.len(), r.len());
        assert_eq!(d.len(), pushes - pops);
        for i in 0..r.len() {
            assert_eq!(d.get(i), Some(&r[i]));
        }
    }
}

#[test]
fn as_slices_contiguous_and_wrapped() {
    // Contiguous: one run, empty second slice.
    let mut d: ArrayDeque<i32, 4> = ArrayDeque::new();
    d.push_back(1);
    d.push_back(2);
    d.push_back(3);
    assert!(d.is_contiguous());
    let (a, b) = d.as_slices();
    assert_eq!(a, &[1, 2, 3]);
    assert_eq!(b, &[] as &[i32]);

    // Wrapped: the run crosses the end of storage.
    let mut d: ArrayDeque<i32, 4> = ArrayDeque::new();
    d.push_back(1);
    d.push_back(2);
    d.push_back(3);
    d.push_back(4);
    assert_eq!(d.pop_front(), Some(1));
    assert_eq!(d.pop_front(), Some(2));
    d.push_back(5);
    d.push_back(6);
    let (a, b) = d.as_slices();
    assert_eq!(a, &[3, 4]);
    assert_eq!(b, &[5, 6]);
    let mut logical: Vec<i32> = a.to_vec();
    logical.extend_from_slice(b);
    assert_eq!(logical, vec![3, 4, 5, 6]);
}

#[test]
fn as_mut_slices_writes_are_visible() {
    let mut d: ArrayDeque<i32, 4> = ArrayDeque::new();
    d.push_back(1);
    d.push_back(2);
    d.push_back(3);
    d.push_back(4);
    d.pop_front();
    d.pop_front();
    d.push_back(5);
    d.push_back(6);
    {
        let (a, b) = d.as_mut_slices();
        a[0] = 30;
        b[1] = 60;
    }
    assert_eq!(d.get(0), Some(&30));
    assert_eq!(d.get(1), Some(&4));
    assert_eq!(d.get(2), Some(&5));
    assert_eq!(d.get(3), Some(&60));
}

#[test]
fn truncate_keeps_the_first_k() {
    let mut d: ArrayDeque<i32, 5> = ArrayDeque::new();
    for x in 1..=5 {
        d.push_back(x);
    }
    d.pop_front();
    d.pop_front();
    d.push_back(6);
    d.push_back(7);
    // Logical contents: [3, 4, 5, 6, 7], wrapped.
    d.truncate(3);
    assert_eq!(d.len(), 3);
    assert_eq!(d.get(0), Some(&3));
    assert_eq!(d.get(1), Some(&4));
    assert_eq!(d.get(2), Some(&5));
    assert_eq!(d.get(3), None);

    // Truncating to the current length or more changes nothing.
    d.truncate(3);
    d.truncate(10);
    assert_eq!(d.len(), 3);
    assert_eq!(d.get(0), Some(&3));

    d.clear();
    assert!(d.is_empty());
    assert_eq!(d.pop_back(), None);
}

#[test]
fn pops_and_lookups_on_empty() {
    let mut d: ArrayDeque<i32, 3> = ArrayDeque::new();
    assert_eq!(d.pop_back(), None);
    assert_eq!(d.pop_front(), None);
    assert_eq!(d.get(0), None);
    assert_eq!(d.front(), None);
    assert_eq!(d.back(), None);
    assert_eq!(d.front_mut(), None);
    assert_eq!(d.back_mut(), None);
}

#[test]
fn zero_capacity_is_empty_and_full() {
    let mut d: ArrayDeque<i32, 0> = ArrayDeque::new();
    assert!(d.is_empty());
    assert!(d.is_full());
    assert_eq!(d.try_push_back(1), Err(1));
    assert_eq!(d.try_push_front(2), Err(2));
    assert_eq!(d.pop_back(), None);
    assert_eq!(d.pop_front(), None);
}

#[test]
fn front_back_and_mutable_access() {
    let mut d: ArrayDeque<i32, 4> = ArrayDeque::new();
    d.push_back(10);
    d.push_back(20);
    d.push_back(30);
    assert_eq!(d.front(), Some(&10));
    assert_eq!(d.back(), Some(&30));
    if let Some(m) = d.front_mut() {
        *m = 11;
    }
    if let Some(m) = d.back_mut() {
        *m = 33;
    }
    if let Some(m) = d.get_mut(1) {
        *m = 22;
    }
    assert_eq!(d.get(0), Some(&11));
    assert_eq!(d.get(1), Some(&22));
    assert_eq!(d.get(2), Some(&33));
    assert_eq!(d.get_mut(3), None);
}

#[test]
fn contains_scans_both_runs() {
    let mut d: ArrayDeque<i32, 4> = ArrayDeque::new();
    d.push_back(1);
    d.push_back(2);
    d.push_back(3);
    d.push_back(4);
    d.pop_front();
    d.pop_front();
    d.push_back(5);
    d.push_back(6);
    // Logical contents: [3, 4, 5, 6], wrapped.
    assert!(d.contains(&3));
    assert!(d.contains(&6));
    assert!(!d.contains(&1));
    assert!(!d.contains(&7));
}

#[test]
fn append_moves_everything_or_nothing() {
    let mut a: ArrayDeque<i32, 5> = ArrayDeque::new();
    let mut b: ArrayDeque<i32, 5> = ArrayDeque::new();
    a.push_back(1);
    a.push_back(2);
    b.push_back(3);
    b.push_back(4);
    assert_eq!(a.append(&mut b), Ok(()));
    assert_eq!(a.len(), 4);
    assert!(b.is_empty());
    for (i, x) in [1, 2, 3, 4].iter().enumerate() {
        assert_eq!(a.get(i), Some(x));
    }

    // Overflow: rejected, both sides untouched.
    let mut c: ArrayDeque<i32, 5> = ArrayDeque::new();
    c.push_back(5);
    c.push_back(6);
    assert_eq!(a.append(&mut c), Err(()));
    assert_eq!(a.len(), 4);
    assert_eq!(c.len(), 2);
    assert_eq!(c.get(0), Some(&5));
}

#[test]
fn iterator_is_double_ended_and_exact() {
    let mut d: ArrayDeque<i32, 4> = ArrayDeque::new();
    d.push_back(1);
    d.push_back(2);
    d.push_back(3);
    let mut it = d.iter();
    assert_eq!(it.size_hint(), (3, Some(3)));
    assert_eq!(it.next(), Some(&1));
    assert_eq!(it.next_back(), Some(&3));
    assert_eq!(it.size_hint(), (1, Some(1)));
    assert_eq!(it.next(), Some(&2));
    assert_eq!(it.size_hint(), (0, Some(0)));
    assert_eq!(it.next(), None);
    assert_eq!(it.next_back(), None);
    // Exhausted iterators never resume.
    assert_eq!(it.next(), None);
}

#[test]
fn clone_copies_the_contents() {
    let mut d: ArrayDeque<i32, 3> = ArrayDeque::new();
    d.push_back(1);
    d.push_back(2);
    let c = d.clone();
    assert_eq!(c.len(), 2);
    assert_eq!(c.get(0), Some(&1));
    assert_eq!(c.get(1), Some(&2));
    d.pop_front();
    assert_eq!(c.len(), 2);
}
