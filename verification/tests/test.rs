//! Integration tests for the `rbuf` crate.

use std::collections::VecDeque;
use std::ops::Deref as _;

use rbuf::RingBuf;

/// Compare a ring buffer's iterator against a `VecDeque`'s, element by
/// element and size hint by size hint, in forward direction.
fn assert_equal_forward(buf: &RingBuf<usize>, expected: &VecDeque<usize>) {
    let mut it_buf = buf.iter();
    let mut it_exp = expected.iter();

    loop {
        let next_buf = it_buf.next();
        let next_exp = it_exp.next();

        if next_buf.is_none() && next_exp.is_none() {
            break;
        }

        assert_eq!(next_buf, next_exp);
        assert_eq!(it_buf.size_hint(), it_exp.size_hint());
        assert_eq!(it_buf.len(), it_exp.len());
    }
}

/// Compare a ring buffer's iterator against a `VecDeque`'s, element by
/// element and size hint by size hint, in backward direction.
fn assert_equal_backward(buf: &RingBuf<usize>, expected: &VecDeque<usize>) {
    let mut it_buf = buf.iter();
    let mut it_exp = expected.iter().rev();

    loop {
        let next_buf = it_buf.next_back();
        let next_exp = it_exp.next();

        if next_buf.is_none() && next_exp.is_none() {
            break;
        }

        assert_eq!(next_buf, next_exp);
        assert_eq!(it_buf.size_hint(), it_exp.size_hint());
        assert_eq!(it_buf.len(), it_exp.len());
    }
}

fn assert_equal(buf: &RingBuf<usize>, expected: &VecDeque<usize>) {
    assert_equal_forward(buf, expected);
    assert_equal_backward(buf, expected);
}

#[test]
fn buf_len() {
    let buf = RingBuf::<usize>::new(13);
    assert_eq!(buf.len(), 13);
}

/// Make sure that we can correctly rearrange the `RingBuf`'s data into
/// a contiguous slice.
#[test]
fn rearrangement() {
    let mut buf = RingBuf::from_vec(vec![1, 2, 3, 4]);
    assert_eq!(buf.make_contiguous(), &[1, 2, 3, 4]);
    assert_eq!(*buf.front(), 1);

    let () = buf.push_front(5);
    assert_eq!(buf.make_contiguous(), &[5, 1, 2, 3]);
    assert_eq!(*buf.front(), 5);

    let () = buf.push_back(6);
    assert_eq!(buf.make_contiguous(), &[1, 2, 3, 6]);
    assert_eq!(*buf.front(), 1);
}

/// Walk a three-element buffer's iterator off either end and check
/// the size hint at every step.
fn check_size_hints(buf: &RingBuf<usize>) {
    let mut it = buf.iter();
    assert_eq!(it.size_hint(), (3, Some(3)));
    let _ = it.next();
    assert_eq!(it.size_hint(), (2, Some(2)));
    let _ = it.next();
    assert_eq!(it.size_hint(), (1, Some(1)));
    let _ = it.next();
    assert_eq!(it.size_hint(), (0, Some(0)));
    let _ = it.next();
    assert_eq!(it.size_hint(), (0, Some(0)));

    let mut it = buf.iter();
    assert_eq!(it.size_hint(), (3, Some(3)));
    let _ = it.next_back();
    assert_eq!(it.size_hint(), (2, Some(2)));
    let _ = it.next_back();
    assert_eq!(it.size_hint(), (1, Some(1)));
    let _ = it.next_back();
    assert_eq!(it.size_hint(), (0, Some(0)));
    let _ = it.next_back();
    assert_eq!(it.size_hint(), (0, Some(0)));
}

/// Check that the provided size hint is correct.
#[test]
fn iter_size_hint() {
    let mut buf = RingBuf::<usize>::new(3);
    check_size_hints(&buf);

    buf.push_front(32);
    check_size_hints(&buf);

    buf.push_front(73);
    check_size_hints(&buf);

    buf.push_front(9);
    check_size_hints(&buf);

    buf.push_front(31);
    check_size_hints(&buf);

    buf.push_back(2);
    check_size_hints(&buf);
}

/// Make sure that `RingBuf` iteration works as it should.
#[test]
fn iter_next() {
    let mut buf = RingBuf::<usize>::new(4);
    let mut deq = VecDeque::from(vec![0, 0, 0, 0]);

    buf.push_front(42);
    deq.push_front(42);
    // A `VecDeque` is not fixed-size so to achieve same semantics as our
    // `RingBuf` we have to pop the back element.
    deq.pop_back();
    assert_equal(&buf, &deq);

    buf.push_front(13);
    deq.push_front(13);
    deq.pop_back();
    assert_equal(&buf, &deq);

    buf.push_front(1);
    deq.push_front(1);
    deq.pop_back();
    assert_equal(&buf, &deq);

    buf.push_front(7);
    deq.push_front(7);
    deq.pop_back();
    assert_equal(&buf, &deq);

    buf.push_front(2);
    deq.push_front(2);
    deq.pop_back();
    assert_equal(&buf, &deq);
}

/// Test that we can mutate elements as we iterate over them.
#[test]
fn mutating_iter() {
    let mut buf = RingBuf::from_vec(vec![1, 2, 3, 4]);
    let mut it = buf.iter_mut();
    while let Some(x) = it.next(&mut buf) {
        *x += 2;
    }

    assert_eq!(buf, RingBuf::from_vec(vec![3, 4, 5, 6]));
}

#[test]
fn double_ended_iter() {
    let buf = RingBuf::from_vec(vec![4, 5, 6, 7, 8]);
    let mut it = buf.iter();

    assert_eq!(it.next_back(), Some(8).as_ref());
    assert_eq!(it.next(), Some(4).as_ref());
    assert_eq!(it.next_back(), Some(7).as_ref());
    assert_eq!(it.next_back(), Some(6).as_ref());
    assert_eq!(it.next(), Some(5).as_ref());
    assert_eq!(it.next(), None);
    assert_eq!(it.next(), None);
    assert_eq!(it.next(), None);
    assert_eq!(it.next(), None);
}

/// Check that push/pop operations on the front of a `RingBuf` work as
/// they should.
#[test]
fn front_ops() {
    let mut buf = RingBuf::<usize>::new(3);

    assert_eq!(*buf.front(), 0);
    assert_eq!(*buf.front_mut(), 0);
    assert_eq!(*buf.back(), 0);
    assert_eq!(*buf.back_mut(), 0);

    buf.push_front(2);
    assert_eq!(*buf.front(), 2);
    assert_eq!(*buf.front_mut(), 2);
    assert_eq!(*buf.back(), 0);
    assert_eq!(*buf.back_mut(), 0);

    buf.push_front(5);
    assert_eq!(*buf.front(), 5);
    assert_eq!(*buf.front_mut(), 5);
    assert_eq!(*buf.back(), 0);
    assert_eq!(*buf.back_mut(), 0);

    buf.push_front(3);
    assert_eq!(*buf.front(), 3);
    assert_eq!(*buf.front_mut(), 3);
    assert_eq!(*buf.back(), 2);
    assert_eq!(*buf.back_mut(), 2);

    buf.push_front(10);
    assert_eq!(*buf.front(), 10);
    assert_eq!(*buf.front_mut(), 10);
    assert_eq!(*buf.back(), 5);
    assert_eq!(*buf.back_mut(), 5);

    let x = buf.pop_front();
    assert_eq!(x, 10);
    assert_eq!(*buf.front(), 3);
    assert_eq!(*buf.front_mut(), 3);
    assert_eq!(*buf.back(), 0);
    assert_eq!(*buf.back_mut(), 0);

    let x = buf.pop_front();
    assert_eq!(x, 3);
    assert_eq!(*buf.front(), 5);
    assert_eq!(*buf.front_mut(), 5);
    assert_eq!(*buf.back(), 0);
    assert_eq!(*buf.back_mut(), 0);
}

/// Make sure that push/pop operations on the back of a `RingBuf` work
/// as expected.
#[test]
fn back_ops() {
    let mut buf = RingBuf::<usize>::new(3);

    let () = buf.push_back(1);
    assert_eq!(*buf.back(), 1);
    assert_eq!(*buf.back_mut(), 1);
    assert_eq!(*buf.front(), 0);
    assert_eq!(*buf.front_mut(), 0);

    let () = buf.push_back(2);
    assert_eq!(*buf.back(), 2);
    assert_eq!(*buf.back_mut(), 2);
    assert_eq!(*buf.front(), 0);
    assert_eq!(*buf.front_mut(), 0);

    let () = buf.push_back(3);
    assert_eq!(*buf.back(), 3);
    assert_eq!(*buf.back_mut(), 3);
    assert_eq!(*buf.front(), 1);
    assert_eq!(*buf.front_mut(), 1);

    let () = buf.push_back(4);
    assert_eq!(*buf.back(), 4);
    assert_eq!(*buf.back_mut(), 4);
    assert_eq!(*buf.front(), 2);
    assert_eq!(*buf.front_mut(), 2);

    let x = buf.pop_back();
    assert_eq!(x, 4);
    assert_eq!(*buf.back(), 3);
    assert_eq!(*buf.back_mut(), 3);
    assert_eq!(*buf.front(), 0);
    assert_eq!(*buf.front_mut(), 0);

    let x = buf.pop_back();
    assert_eq!(x, 3);
    assert_eq!(*buf.back(), 2);
    assert_eq!(*buf.back_mut(), 2);
    assert_eq!(*buf.front(), 0);
    assert_eq!(*buf.front_mut(), 0);

    let x = buf.pop_back();
    assert_eq!(x, 2);
    assert_eq!(*buf.back(), 0);
    assert_eq!(*buf.back_mut(), 0);
    assert_eq!(*buf.front(), 0);
    assert_eq!(*buf.front_mut(), 0);
}

/// Check that we can modify the front and the back of a ring buffer.
#[test]
fn front_back_mut() {
    let mut buf = RingBuf::from_vec(vec![71, 32, 0, 4, 99]);

    *buf.front_mut() = 42;
    assert_eq!(*buf.front(), 42);
    assert_eq!(buf, RingBuf::from_vec(vec![42, 32, 0, 4, 99]));

    *buf.back_mut() = 68;
    assert_eq!(*buf.back(), 68);
    assert_eq!(buf, RingBuf::from_vec(vec![42, 32, 0, 4, 68]));
}

/// Check that we can index into a `RingBuf` as expected and make sure
/// that semantics are comparable to those of `VecDeque`.
#[test]
fn buf_index() {
    let mut buf = RingBuf::from_vec(vec![3, 4, 5, 6]);
    let mut deq = VecDeque::from(vec![3, 4, 5, 6]);

    assert_eq!(*buf.index(0), 3);
    assert_eq!(*buf.index(1), 4);
    assert_eq!(*buf.index(2), 5);
    assert_eq!(*buf.index(3), 6);
    assert_eq!(*buf.index(4), 3);
    assert_eq!(*buf.index(0), deq[0]);
    assert_eq!(*buf.index(1), deq[1]);
    assert_eq!(*buf.index(2), deq[2]);
    assert_eq!(*buf.index(3), deq[3]);

    buf.push_front(8);
    deq.push_front(8);
    deq.pop_back();
    assert_eq!(*buf.index(0), 8);
    assert_eq!(*buf.index(1), 3);
    assert_eq!(*buf.index(2), 4);
    assert_eq!(*buf.index(3), 5);
    assert_eq!(*buf.index(4), 8);
    assert_eq!(*buf.index(0), deq[0]);
    assert_eq!(*buf.index(1), deq[1]);
    assert_eq!(*buf.index(2), deq[2]);
    assert_eq!(*buf.index(3), deq[3]);
}

#[test]
fn from_vec_len() {
    let buf = RingBuf::from_vec(vec![3, 4, 5, 6]);
    assert_eq!(buf.len(), 4);
}

/// Check that we can convert a ring buffer into a boxed slice.
#[test]
fn boxed_slice() {
    let buf = RingBuf::from_vec(vec![3, 4, 5, 6]);
    let slice = buf.into_boxed_slice();
    assert_eq!(slice.deref(), vec![3, 4, 5, 6].as_slice());
}

/// A freshly constructed buffer has the requested length and holds the
/// element type's default value in every slot.
#[test]
fn new_defaults() {
    let buf = RingBuf::<u64>::new(5);
    assert_eq!(buf.len(), 5);

    let mut it = buf.iter();
    let mut count = 0;
    while let Some(x) = it.next() {
        assert_eq!(*x, 0);
        count += 1;
    }
    assert_eq!(count, 5);
}

/// Popping the front right after pushing to the front returns the
/// pushed value and restores every slot but the last, which now holds
/// the default value.
#[test]
fn push_pop_round_trip() {
    let mut buf = RingBuf::from_vec(vec![1, 2, 3]);

    buf.push_front(9);
    let x = buf.pop_front();
    assert_eq!(x, 9);
    assert_eq!(*buf.index(0), 1);
    assert_eq!(*buf.index(1), 2);
    assert_eq!(*buf.index(2), 0);
}

/// Indexes wrap around the buffer's length: `index(i)` and
/// `index(i + len)` denote the same element.
#[test]
fn index_wraps() {
    let mut buf = RingBuf::from_vec(vec![7, 8, 9]);
    buf.push_front(6);

    for i in 0..6usize {
        assert_eq!(buf.index(i), buf.index(i + 3));
    }
}

/// Forward and backward traversal are mirror images of one another,
/// and whatever the split point, taking elements from the front and
/// then the rest from the back reconstructs the buffer.
#[test]
fn iter_mirror() {
    let buf = RingBuf::from_vec(vec![10, 20, 30, 40]);

    let mut forward = Vec::new();
    let mut it = buf.iter();
    while let Some(x) = it.next() {
        forward.push(*x);
    }

    let mut backward = Vec::new();
    let mut it = buf.iter();
    while let Some(x) = it.next_back() {
        backward.push(*x);
    }

    let mut mirrored = forward.clone();
    mirrored.reverse();
    assert_eq!(mirrored, backward);

    for split in 0..=4 {
        let mut it = buf.iter();
        let mut head = Vec::new();
        for _ in 0..split {
            head.push(*it.next().unwrap());
        }
        let mut tail = Vec::new();
        while let Some(x) = it.next_back() {
            tail.push(*x);
        }
        tail.reverse();
        head.extend(tail);
        assert_eq!(head, forward);
    }
}

/// The mutable iterator steps both ends, never hands out a slot twice,
/// and reports exact counts.
#[test]
fn mutable_iter_both_ends() {
    let mut buf = RingBuf::from_vec(vec![1, 2, 3, 4, 5]);
    let mut it = buf.iter_mut();

    assert_eq!(it.size_hint(), (5, Some(5)));
    *it.next(&mut buf).unwrap() += 10;
    assert_eq!(it.len(), 4);
    *it.next_back(&mut buf).unwrap() += 100;
    assert_eq!(it.len(), 3);
    *it.next(&mut buf).unwrap() += 10;
    *it.next_back(&mut buf).unwrap() += 100;
    *it.next(&mut buf).unwrap() += 1000;
    assert_eq!(it.size_hint(), (0, Some(0)));
    assert!(it.next(&mut buf).is_none());
    assert!(it.next_back(&mut buf).is_none());

    assert_eq!(buf, RingBuf::from_vec(vec![11, 12, 1003, 104, 105]));
}

/// A buffer of a single slot: both ends coincide, pushes overwrite the
/// one slot, and every index denotes it.
#[test]
fn single_slot() {
    let mut buf = RingBuf::<u64>::new(1);
    assert_eq!(*buf.front(), 0);
    assert_eq!(*buf.back(), 0);

    buf.push_front(5);
    assert_eq!(*buf.front(), 5);
    assert_eq!(*buf.back(), 5);

    buf.push_back(7);
    assert_eq!(*buf.front(), 7);
    assert_eq!(*buf.back(), 7);

    let x = buf.pop_front();
    assert_eq!(x, 7);
    assert_eq!(*buf.front(), 0);
    assert_eq!(*buf.index(0), 0);
    assert_eq!(*buf.index(1), 0);
}
