use crate::ring::RingBuf;
use core::marker::PhantomData;
use vstd::arithmetic::div_mod::lemma_small_mod;
use vstd::prelude::*;

verus! {

/// The elements yielded by stepping an iterator forward until it is
/// exhausted: every forward step yields the first remaining element
/// and drops it from the remainder.
pub open spec fn collect_forward<T>(r: Seq<T>) -> Seq<T>
    decreases r.len(),
{
    if r.len() == 0 {
        Seq::empty()
    } else {
        seq![r.first()] + collect_forward(r.drop_first())
    }
}

/// The elements yielded by stepping an iterator backward until it is
/// exhausted: every backward step yields the last remaining element
/// and drops it from the remainder.
pub open spec fn collect_backward<T>(r: Seq<T>) -> Seq<T>
    decreases r.len(),
{
    if r.len() == 0 {
        Seq::empty()
    } else {
        seq![r.last()] + collect_backward(r.drop_last())
    }
}

/// Forward traversal yields exactly the remaining elements, front to
/// back: an iterator over a whole buffer yields the buffer's contents
/// in logical order.
pub proof fn lemma_collect_forward<T>(r: Seq<T>)
    ensures
        collect_forward(r) == r,
    decreases r.len(),
{
    if r.len() == 0 {
        assert(collect_forward(r) =~= r);
    } else {
        lemma_collect_forward(r.drop_first());
        assert(collect_forward(r) =~= r);
    }
}

/// Forward and backward traversal are mirror images: stepping backward
/// until exhaustion yields the remaining elements in reverse order,
/// that is, the reverse of what stepping forward yields.
pub proof fn lemma_collect_backward<T>(r: Seq<T>)
    ensures
        collect_backward(r) == r.reverse(),
        collect_backward(r) == collect_forward(r).reverse(),
    decreases r.len(),
{
    lemma_collect_forward(r);
    if r.len() == 0 {
        assert(collect_backward(r) =~= r.reverse());
    } else {
        lemma_collect_backward(r.drop_last());
        assert(collect_backward(r) =~= r.reverse());
    }
}

/// Traversal from both ends: whatever the split point, the elements a
/// traversal takes forward before it, followed by the reverse of those
/// it takes backward behind it, make up the whole remainder.
pub proof fn lemma_collect_split<T>(r: Seq<T>, k: int)
    requires
        0 <= k <= r.len(),
    ensures
        collect_forward(r.take(k)) + collect_backward(r.skip(k)).reverse() == r,
{
    lemma_collect_forward(r.take(k));
    lemma_collect_backward(r.skip(k));
    assert(r.take(k) + r.skip(k).reverse().reverse() =~= r);
}

/// The logical indexes a traversal hands out, for any interleaving of
/// forward steps (`true`) and backward steps (`false`) over the range
/// of indexes `a..b`: a forward step yields the low end and raises it,
/// a backward step yields one below the high end and lowers it, and
/// steps on an exhausted range yield nothing.
pub open spec fn yielded_indexes(steps: Seq<bool>, a: int, b: int) -> Seq<int>
    decreases steps.len(),
{
    if steps.len() == 0 || a >= b {
        Seq::empty()
    } else if steps.first() {
        seq![a] + yielded_indexes(steps.drop_first(), a + 1, b)
    } else {
        seq![b - 1] + yielded_indexes(steps.drop_first(), a, b - 1)
    }
}

/// Exclusivity: however forward and backward steps are interleaved, a
/// traversal never hands out the same index twice, and every index it
/// hands out lies in the range it started from. This is what lets the
/// mutable iterator yield exclusive references from both ends of one
/// backing store.
pub proof fn lemma_traversal_exclusive(steps: Seq<bool>, a: int, b: int)
    ensures
        forall|i: int|
            0 <= i < yielded_indexes(steps, a, b).len() ==> a <= #[trigger] yielded_indexes(
                steps,
                a,
                b,
            )[i] < b,
        forall|i: int, j: int|
            0 <= i < j < yielded_indexes(steps, a, b).len() ==> yielded_indexes(steps, a, b)[i]
                != yielded_indexes(steps, a, b)[j],
    decreases steps.len(),
{
    let ys = yielded_indexes(steps, a, b);
    if steps.len() == 0 || a >= b {
    } else if steps.first() {
        lemma_traversal_exclusive(steps.drop_first(), a + 1, b);
        let rest = yielded_indexes(steps.drop_first(), a + 1, b);
        assert forall|i: int| 0 <= i < ys.len() implies a <= #[trigger] ys[i] < b by {
            if i > 0 {
                assert(ys[i] == rest[i - 1]);
            }
        }
        assert forall|i: int, j: int| 0 <= i < j < ys.len() implies ys[i] != ys[j] by {
            assert(ys[j] == rest[j - 1]);
            if i > 0 {
                assert(ys[i] == rest[i - 1]);
            }
        }
    } else {
        lemma_traversal_exclusive(steps.drop_first(), a, b - 1);
        let rest = yielded_indexes(steps.drop_first(), a, b - 1);
        assert forall|i: int| 0 <= i < ys.len() implies a <= #[trigger] ys[i] < b by {
            if i > 0 {
                assert(ys[i] == rest[i - 1]);
            }
        }
        assert forall|i: int, j: int| 0 <= i < j < ys.len() implies ys[i] != ys[j] by {
            assert(ys[j] == rest[j - 1]);
            if i > 0 {
                assert(ys[i] == rest[i - 1]);
            }
        }
    }
}

/// An iterator over the elements of a `RingBuf`.
///
/// Iteration happens front-to-back, unless stepped from the back. Both
/// cursors live in the logical index space of the buffer: `next` is
/// the index of the next element to yield in forward direction,
/// `next_back` the index one past the next element to yield in
/// backward direction. The two converge; the elements still to come
/// are those at the logical indexes in `next..next_back`.
#[derive(Copy, Clone, Debug, Eq, PartialEq)]
pub struct RingIter<'b, T> {
    /// The ring buffer we work with.
    buf: &'b RingBuf<T>,
    /// The index of the next element to yield in forward direction.
    next: usize,
    /// The index of the next element to yield in backward direction.
    next_back: usize,
}

impl<'b, T> RingIter<'b, T> {
    /// The elements of the borrowed ring buffer, in logical order.
    pub closed spec fn elts(&self) -> Seq<T> {
        (*self.buf)@
    }

    /// The elements the iterator has yet to yield, in forward order.
    pub closed spec fn remaining(&self) -> Seq<T> {
        self.elts().subrange(self.next as int, self.next_back as int)
    }

    /// Well-formedness: the buffer is valid and the cursors converge
    /// within it.
    pub closed spec fn inv(&self) -> bool {
        &&& self.buf.inv()
        &&& self.next <= self.next_back <= self.elts().len()
    }

    /// Create a new iterator over the given ring buffer.
    pub(crate) fn new(buf: &'b RingBuf<T>) -> (it: Self)
        requires
            buf.inv(),
        ensures
            it.inv(),
            it.elts() == buf@,
            it.remaining() == buf@,
    {
        let len = buf.len();
        let it = RingIter { buf, next: 0, next_back: len };
        proof {
            assert(it.remaining() =~= buf@);
        }
        it
    }

    /// Yield the next element in forward direction, or `None` once the
    /// two cursors have met. An exhausted iterator stays exhausted.
    pub fn next(&mut self) -> (r: Option<&'b T>)
        requires
            old(self).inv(),
        ensures
            final(self).inv(),
            final(self).elts() == old(self).elts(),
            old(self).remaining().len() == 0 ==> r is None && *final(self) == *old(self),
            old(self).remaining().len() > 0 ==> ({
                &&& r matches Some(x)
                &&& *x == old(self).remaining().first()
                &&& final(self).remaining() =~= old(self).remaining().drop_first()
            }),
    {
        if self.next < self.next_back {
            let idx = self.next;
            self.next = idx + 1;
            proof {
                lemma_small_mod(idx as nat, self.elts().len() as nat);
            }
            Some(self.buf.index(idx))
        } else {
            None
        }
    }

    /// Yield the next element in backward direction, or `None` once
    /// the two cursors have met. An exhausted iterator stays
    /// exhausted.
    pub fn next_back(&mut self) -> (r: Option<&'b T>)
        requires
            old(self).inv(),
        ensures
            final(self).inv(),
            final(self).elts() == old(self).elts(),
            old(self).remaining().len() == 0 ==> r is None && *final(self) == *old(self),
            old(self).remaining().len() > 0 ==> ({
                &&& r matches Some(x)
                &&& *x == old(self).remaining().last()
                &&& final(self).remaining() =~= old(self).remaining().drop_last()
            }),
    {
        if self.next < self.next_back {
            let idx = self.next_back - 1;
            self.next_back = idx;
            proof {
                lemma_small_mod(idx as nat, self.elts().len() as nat);
            }
            Some(self.buf.index(idx))
        } else {
            None
        }
    }

    /// Return the bounds on the remaining length of the iterator.
    ///
    /// The count is exact: both bounds equal the number of elements
    /// still to be yielded.
    pub fn size_hint(&self) -> (r: (usize, Option<usize>))
        requires
            self.inv(),
        ensures
            r.0 == self.remaining().len(),
            r.1 == Some(r.0),
    {
        let len = self.next_back - self.next;
        (len, Some(len))
    }

    /// Return the exact number of elements still to be yielded.
    pub fn len(&self) -> (n: usize)
        requires
            self.inv(),
        ensures
            n == self.remaining().len(),
    {
        self.next_back - self.next
    }
}

/// A mutable iterator over the elements of a `RingBuf`.
///
/// Iteration happens front-to-back, unless stepped from the back.
///
/// The iterator holds no borrow of the buffer; it is a pair of
/// converging cursors, and each step takes the buffer it walks anew.
/// This way every step's contract can say exactly which slot it hands
/// out and how the buffer changes, and the two-ended cursor invariant
/// guarantees that no slot is ever handed out twice over the
/// iterator's lifetime.
#[derive(Debug, Eq, PartialEq)]
pub struct RingIterMut<T> {
    /// The index of the next element to yield in forward direction.
    next: usize,
    /// The index of the next element to yield in backward direction.
    next_back: usize,
    /// Phantom data for our element type.
    _phantom: PhantomData<T>,
}

impl<T> RingIterMut<T> {
    /// The logical index of the next element to yield in forward
    /// direction.
    pub closed spec fn pos(&self) -> int {
        self.next as int
    }

    /// The logical index one past the next element to yield in
    /// backward direction.
    pub closed spec fn pos_back(&self) -> int {
        self.next_back as int
    }

    /// Well-formedness: the cursors converge.
    pub open spec fn wf(&self) -> bool {
        0 <= self.pos() <= self.pos_back()
    }

    /// Whether the cursors denote a range of logical indexes of a
    /// buffer of the given length.
    pub open spec fn fits(&self, len: nat) -> bool {
        self.wf() && self.pos_back() <= len
    }

    /// The elements the iterator has yet to yield from the given
    /// buffer contents, in forward order.
    pub open spec fn remaining_of(&self, s: Seq<T>) -> Seq<T> {
        s.subrange(self.pos(), self.pos_back())
    }

    /// Create a new iterator over the given ring buffer.
    pub(crate) fn new(buf: &RingBuf<T>) -> (it: Self)
        requires
            buf.inv(),
        ensures
            it.fits(buf@.len()),
            it.pos() == 0,
            it.pos_back() == buf@.len(),
            it.remaining_of(buf@) == buf@,
    {
        let len = buf.len();
        let it = RingIterMut { next: 0, next_back: len, _phantom: PhantomData };
        proof {
            assert(it.remaining_of(buf@) =~= buf@);
        }
        it
    }

    /// Yield the next element in forward direction, mutably, or `None`
    /// once the two cursors have met. An exhausted iterator stays
    /// exhausted.
    ///
    /// The buffer finally holds, in the slot the returned reference
    /// denotes, whatever the caller leaves behind in it; every other
    /// slot is untouched.
    pub fn next<'a>(&mut self, buf: &'a mut RingBuf<T>) -> (r: Option<&'a mut T>)
        requires
            old(buf).inv(),
            old(self).fits(old(buf)@.len()),
        ensures
            old(self).pos() == old(self).pos_back() ==> r is None && *final(self) == *old(self)
                && *final(buf) == *old(buf),
            old(self).pos() < old(self).pos_back() ==> ({
                &&& r matches Some(x)
                &&& *x == old(buf)@[old(self).pos()]
                &&& final(self).pos() == old(self).pos() + 1
                &&& final(self).pos_back() == old(self).pos_back()
                &&& final(buf).inv()
                &&& final(buf)@ == old(buf)@.update(old(self).pos(), *final(x))
            }),
    {
        if self.next < self.next_back {
            let idx = self.next;
            self.next = idx + 1;
            proof {
                lemma_small_mod(idx as nat, old(buf)@.len() as nat);
            }
            Some(buf.index_mut(idx))
        } else {
            None
        }
    }

    /// Yield the next element in backward direction, mutably, or
    /// `None` once the two cursors have met. An exhausted iterator
    /// stays exhausted.
    ///
    /// The buffer finally holds, in the slot the returned reference
    /// denotes, whatever the caller leaves behind in it; every other
    /// slot is untouched.
    pub fn next_back<'a>(&mut self, buf: &'a mut RingBuf<T>) -> (r: Option<&'a mut T>)
        requires
            old(buf).inv(),
            old(self).fits(old(buf)@.len()),
        ensures
            old(self).pos() == old(self).pos_back() ==> r is None && *final(self) == *old(self)
                && *final(buf) == *old(buf),
            old(self).pos() < old(self).pos_back() ==> ({
                &&& r matches Some(x)
                &&& *x == old(buf)@[old(self).pos_back() - 1]
                &&& final(self).pos() == old(self).pos()
                &&& final(self).pos_back() == old(self).pos_back() - 1
                &&& final(buf).inv()
                &&& final(buf)@ == old(buf)@.update(old(self).pos_back() - 1, *final(x))
            }),
    {
        if self.next < self.next_back {
            let idx = self.next_back - 1;
            self.next_back = idx;
            proof {
                lemma_small_mod(idx as nat, old(buf)@.len() as nat);
            }
            Some(buf.index_mut(idx))
        } else {
            None
        }
    }

    /// Return the bounds on the remaining length of the iterator.
    ///
    /// The count is exact: both bounds equal the number of elements
    /// still to be yielded.
    pub fn size_hint(&self) -> (r: (usize, Option<usize>))
        requires
            self.wf(),
        ensures
            r.0 == self.pos_back() - self.pos(),
            r.1 == Some(r.0),
    {
        let len = self.next_back - self.next;
        (len, Some(len))
    }

    /// Return the exact number of elements still to be yielded.
    pub fn len(&self) -> (n: usize)
        requires
            self.wf(),
        ensures
            n == self.pos_back() - self.pos(),
    {
        self.next_back - self.next
    }
}

} // verus!
