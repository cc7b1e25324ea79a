use crate::iter::RingIter;
use crate::iter::RingIterMut;
use vstd::arithmetic::div_mod::lemma_mod_add_multiples_vanish;
use vstd::arithmetic::div_mod::lemma_mod_bound;
use vstd::arithmetic::div_mod::lemma_mod_multiples_basic;
use vstd::arithmetic::div_mod::lemma_small_mod;
use vstd::prelude::*;

verus! {

/// Relies on `Vec::into_boxed_slice`: the boxed slice holds exactly the
/// vector's elements, in order.
#[verifier::external_body]
fn vec_into_boxed_slice<T>(v: Vec<T>) -> (b: Box<[T]>)
    ensures
        b@ == v@,
{
    v.into_boxed_slice()
}

/// A ring buffer for arbitrary but default-initializable data.
///
/// The ring buffer is always "full", but may only contain "default"
/// representations of the given type if nothing else has been inserted.
/// There is no concept of removing elements, only overwriting them with
/// the default. Gaps or non-existent elements can be represented by
/// having an element type `Option<T>`.
///
/// One implication of the above is that iteration will always yield as
/// many elements as the ring buffer's size.
///
/// Indexing into the ring buffer works in such a way that an index of
/// `0` always accesses the front element and an index of
/// `self.len() - 1` the back one. Furthermore, indexes wrap around at
/// the ring buffer's end, meaning that an index of value `self.len()`
/// would access the front element as well.
///
/// The buffer's abstract value (its view, written `buf@`) is the
/// sequence of its elements in logical order: the front first, the
/// back last.
#[derive(Clone, Debug, Eq, PartialEq)]
pub struct RingBuf<T> {
    /// Our actual data.
    data: Vec<T>,
    /// The index of the front element.
    front: usize,
}

impl<T> View for RingBuf<T> {
    type V = Seq<T>;

    closed spec fn view(&self) -> Seq<T> {
        self.data@.subrange(self.front as int, self.data@.len() as int) + self.data@.subrange(
            0,
            self.front as int,
        )
    }
}

/// The buffer's logical contents are exactly as long as its backing
/// storage.
broadcast proof fn lemma_view_len<T>(buf: RingBuf<T>)
    requires
        buf.front <= buf.data@.len(),
    ensures
        #[trigger] buf@.len() == buf.data@.len(),
{
}

/// The element of logical index `i` lives in the physical slot
/// `buf.slot_of(i)`.
broadcast proof fn lemma_view_index<T>(buf: RingBuf<T>, i: int)
    requires
        buf.front <= buf.data@.len(),
        0 <= i < buf.data@.len(),
    ensures
        0 <= buf.slot_of(i) < buf.data@.len(),
        #[trigger] buf@[i] == buf.data@[buf.slot_of(i)],
{
}

/// The contents of a buffer after a push to the front: the new element
/// becomes the front, every other element moves one logical slot
/// towards the back, and the old back is evicted.
pub open spec fn pushed_front<T>(s: Seq<T>, v: T) -> Seq<T> {
    seq![v] + s.drop_last()
}

/// The contents of a buffer after a push to the back: the new element
/// becomes the back, every other element moves one logical slot
/// towards the front, and the old front is evicted.
pub open spec fn pushed_back<T>(s: Seq<T>, v: T) -> Seq<T> {
    s.drop_first().push(v)
}

/// The contents of a buffer after a pop from the front: every element
/// moves one logical slot towards the front, and the freed back slot
/// holds the replacement value `d`.
pub open spec fn popped_front<T>(s: Seq<T>, d: T) -> Seq<T> {
    s.drop_first().push(d)
}

/// The contents of a buffer after a pop from the back: every element
/// moves one logical slot towards the back, and the freed front slot
/// holds the replacement value `d`.
pub open spec fn popped_back<T>(s: Seq<T>, d: T) -> Seq<T> {
    seq![d] + s.drop_last()
}

/// Pushing at either end of a buffer never changes how many elements
/// it holds, so however many values a buffer has seen, iterating it
/// always finds exactly its length many elements.
pub proof fn lemma_push_preserves_len<T>(s: Seq<T>, v: T)
    requires
        s.len() >= 1,
    ensures
        pushed_front(s, v).len() == s.len(),
        pushed_back(s, v).len() == s.len(),
{
}

/// A push is observed at its own end: after a push to the front the
/// front element is the pushed value, and after a push to the back the
/// back element is.
pub proof fn lemma_push_observed<T>(s: Seq<T>, v: T)
    requires
        s.len() >= 1,
    ensures
        pushed_front(s, v).first() == v,
        pushed_back(s, v).last() == v,
{
}

/// Round trip: a pop from the front right after a push to the front
/// takes out the value just pushed and restores every slot but the
/// last, which holds the replacement value the pop wrote.
pub proof fn lemma_push_front_pop_front<T>(s: Seq<T>, v: T, d: T)
    requires
        s.len() >= 1,
    ensures
        pushed_front(s, v).first() == v,
        popped_front(pushed_front(s, v), d).len() == s.len(),
        forall|i: int| 0 <= i < s.len() - 1 ==> popped_front(pushed_front(s, v), d)[i] == s[i],
        popped_front(pushed_front(s, v), d).last() == d,
{
    assert forall|i: int| 0 <= i < s.len() - 1 implies popped_front(pushed_front(s, v), d)[i]
        == s[i] by {
        assert(pushed_front(s, v)[i + 1] == s[i]);
    }
}

/// Indexing wraps around: in a buffer of length `n`, the logical
/// indexes `i` and `i + n` denote the same element.
pub proof fn lemma_index_wraps<T>(s: Seq<T>, i: int)
    requires
        s.len() >= 1,
        0 <= i,
    ensures
        s[i % (s.len() as int)] == s[(i + s.len()) % (s.len() as int)],
{
    lemma_mod_add_multiples_vanish(i, s.len() as int);
}

impl<T> RingBuf<T> {
    /// Well-formedness: the buffer holds at least one slot and the
    /// front cursor denotes one of its slots.
    pub closed spec fn inv(&self) -> bool {
        &&& self.data@.len() >= 1
        &&& self.front < self.data@.len()
    }

    /// Whether the front element sits at the start of the backing
    /// storage, so that physical and logical order coincide.
    pub closed spec fn contiguous(&self) -> bool {
        self.front == 0
    }

    /// The physical slot that holds the element of logical index `i`.
    closed spec fn slot_of(&self, i: int) -> int {
        if self.front + i < self.data@.len() {
            self.front + i
        } else {
            self.front + i - self.data@.len()
        }
    }

    /// Create a new `RingBuf` with data from a `Vec`.
    ///
    /// Note that the vector's first element is considered the front.
    pub fn from_vec(vec: Vec<T>) -> (buf: RingBuf<T>)
        requires
            vec@.len() >= 1,
        ensures
            buf.inv(),
            buf@ == vec@,
    {
        broadcast use lemma_view_len, lemma_view_index;

        let buf = RingBuf { data: vec, front: 0 };
        proof {
            assert(buf@ =~= buf.data@);
        }
        buf
    }

    /// Rearrange the internal storage of the ring buffer so it is one
    /// contiguous slice, with the front being the first element and the
    /// back the last one.
    pub fn make_contiguous(&mut self) -> (r: &mut [T])
        requires
            old(self).inv(),
        ensures
            r@ == old(self)@,
            final(self)@ =~= final(r)@,
            final(self).contiguous(),
            final(r)@.len() >= 1 ==> final(self).inv(),
    {
        broadcast use lemma_view_len, lemma_view_index;

        let mut rotated = self.data.split_off(self.front);
        rotated.append(&mut self.data);
        self.data = rotated;
        self.front = 0;
        proof {
            assert(self.data@ =~= old(self)@);
            assert(self@ =~= old(self)@);
        }
        self.data.as_mut_slice()
    }

    /// Retrieve the ring buffer's length.
    pub fn len(&self) -> (n: usize)
        requires
            self.inv(),
        ensures
            n == self@.len(),
    {
        broadcast use lemma_view_len;

        self.data.len()
    }

    /// Retrieve the current front element.
    pub fn front(&self) -> (r: &T)
        requires
            self.inv(),
        ensures
            *r == self@[0],
    {
        broadcast use lemma_view_len, lemma_view_index;

        let idx = self.front_idx();
        &self.data[idx]
    }

    /// Retrieve the current front element, mutably.
    pub fn front_mut(&mut self) -> (r: &mut T)
        requires
            old(self).inv(),
        ensures
            *r == old(self)@[0],
            final(self).inv(),
            final(self)@ == old(self)@.update(0, *final(r)),
    {
        proof {
            lemma_small_mod(0, old(self)@.len() as nat);
        }
        self.index_mut(0)
    }

    /// Retrieve the current front index.
    ///
    /// Note that this index only has real relevance when accessing the
    /// underlying storage. In particular, the index returned by this
    /// method should not be confused with the logical indexes taken by
    /// `index` and `index_mut`.
    fn front_idx(&self) -> (i: usize)
        ensures
            i == self.front,
    {
        self.front
    }

    /// Retrieve the current back element.
    pub fn back(&self) -> (r: &T)
        requires
            self.inv(),
        ensures
            *r == self@[self@.len() - 1],
    {
        broadcast use lemma_view_len, lemma_view_index;

        let idx = self.back_idx();
        &self.data[idx]
    }

    /// Retrieve the current back element, mutably.
    pub fn back_mut(&mut self) -> (r: &mut T)
        requires
            old(self).inv(),
        ensures
            *r == old(self)@[old(self)@.len() - 1],
            final(self).inv(),
            final(self)@ == old(self)@.update(old(self)@.len() - 1, *final(r)),
    {
        let last = self.data.len() - 1;
        proof {
            lemma_small_mod(last as nat, old(self)@.len() as nat);
        }
        self.index_mut(last)
    }

    /// Retrieve the current back index.
    ///
    /// Note that this index only has real relevance when accessing the
    /// underlying storage. In particular, the index returned by this
    /// method should not be confused with the logical indexes taken by
    /// `index` and `index_mut`.
    fn back_idx(&self) -> (i: usize)
        requires
            self.inv(),
        ensures
            i == if self.front == 0 {
                self.data@.len() - 1
            } else {
                self.front - 1
            },
    {
        if self.front == 0 {
            self.data.len() - 1
        } else {
            self.front - 1
        }
    }

    /// Push an element to the front of the ring buffer.
    ///
    /// This operation will push a new element before the current front
    /// into the ring buffer and make it the new front.
    ///
    /// Given the fixed-size and cyclic nature of the ring buffer, a
    /// push to the front entails a replacement of the back element.
    pub fn push_front(&mut self, elem: T)
        requires
            old(self).inv(),
        ensures
            final(self).inv(),
            final(self)@.len() == old(self)@.len(),
            final(self)@ =~= pushed_front(old(self)@, elem),
    {
        broadcast use lemma_view_len, lemma_view_index;

        let idx = self.back_idx();
        self.data[idx] = elem;
        self.front = idx;
    }

    /// Push an element to the back of the ring buffer.
    ///
    /// This operation will push a new element after the current back
    /// into the ring buffer and make it the new back.
    ///
    /// Given the fixed-size and cyclic nature of the ring buffer, a
    /// push to the back entails a replacement of the front element.
    pub fn push_back(&mut self, elem: T)
        requires
            old(self).inv(),
        ensures
            final(self).inv(),
            final(self)@.len() == old(self)@.len(),
            final(self)@ =~= pushed_back(old(self)@, elem),
    {
        broadcast use lemma_view_len, lemma_view_index;

        let len = self.data.len();
        let idx = self.front_idx();
        self.data[idx] = elem;
        proof {
            if idx + 1 < len {
                lemma_small_mod((idx + 1) as nat, len as nat);
            } else {
                lemma_mod_multiples_basic(1, len as int);
            }
        }
        self.front = (self.front + 1) % len;
    }

    /// Retrieve an iterator over the elements of the ring buffer.
    ///
    /// The iterator traverses the ring buffer in front-to-back manner.
    pub fn iter(&self) -> (it: RingIter<'_, T>)
        requires
            self.inv(),
        ensures
            it.inv(),
            it.elts() == self@,
            it.remaining() == self@,
    {
        RingIter::new(self)
    }

    /// Retrieve a mutating iterator over the elements of the ring
    /// buffer.
    ///
    /// The iterator traverses the ring buffer in front-to-back manner.
    /// It holds no borrow: each step takes the buffer anew, and this
    /// method leaves the buffer untouched.
    ///
    /// Mutable iteration is not supported on ring buffers over zero
    /// sized types.
    pub fn iter_mut(&mut self) -> (it: RingIterMut<T>)
        requires
            old(self).inv(),
            vstd::layout::size_of::<T>() != 0,
        ensures
            *final(self) == *old(self),
            it.fits(old(self)@.len()),
            it.pos() == 0,
            it.pos_back() == old(self)@.len(),
            it.remaining_of(old(self)@) == old(self)@,
    {
        RingIterMut::new(self)
    }

    /// Retrieve the logical `idx`-th element of the ring buffer.
    ///
    /// An index of `0` accesses the front element; indexes wrap around
    /// at the ring buffer's end, so an index of `self.len()` accesses
    /// the front element as well.
    pub fn index(&self, idx: usize) -> (r: &T)
        requires
            self.inv(),
        ensures
            *r == self@[(idx as int) % (self@.len() as int)],
    {
        broadcast use lemma_view_len, lemma_view_index;

        let n = self.data.len();
        let m = idx % n;
        let i = if m < n - self.front_idx() {
            self.front_idx() + m
        } else {
            m - (n - self.front_idx())
        };
        proof {
            lemma_mod_bound(idx as int, n as int);
            assert(i == self.slot_of(m as int));
        }
        &self.data[i]
    }

    /// Retrieve the logical `idx`-th element of the ring buffer,
    /// mutably.
    ///
    /// An index of `0` accesses the front element; indexes wrap around
    /// at the ring buffer's end, so an index of `self.len()` accesses
    /// the front element as well.
    pub fn index_mut(&mut self, idx: usize) -> (r: &mut T)
        requires
            old(self).inv(),
        ensures
            *r == old(self)@[(idx as int) % (old(self)@.len() as int)],
            final(self).inv(),
            final(self)@ =~= old(self)@.update(
                (idx as int) % (old(self)@.len() as int),
                *final(r),
            ),
    {
        broadcast use lemma_view_len, lemma_view_index;

        let n = self.data.len();
        let m = idx % n;
        let i = if m < n - self.front_idx() {
            self.front_idx() + m
        } else {
            m - (n - self.front_idx())
        };
        proof {
            lemma_mod_bound(idx as int, n as int);
            assert(i == self.slot_of(m as int));
        }
        &mut self.data[i]
    }
}

impl<T> RingBuf<T> where T: Default {
    /// Create a new `RingBuf` of a fixed length as provided.
    ///
    /// Every slot of the new buffer holds the default value of `T`.
    pub fn new(len: usize) -> (buf: RingBuf<T>)
        requires
            len >= 1,
        ensures
            buf.inv(),
            buf@.len() == len,
            forall|i: int| 0 <= i < len ==> call_ensures(T::default, (), #[trigger] buf@[i]),
    {
        let mut vec: Vec<T> = Vec::with_capacity(len);
        while vec.len() < len
            invariant
                vec@.len() <= len,
                forall|i: int|
                    0 <= i < vec@.len() ==> call_ensures(T::default, (), #[trigger] vec@[i]),
            decreases len - vec@.len(),
        {
            vec.push(T::default());
        }
        RingBuf::from_vec(vec)
    }

    /// Pop the front element from the ring buffer.
    ///
    /// This operation will remove the ring buffer's front element and
    /// replace it with the default value of `T`. The element after the
    /// current front will become the new front.
    pub fn pop_front(&mut self) -> (r: T)
        requires
            old(self).inv(),
        ensures
            final(self).inv(),
            r == old(self)@.first(),
            final(self)@.len() == old(self)@.len(),
            final(self)@ =~= popped_front(old(self)@, final(self)@.last()),
            call_ensures(T::default, (), final(self)@.last()),
    {
        broadcast use lemma_view_len, lemma_view_index;

        let len = self.data.len();
        let idx = self.front_idx();
        proof {
            if idx + 1 < len {
                lemma_small_mod((idx + 1) as nat, len as nat);
            } else {
                lemma_mod_multiples_basic(1, len as int);
            }
        }
        self.front = (idx + 1) % len;
        let mut value = T::default();
        core::mem::swap(&mut value, &mut self.data[idx]);
        value
    }

    /// Pop the back element from the ring buffer.
    ///
    /// This operation will remove the ring buffer's back element and
    /// replace it with the default value of `T`. The element before the
    /// current back will become the new back.
    pub fn pop_back(&mut self) -> (r: T)
        requires
            old(self).inv(),
        ensures
            final(self).inv(),
            r == old(self)@.last(),
            final(self)@.len() == old(self)@.len(),
            final(self)@ =~= popped_back(old(self)@, final(self)@.first()),
            call_ensures(T::default, (), final(self)@.first()),
    {
        broadcast use lemma_view_len, lemma_view_index;

        let idx = self.back_idx();
        self.front = idx;
        let mut value = T::default();
        core::mem::swap(&mut value, &mut self.data[idx]);
        value
    }

    /// Convert the `RingBuf` into a boxed slice of its contents.
    ///
    /// The slice's first element will represent the (former) ring
    /// buffer's front, its last element the buffer's back.
    pub fn into_boxed_slice(self) -> (b: Box<[T]>)
        requires
            self.inv(),
        ensures
            b@ == self@,
    {
        broadcast use lemma_view_len, lemma_view_index;

        let mut this = self;
        let _data = this.make_contiguous();
        proof {
            assert(this@ =~= this.data@);
        }
        vec_into_boxed_slice(this.data)
    }
}

} // verus!
