//! A fixed-capacity ring buffer that is always full, together with
//! double-ended iterators over it.
//!
//! The buffer owns a block of elements whose length is fixed at
//! construction time and never changes. There is no notion of removing
//! an element: popping an end replaces the value there with the element
//! type's default, and pushing at one end overwrites the value at the
//! opposite end. Logical index `0` always denotes the front, indexes
//! wrap around at the buffer's length, and iteration runs front to
//! back unless stepped from the back.

mod iter;
mod ring;

pub use iter::RingIter;
pub use iter::RingIterMut;
pub use ring::RingBuf;
