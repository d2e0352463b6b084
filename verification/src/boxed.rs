//! A smart pointer for values allocated in an [`Arena`](crate::Arena).
//!
//! A [`Box<T>`](self::Box) owns one arena-resident value: the bytes of the
//! allocation are accounted by the arena's model, and the value itself lives
//! in the box, whose address method says where the arena placed it.  Dropping
//! the box runs the value's destructor; the arena's memory is reclaimed only
//! by frames, restores and resets.

use vstd::prelude::*;

use crate::bump::Bump;
use crate::layout::Layout;
use crate::raw_arena::CHUNK_ALIGNMENT;

verus! {

/// Typed storage that may not hold a value yet, as storage fresh from the
/// allocator is: writing a value turns the slot's box into a box of the
/// value at the same address.
#[derive(Debug, Clone, Copy)]
pub enum Slot<T> {
    /// No value has been written yet.
    Empty,
    /// A value is in place.
    Full(T),
}

/// Owns a value stored in an arena and runs its destructor when dropped; the
/// arena keeps the backing bytes until a frame boundary, restore or reset
/// reclaims them.
#[derive(Debug)]
pub struct Box<T> {
    value: T,
    ptr: usize,
}

impl<T> Box<T> {
    /// The owned value.
    pub closed spec fn inner(self) -> T {
        self.value
    }

    /// The arena address of the allocation backing the value.
    pub closed spec fn addr(self) -> int {
        self.ptr as int
    }

    /// Wraps a value that was just placed at `ptr`.
    pub(crate) fn make(value: T, ptr: usize) -> (r: Self)
        ensures
            r.inner() == value,
            r.addr() == ptr,
    {
        Box { value, ptr }
    }

    /// Allocates memory in the arena and moves `value` into it.
    pub fn new<A: Bump>(value: T, allocator: &mut A) -> (r: Self)
        requires
            old(allocator)@.wf(),
            vstd::layout::align_of::<T>() <= CHUNK_ALIGNMENT,
            old(allocator)@.can_alloc(
                vstd::layout::size_of::<T>() as int,
                vstd::layout::align_of::<T>() as int,
            ),
        ensures
            final(allocator)@ == old(allocator)@.spec_alloc(
                vstd::layout::size_of::<T>() as int,
                vstd::layout::align_of::<T>() as int,
            ).0,
            final(allocator)@.wf(),
            final(allocator)@.extends(old(allocator)@),
            r.inner() == value,
            Some(r.addr()) == old(allocator)@.spec_alloc(
                vstd::layout::size_of::<T>() as int,
                vstd::layout::align_of::<T>() as int,
            ).1,
    {
        allocator.alloc_value(value)
    }

    /// The address of the value in the arena.
    pub fn as_ptr(&self) -> (r: usize)
        ensures
            r == self.addr(),
    {
        self.ptr
    }

    /// A reference to the owned value.
    pub fn as_ref(&self) -> (r: &T)
        ensures
            r == self.inner(),
    {
        &self.value
    }

    /// A mutable reference to the owned value.
    pub fn as_mut(&mut self) -> (r: &mut T)
        ensures
            *r == old(self).inner(),
            final(self).inner() == *final(r),
            final(self).addr() == old(self).addr(),
    {
        &mut self.value
    }

    /// Replaces the owned value.
    pub fn set(&mut self, value: T)
        ensures
            final(self).inner() == value,
            final(self).addr() == old(self).addr(),
    {
        self.value = value;
    }

    /// Consumes the box, returning the arena address of the value together
    /// with the value, whose destructor the box will now never run.
    pub fn into_raw(this: Self) -> (r: (usize, T))
        ensures
            r.0 == this.addr(),
            r.1 == this.inner(),
    {
        (this.ptr, this.value)
    }

    /// Consumes the box without running the wrapper's bookkeeping, handing
    /// the value out; the arena keeps the backing bytes.
    pub fn leak(this: Self) -> (r: T)
        ensures
            r == this.inner(),
    {
        this.value
    }
}

impl<T: Copy> Box<T> {
    /// The owned value, copied out.
    pub fn get(&self) -> (r: T)
        ensures
            r == self.inner(),
    {
        self.value
    }
}

impl<T> Box<Slot<T>> {
    /// Allocates storage in the arena for an instance of `T`, not yet holding
    /// a value.
    pub fn new_uninit<A: Bump>(allocator: &mut A) -> (r: Self)
        requires
            old(allocator)@.wf(),
            vstd::layout::align_of::<T>() <= CHUNK_ALIGNMENT,
            old(allocator)@.can_alloc(
                vstd::layout::size_of::<T>() as int,
                vstd::layout::align_of::<T>() as int,
            ),
        ensures
            final(allocator)@ == old(allocator)@.spec_alloc(
                vstd::layout::size_of::<T>() as int,
                vstd::layout::align_of::<T>() as int,
            ).0,
            final(allocator)@.wf(),
            final(allocator)@.extends(old(allocator)@),
            r.inner() is Empty,
            Some(r.addr()) == old(allocator)@.spec_alloc(
                vstd::layout::size_of::<T>() as int,
                vstd::layout::align_of::<T>() as int,
            ).1,
    {
        allocator.alloc_uninit::<T>()
    }

    /// Writes a value into the slot, yielding a box of the value at the same
    /// address.
    pub fn write(self, value: T) -> (r: Box<T>)
        ensures
            r.inner() == value,
            r.addr() == self.addr(),
    {
        Box { value, ptr: self.ptr }
    }
}

impl<T> Box<Vec<T>> {
    /// Allocates memory in the arena and copies `slice` into it.
    pub fn new_slice<A: Bump>(slice: &[T], allocator: &mut A) -> (r: Self) where T: Copy
        requires
            old(allocator)@.wf(),
            vstd::layout::align_of::<T>() <= CHUNK_ALIGNMENT,
            vstd::layout::size_of::<T>() * slice@.len() + vstd::layout::align_of::<T>()
                <= usize::MAX,
            old(allocator)@.can_alloc(
                (vstd::layout::size_of::<T>() * slice@.len()) as int,
                vstd::layout::align_of::<T>() as int,
            ),
        ensures
            final(allocator)@ == old(allocator)@.spec_alloc(
                (vstd::layout::size_of::<T>() * slice@.len()) as int,
                vstd::layout::align_of::<T>() as int,
            ).0,
            final(allocator)@.wf(),
            final(allocator)@.extends(old(allocator)@),
            r.inner()@ == slice@,
            Some(r.addr()) == old(allocator)@.spec_alloc(
                (vstd::layout::size_of::<T>() * slice@.len()) as int,
                vstd::layout::align_of::<T>() as int,
            ).1,
    {
        allocator.alloc_slice(slice)
    }

    /// Allocates memory in the arena for a slice of `length` values, filling
    /// it with what the closure returns for each index.
    pub fn new_with<A: Bump, F: Fn(usize) -> T>(allocator: &mut A, length: usize, f: F) -> (r:
        Self)
        requires
            old(allocator)@.wf(),
            vstd::layout::align_of::<T>() <= CHUNK_ALIGNMENT,
            vstd::layout::size_of::<T>() * length + vstd::layout::align_of::<T>() <= usize::MAX,
            old(allocator)@.can_alloc(
                (vstd::layout::size_of::<T>() * length) as int,
                vstd::layout::align_of::<T>() as int,
            ),
            forall|i: usize| i < length ==> #[trigger] call_requires(f, (i,)),
        ensures
            final(allocator)@.wf(),
            final(allocator)@.extends(old(allocator)@),
            final(allocator)@ == old(allocator)@.spec_alloc(
                (vstd::layout::size_of::<T>() * length) as int,
                vstd::layout::align_of::<T>() as int,
            ).0,
            Some(r.addr()) == old(allocator)@.spec_alloc(
                (vstd::layout::size_of::<T>() * length) as int,
                vstd::layout::align_of::<T>() as int,
            ).1,
            r.inner()@.len() == length,
            forall|i: int|
                0 <= i < length ==> call_ensures(f, (i as usize,), #[trigger] r.inner()@[i]),
    {
        allocator.alloc_slice_with(length, f)
    }

    /// Allocates a slice in the arena to hold the items of `items`, which
    /// announced it would yield `length` of them.  Yielding fewer is allowed:
    /// the slice is truncated, and the leftover bytes stay allocated.
    pub fn from_iter<A: Bump>(length: usize, items: Vec<T>, allocator: &mut A) -> (r: Self)
        requires
            old(allocator)@.wf(),
            items@.len() <= length,
            vstd::layout::align_of::<T>() <= CHUNK_ALIGNMENT,
            vstd::layout::size_of::<T>() * length + vstd::layout::align_of::<T>() <= usize::MAX,
            old(allocator)@.can_alloc(
                (vstd::layout::size_of::<T>() * length) as int,
                vstd::layout::align_of::<T>() as int,
            ),
        ensures
            final(allocator)@.wf(),
            final(allocator)@.extends(old(allocator)@),
            final(allocator)@ == old(allocator)@.spec_alloc(
                (vstd::layout::size_of::<T>() * length) as int,
                vstd::layout::align_of::<T>() as int,
            ).0,
            Some(r.addr()) == old(allocator)@.spec_alloc(
                (vstd::layout::size_of::<T>() * length) as int,
                vstd::layout::align_of::<T>() as int,
            ).1,
            r.inner()@ == items@,
    {
        allocator.alloc_slice_from_iter(length, items)
    }

    /// The stored values as a slice.
    pub fn as_slice(&self) -> (r: &[T])
        ensures
            r@ == self.inner()@,
    {
        self.value.as_slice()
    }

    /// How many values are stored.
    pub fn len(&self) -> (r: usize)
        ensures
            r == self.inner()@.len(),
    {
        self.value.len()
    }
}

impl Box<String> {
    /// The stored text.
    pub fn as_str(&self) -> (r: &str)
        ensures
            r@ == self.inner()@,
    {
        self.value.as_str()
    }
}

} // verus!
