//! A growable array backed by arena memory through the realloc protocol.

use vstd::prelude::*;

use vstd::pervasive::VecAdditionalExecFns;

use crate::bump::Bump;
use crate::layout::Layout;
use crate::raw_arena::{ArenaModel, CHUNK_ALIGNMENT};

verus! {

/// A contiguous, growable array whose backing bytes come from an
/// [`Arena`](crate::Arena).  The vector tracks the arena address and byte
/// capacity of its backing allocation; growth asks the allocator to realloc
/// that allocation, adopting the new address when the object was displaced.
///
/// The type carries no equality of its own, since derived comparisons carry
/// no specification here: compare contents through [`Vec::as_slice`].
pub struct Vec<T> {
    elements: std::vec::Vec<T>,
    pointer: usize,
    capacity: usize,
}

impl<T> View for Vec<T> {
    type V = Seq<T>;

    closed spec fn view(&self) -> Seq<T> {
        self.elements@
    }
}

impl<T> Vec<T> {
    /// The arena address of the backing allocation; a dangling aligned
    /// placeholder while the capacity is zero.
    pub closed spec fn spec_ptr(&self) -> int {
        self.pointer as int
    }

    /// The number of elements the backing allocation can hold.
    pub closed spec fn spec_capacity(&self) -> int {
        self.capacity as int
    }

    /// The live elements fit the backing allocation.  Zero-sized elements
    /// never take backing bytes, so any number of them fits.
    pub closed spec fn wf(&self) -> bool {
        vstd::layout::size_of::<T>() == 0 || self@.len() <= self.capacity
    }

    /// The vector has room for `additional` more elements, or the allocator
    /// can grow its backing allocation to make that room.
    pub open spec fn reserve_ok(&self, m: ArenaModel, additional: int) -> bool {
        ||| vstd::layout::size_of::<T>() == 0
        ||| self.spec_capacity() - self@.len() >= additional
        ||| {
            let size = vstd::layout::size_of::<T>();
            &&& size * (self.spec_capacity() + additional) + vstd::layout::align_of::<T>()
                <= usize::MAX
            &&& m.realloc_ok(
                self.spec_ptr(),
                (size * self.spec_capacity()) as int,
                vstd::layout::align_of::<T>() as int,
                (size * (self.spec_capacity() + additional)) as int,
            )
        }
    }

    /// The allocator can take one more push: there is room, or the backing
    /// allocation can be grown for the doubled length.
    pub open spec fn push_ok(&self, m: ArenaModel) -> bool {
        ||| self@.len() < self.spec_capacity()
        ||| self.reserve_ok(m, vstd::math::max(self@.len() as int, 1))
    }

    /// The allocator state and vector address after the backing allocation is
    /// grown by `additional` elements through the realloc protocol.
    pub open spec fn grow_result(&self, m: ArenaModel, additional: int) -> (ArenaModel, int) {
        let size = vstd::layout::size_of::<T>();
        let r = m.spec_realloc(
            self.spec_ptr(),
            (size * self.spec_capacity()) as int,
            vstd::layout::align_of::<T>() as int,
            (size * (self.spec_capacity() + additional)) as int,
        );
        (r.0, r.1)
    }

    /// Creates an empty vector that will keep its elements in the arena of
    /// the given allocator.
    pub fn new_in<A: Bump>(_allocator: &A) -> (r: Self)
        ensures
            r@ == Seq::<T>::empty(),
            r.spec_capacity() == 0,
            r.spec_ptr() == vstd::layout::align_of::<T>(),
            r.wf(),
    {
        vstd::layout::layout_for_type_is_valid::<T>();
        Vec { elements: std::vec::Vec::new(), pointer: core::mem::align_of::<T>(), capacity: 0 }
    }

    /// The arena address of the vector's contents.
    pub fn as_ptr(&self) -> (r: usize)
        ensures
            r == self.spec_ptr(),
    {
        self.pointer
    }

    /// The arena address of the vector's contents.
    pub fn as_mut_ptr(&mut self) -> (r: usize)
        ensures
            r == old(self).spec_ptr(),
            *final(self) == *old(self),
    {
        self.pointer
    }

    /// How many elements the vector can hold before it must grow.
    pub fn capacity(&self) -> (r: usize)
        ensures
            r == self.spec_capacity(),
    {
        self.capacity
    }

    /// How many elements the vector holds.
    pub fn len(&self) -> (r: usize)
        ensures
            r == self@.len(),
    {
        self.elements.len()
    }

    /// True when the vector holds nothing.
    pub fn is_empty(&self) -> (r: bool)
        ensures
            r == (self@.len() == 0),
    {
        self.elements.len() == 0
    }

    /// The elements as a slice.
    pub fn as_slice(&self) -> (r: &[T])
        ensures
            r@ == self@,
    {
        self.elements.as_slice()
    }

    /// The elements as a mutable slice.
    pub fn as_mut_slice(&mut self) -> (r: &mut [T])
        ensures
            r@ == old(self)@,
            final(self)@ == final(r)@,
            final(self).spec_ptr() == old(self).spec_ptr(),
            final(self).spec_capacity() == old(self).spec_capacity(),
    {
        self.elements.as_mut_slice()
    }

    /// The element at `i`.
    pub fn get(&self, i: usize) -> (r: &T)
        requires
            i < self@.len(),
        ensures
            *r == self@[i as int],
    {
        &self.elements[i]
    }

    /// Replaces the element at `i`.
    pub fn set(&mut self, i: usize, value: T)
        requires
            i < old(self)@.len(),
        ensures
            final(self)@ == old(self)@.update(i as int, value),
            final(self).spec_ptr() == old(self).spec_ptr(),
            final(self).spec_capacity() == old(self).spec_capacity(),
            final(self).wf() == old(self).wf(),
    {
        self.elements.set(i, value);
    }

    /// Consumes the vector, handing its elements out together with their
    /// arena address; no destructor will run for them through this vector.
    /// The elements come out alive, so their destructors still run when the
    /// caller finally drops them — the arena itself never runs any.
    pub fn leak(self) -> (r: crate::boxed::Box<std::vec::Vec<T>>)
        ensures
            r.inner()@ == self@,
            r.addr() == self.spec_ptr(),
    {
        crate::boxed::Box::make(self.elements, self.pointer)
    }

    /// Drops every element; the backing capacity stays with the vector.
    pub fn clear(&mut self)
        ensures
            final(self)@ == Seq::<T>::empty(),
            final(self).spec_ptr() == old(self).spec_ptr(),
            final(self).spec_capacity() == old(self).spec_capacity(),
            final(self).wf(),
    {
        self.elements.clear()
    }

    /// Makes room for at least `additional` more elements, growing the
    /// backing allocation through the allocator's realloc protocol; the
    /// vector adopts the new address when the allocation was displaced.
    pub fn reserve_exact<A: Bump>(&mut self, additional: usize, allocator: &mut A)
        requires
            old(self).wf(),
            old(allocator)@.wf(),
            vstd::layout::align_of::<T>() <= CHUNK_ALIGNMENT,
            old(self).reserve_ok(old(allocator)@, additional as int),
        ensures
            final(self)@ == old(self)@,
            final(self).wf(),
            final(allocator)@.wf(),
            final(allocator)@.extends(old(allocator)@),
            vstd::layout::size_of::<T>() != 0 ==> final(self).spec_capacity() - final(self)@.len()
                >= additional,
            (vstd::layout::size_of::<T>() == 0 || old(self).spec_capacity() - old(self)@.len()
                >= additional) ==> (final(allocator)@ == old(allocator)@ && *final(self) == *old(
                self,
            )),
            (vstd::layout::size_of::<T>() != 0 && old(self).spec_capacity() - old(self)@.len()
                < additional) ==> ({
                let (m2, np) = old(self).grow_result(old(allocator)@, additional as int);
                &&& final(allocator)@ == m2
                &&& final(self).spec_ptr() == np
                &&& final(self).spec_capacity() == old(self).spec_capacity() + additional
            }),
    {
        vstd::layout::layout_for_type_is_valid::<T>();
        let element_size = core::mem::size_of::<T>();
        if element_size == 0 {
            return ;
        }
        if self.capacity - self.elements.len() >= additional {
            return ;
        }
        let align = core::mem::align_of::<T>();
        proof {
            crate::layout::lemma_pow2_agrees(align);
            vstd::arithmetic::power2::is_pow2_equiv(align as int);
            vstd::arithmetic::mul::lemma_mul_inequality(
                self.capacity as int,
                self.capacity as int + additional as int,
                element_size as int,
            );
            vstd::arithmetic::mul::lemma_mul_is_commutative(
                element_size as int,
                self.capacity as int,
            );
            vstd::arithmetic::mul::lemma_mul_is_commutative(
                element_size as int,
                self.capacity as int + additional as int,
            );
            vstd::arithmetic::mul::lemma_mul_is_distributive_add(
                element_size as int,
                self.capacity as int,
                additional as int,
            );
            vstd::arithmetic::mul::lemma_mul_nonnegative(element_size as int, additional as int);
            vstd::arithmetic::mul::lemma_mul_inequality(
                1,
                element_size as int,
                self.capacity as int + additional as int,
            );
        }
        let current_size = element_size * self.capacity;
        let new_size = current_size + element_size * additional;
        let (new_pointer, _) = allocator.realloc(
            self.pointer,
            Layout { size: current_size, align },
            new_size,
        );
        self.pointer = new_pointer;
        self.capacity = self.capacity + additional;
    }

    /// Appends an element, growing the backing allocation when it is full.
    pub fn push<A: Bump>(&mut self, value: T, allocator: &mut A)
        requires
            old(self).wf(),
            old(allocator)@.wf(),
            vstd::layout::align_of::<T>() <= CHUNK_ALIGNMENT,
            old(self).push_ok(old(allocator)@),
        ensures
            final(self)@ == old(self)@.push(value),
            final(self).wf(),
            final(allocator)@.wf(),
            final(allocator)@.extends(old(allocator)@),
            (vstd::layout::size_of::<T>() == 0 || old(self)@.len() < old(self).spec_capacity())
                ==> (final(allocator)@ == old(allocator)@ && final(self).spec_ptr() == old(
                self,
            ).spec_ptr() && final(self).spec_capacity() == old(self).spec_capacity()),
            (vstd::layout::size_of::<T>() != 0 && old(self)@.len() == old(self).spec_capacity())
                ==> ({
                let add = vstd::math::max(old(self)@.len() as int, 1);
                let (m2, np) = old(self).grow_result(old(allocator)@, add);
                &&& final(allocator)@ == m2
                &&& final(self).spec_ptr() == np
                &&& final(self).spec_capacity() == old(self).spec_capacity() + add
            }),
    {
        if self.elements.len() == self.capacity {
            let additional = if self.elements.len() > 1 {
                self.elements.len()
            } else {
                1
            };
            self.reserve_exact(additional, allocator);
        }
        self.elements.push(value);
    }

    /// Removes and returns the last element, or `None` when there is none.
    pub fn pop(&mut self) -> (r: Option<T>)
        ensures
            old(self)@.len() == 0 ==> (r is None && final(self)@ == old(self)@),
            old(self)@.len() > 0 ==> (r == Some(old(self)@.last()) && final(self)@ == old(
                self,
            )@.drop_last()),
            final(self).spec_ptr() == old(self).spec_ptr(),
            final(self).spec_capacity() == old(self).spec_capacity(),
            old(self).wf() ==> final(self).wf(),
    {
        if self.elements.len() == 0 {
            return None;
        }
        self.elements.pop()
    }
}

} // verus!
