//! The [`Bump`] trait: the capability set shared by every allocator handle.

use vstd::prelude::*;
use vstd::string::StringSliceAdditionalSpecFns;

use crate::boxed::{Box, Slot};
use crate::frame::Frame;
use crate::layout::{lemma_pow2_agrees, Layout};
use crate::private::Try;
use crate::raw_arena::{ArenaModel, RawArena, CHUNK_ALIGNMENT};

verus! {

/// The first failure among the yielded results, in order.
pub open spec fn first_err<T, E>(s: Seq<Result<T, E>>) -> Option<E>
    decreases s.len(),
{
    if s.len() == 0 {
        None
    } else {
        match s[0] {
            Result::Err(e) => Some(e),
            Result::Ok(_) => first_err(s.drop_first()),
        }
    }
}

/// The success payloads, in order.
pub open spec fn ok_values<T, E>(s: Seq<Result<T, E>>) -> Seq<T> {
    s.map_values(|r: Result<T, E>| r->Ok_0)
}

/// The closure has a success witness at index `j`: some value it may return
/// as `Ok` there.
pub open spec fn ok_witness<T, E, F: Fn(usize) -> Result<T, E>>(f: F, j: usize) -> bool {
    exists|v: T| call_ensures(f, (j,), Result::<T, E>::Ok(v))
}

/// Implemented by the crate's own allocator handles and nothing else.
pub trait Sealed {

}

/// Methods for bump allocation, shared by [`Allocator`](crate::Allocator),
/// [`Frame`] and [`ThreadAllocator`](crate::sync::ThreadAllocator).  Each
/// handle owns a [`RawArena`], its view is that arena's model, and every
/// method's contract speaks of that model.
pub trait Bump: Sealed + Sized + View<V = ArenaModel> {
    /// Exclusive access to the owned raw arena.
    fn borrow_raw(&mut self) -> (r: &mut RawArena)
        ensures
            (*r)@ == old(self)@,
            final(self)@ == (*final(r))@,
    ;

    /// Allocates space for an object with the given [`Layout`], returning its
    /// address.  See [`RawArena::alloc_with_layout`].
    fn alloc_with_layout(&mut self, layout: Layout) -> (r: usize)
        requires
            old(self)@.wf(),
            layout.wf(),
            layout.align <= CHUNK_ALIGNMENT,
            old(self)@.can_alloc(layout.size as int, layout.align as int),
        ensures
            final(self)@ == old(self)@.spec_alloc(layout.size as int, layout.align as int).0,
            old(self)@.spec_alloc(layout.size as int, layout.align as int).1 == Some(r as int),
            final(self)@.wf(),
            final(self)@.extends(old(self)@),
            r as int % layout.align as int == 0,
    {
        self.borrow_raw().alloc_with_layout(layout)
    }

    /// Shrinks or grows the topmost allocation.  See [`RawArena::realloc`].
    fn realloc(&mut self, pointer: usize, layout: Layout, new_size: usize) -> (r: (
        usize,
        Option<usize>,
    ))
        requires
            old(self)@.wf(),
            layout.wf(),
            layout.align <= CHUNK_ALIGNMENT,
            new_size + layout.align <= usize::MAX,
            old(self)@.realloc_ok(
                pointer as int,
                layout.size as int,
                layout.align as int,
                new_size as int,
            ),
        ensures
            ({
                let (m2, np, freed) = old(self)@.spec_realloc(
                    pointer as int,
                    layout.size as int,
                    layout.align as int,
                    new_size as int,
                );
                &&& final(self)@ == m2
                &&& r.0 == np
                &&& (match (r.1, freed) {
                    (Some(a), Some(b)) => a == b,
                    (None, None) => true,
                    _ => false,
                })
            }),
            final(self)@.wf(),
            final(self)@.extends(old(self)@),
    {
        self.borrow_raw().realloc(pointer, layout, new_size)
    }

    /// Calls the closure with a [`Frame`]; every allocation made through the
    /// frame is reclaimed when the closure returns.  The arena stands where
    /// it stood before the call: its snapshot is unchanged.  An arena that
    /// had no chunk yet keeps the chunk the frame created — emptied, as a
    /// reset leaves it — so nothing stays allocated either way.
    fn with_frame<T, F: FnOnce(Frame) -> (Frame, T)>(&mut self, f: F) -> (r: T)
        requires
            old(self)@.wf(),
            forall|fr: Frame| fr@ == old(self)@ ==> #[trigger] call_requires(f, (fr,)),
            forall|fr: Frame, out: (Frame, T)|
                #[trigger] call_ensures(f, (fr,), out) ==> out.0@.extends(fr@),
        ensures
            final(self)@.wf(),
            final(self)@.extends(old(self)@),
            old(self)@.current > 0 ==> final(self)@.pos_eq(old(self)@) && final(self)@.state()
                == old(self)@.state(),
            old(self)@.current == 0 ==> (forall|b: int| !final(self)@.live(b)),
            exists|fr: Frame, fr2: Frame|
                fr@ == old(self)@ && #[trigger] call_ensures(f, (fr,), (fr2, r)),
    {
        crate::frame::in_arena(self.borrow_raw(), f)
    }

    /// Allocates, hands the arena and the address to the closure, and frees
    /// the allocation again when the closure reports failure and made no
    /// nested allocation.  See [`RawArena::alloc_try_with_layout`].
    fn alloc_try_with_layout<R: Try, F: FnOnce(RawArena, usize) -> (RawArena, R)>(
        &mut self,
        layout: Layout,
        f: F,
    ) -> (r: R)
        requires
            old(self)@.wf(),
            layout.wf(),
            layout.align <= CHUNK_ALIGNMENT,
            old(self)@.can_alloc(layout.size as int, layout.align as int),
            forall|a: RawArena, p: usize|
                a@ == old(self)@.spec_alloc(layout.size as int, layout.align as int).0 && p as int
                    == old(self)@.spec_alloc(
                    layout.size as int,
                    layout.align as int,
                ).1->Some_0 ==> #[trigger] call_requires(f, (a, p)),
            forall|a: RawArena, p: usize, out: (RawArena, R)|
                #[trigger] call_ensures(f, (a, p), out) ==> out.0@.extends(a@),
        ensures
            final(self)@.wf(),
            final(self)@.extends(old(self)@),
            exists|a1: RawArena, a2: RawArena|
                {
                    &&& a1@ == old(self)@.spec_alloc(layout.size as int, layout.align as int).0
                    &&& #[trigger] call_ensures(
                        f,
                        (
                            a1,
                            (old(self)@.spec_alloc(
                                layout.size as int,
                                layout.align as int,
                            ).1->Some_0) as usize,
                        ),
                        (a2, r),
                    )
                    &&& (if !r.spec_is_success() && a2@.state() == a1@.state() {
                        &&& (old(self)@.current > 0 ==> final(self)@.pos_eq(old(self)@)
                            && final(self)@.state() == old(self)@.state())
                        &&& (old(self)@.current == 0 ==> (forall|b: int| !final(self)@.live(b)))
                    } else {
                        final(self)@ == a2@
                    })
                },
    {
        self.borrow_raw().alloc_try_with_layout(layout, f)
    }

    /// Allocates space for an instance of `T` and moves `value` into it.
    fn alloc_value<T>(&mut self, value: T) -> (b: Box<T>)
        requires
            old(self)@.wf(),
            vstd::layout::align_of::<T>() <= CHUNK_ALIGNMENT,
            old(self)@.can_alloc(
                vstd::layout::size_of::<T>() as int,
                vstd::layout::align_of::<T>() as int,
            ),
        ensures
            final(self)@ == old(self)@.spec_alloc(
                vstd::layout::size_of::<T>() as int,
                vstd::layout::align_of::<T>() as int,
            ).0,
            final(self)@.wf(),
            final(self)@.extends(old(self)@),
            b.inner() == value,
            Some(b.addr()) == old(self)@.spec_alloc(
                vstd::layout::size_of::<T>() as int,
                vstd::layout::align_of::<T>() as int,
            ).1,
    {
        let ptr = self.alloc_with_layout(layout_of::<T>());
        Box::make(value, ptr)
    }

    /// Allocates storage for an instance of `T`, to be written later.
    fn alloc_uninit<T>(&mut self) -> (b: Box<Slot<T>>)
        requires
            old(self)@.wf(),
            vstd::layout::align_of::<T>() <= CHUNK_ALIGNMENT,
            old(self)@.can_alloc(
                vstd::layout::size_of::<T>() as int,
                vstd::layout::align_of::<T>() as int,
            ),
        ensures
            final(self)@ == old(self)@.spec_alloc(
                vstd::layout::size_of::<T>() as int,
                vstd::layout::align_of::<T>() as int,
            ).0,
            final(self)@.wf(),
            final(self)@.extends(old(self)@),
            b.inner() is Empty,
            Some(b.addr()) == old(self)@.spec_alloc(
                vstd::layout::size_of::<T>() as int,
                vstd::layout::align_of::<T>() as int,
            ).1,
    {
        let ptr = self.alloc_with_layout(layout_of::<T>());
        Box::make(Slot::Empty, ptr)
    }

    /// Allocates space for an instance of `T` and fills it with what the
    /// closure returns, sparing the caller a stack-side copy of a large
    /// value.
    fn alloc_with<T, F: FnOnce() -> T>(&mut self, f: F) -> (b: Box<T>)
        requires
            old(self)@.wf(),
            vstd::layout::align_of::<T>() <= CHUNK_ALIGNMENT,
            old(self)@.can_alloc(
                vstd::layout::size_of::<T>() as int,
                vstd::layout::align_of::<T>() as int,
            ),
            call_requires(f, ()),
        ensures
            final(self)@ == old(self)@.spec_alloc(
                vstd::layout::size_of::<T>() as int,
                vstd::layout::align_of::<T>() as int,
            ).0,
            final(self)@.wf(),
            final(self)@.extends(old(self)@),
            call_ensures(f, (), b.inner()),
            Some(b.addr()) == old(self)@.spec_alloc(
                vstd::layout::size_of::<T>() as int,
                vstd::layout::align_of::<T>() as int,
            ).1,
    {
        let ptr = self.alloc_with_layout(layout_of::<T>());
        Box::make(f(), ptr)
    }

    /// Allocates storage for an instance of `T` and passes it to a closure
    /// that may fail; on failure the storage is freed again.
    fn alloc_try_uninit<T, R: Try, F: FnOnce(Box<Slot<T>>) -> R>(&mut self, f: F) -> (r: R)
        requires
            old(self)@.wf(),
            vstd::layout::align_of::<T>() <= CHUNK_ALIGNMENT,
            old(self)@.can_alloc(
                vstd::layout::size_of::<T>() as int,
                vstd::layout::align_of::<T>() as int,
            ),
            forall|b: Box<Slot<T>>|
                b.inner() is Empty ==> #[trigger] call_requires(f, (b,)),
        ensures
            final(self)@.wf(),
            final(self)@.extends(old(self)@),
            exists|b: Box<Slot<T>>|
                #[trigger] call_ensures(f, (b,), r) && b.inner() is Empty && Some(b.addr()) == old(
                    self,
                )@.spec_alloc(
                    vstd::layout::size_of::<T>() as int,
                    vstd::layout::align_of::<T>() as int,
                ).1,
            r.spec_is_success() ==> final(self)@ == old(self)@.spec_alloc(
                vstd::layout::size_of::<T>() as int,
                vstd::layout::align_of::<T>() as int,
            ).0,
            !r.spec_is_success() ==> ((old(self)@.current > 0 ==> final(self)@.pos_eq(
                old(self)@,
            ) && final(self)@.state() == old(self)@.state()) && (old(self)@.current == 0 ==> (
            forall|b: int| !final(self)@.live(b)))),
    {
        let raw = self.borrow_raw();
        let rewind_state = raw.current_state();
        let ptr = raw.alloc_with_layout(layout_of::<T>());
        let b = Box::<Slot<T>>::make(Slot::Empty, ptr);
        let result = f(b);
        if !result.is_success() {
            proof {
                crate::raw_arena::lemma_restore_exact(old(self)@, raw@);
            }
            raw.restore_state(rewind_state);
        }
        result
    }

    /// Allocates space to store `slice` and copies it into the arena.
    fn alloc_slice<T: Copy>(&mut self, slice: &[T]) -> (b: Box<Vec<T>>)
        requires
            old(self)@.wf(),
            vstd::layout::align_of::<T>() <= CHUNK_ALIGNMENT,
            vstd::layout::size_of::<T>() * slice@.len() + vstd::layout::align_of::<T>()
                <= usize::MAX,
            old(self)@.can_alloc(
                (vstd::layout::size_of::<T>() * slice@.len()) as int,
                vstd::layout::align_of::<T>() as int,
            ),
        ensures
            final(self)@ == old(self)@.spec_alloc(
                (vstd::layout::size_of::<T>() * slice@.len()) as int,
                vstd::layout::align_of::<T>() as int,
            ).0,
            final(self)@.wf(),
            final(self)@.extends(old(self)@),
            b.inner()@ == slice@,
            Some(b.addr()) == old(self)@.spec_alloc(
                (vstd::layout::size_of::<T>() * slice@.len()) as int,
                vstd::layout::align_of::<T>() as int,
            ).1,
    {
        let ptr = self.alloc_with_layout(layout_of_array::<T>(slice.len()));
        let mut values: Vec<T> = Vec::new();
        let mut i: usize = 0;
        while i < slice.len()
            invariant
                i <= slice@.len(),
                values@ == slice@.subrange(0, i as int),
            decreases slice@.len() - i,
        {
            values.push(slice[i]);
            i = i + 1;
        }
        proof {
            assert(values@ =~= slice@);
        }
        Box::make(values, ptr)
    }

    /// Allocates space to store a string and copies it into the arena.
    fn alloc_str(&mut self, s: &str) -> (b: Box<String>)
        requires
            old(self)@.wf(),
            old(self)@.can_alloc(s.spec_bytes().len() as int, 1),
        ensures
            final(self)@ == old(self)@.spec_alloc(s.spec_bytes().len() as int, 1).0,
            final(self)@.wf(),
            final(self)@.extends(old(self)@),
            b.inner()@ == s@,
            Some(b.addr()) == old(self)@.spec_alloc(s.spec_bytes().len() as int, 1).1,
    {
        let layout = Layout { size: s.len(), align: 1 };
        let ptr = self.alloc_with_layout(layout);
        Box::make(s.to_owned(), ptr)
    }

    /// Allocates space to store `slice`, cloning each item into the arena.
    fn alloc_slice_cloned<T: Clone>(&mut self, slice: &[T]) -> (b: Box<Vec<T>>)
        requires
            old(self)@.wf(),
            vstd::layout::align_of::<T>() <= CHUNK_ALIGNMENT,
            vstd::layout::size_of::<T>() * slice@.len() + vstd::layout::align_of::<T>()
                <= usize::MAX,
            old(self)@.can_alloc(
                (vstd::layout::size_of::<T>() * slice@.len()) as int,
                vstd::layout::align_of::<T>() as int,
            ),
        ensures
            final(self)@.wf(),
            final(self)@.extends(old(self)@),
            final(self)@ == old(self)@.spec_alloc(
                (vstd::layout::size_of::<T>() * slice@.len()) as int,
                vstd::layout::align_of::<T>() as int,
            ).0,
            Some(b.addr()) == old(self)@.spec_alloc(
                (vstd::layout::size_of::<T>() * slice@.len()) as int,
                vstd::layout::align_of::<T>() as int,
            ).1,
            b.inner()@.len() == slice@.len(),
            forall|i: int|
                0 <= i < slice@.len() ==> vstd::pervasive::cloned::<T>(
                    slice@[i],
                    #[trigger] b.inner()@[i],
                ),
    {
        let ptr = self.alloc_with_layout(layout_of_array::<T>(slice.len()));
        let mut values: Vec<T> = Vec::new();
        let mut i: usize = 0;
        while i < slice.len()
            invariant
                i <= slice@.len(),
                values@.len() == i,
                forall|j: int|
                    0 <= j < i ==> vstd::pervasive::cloned::<T>(slice@[j], #[trigger] values@[j]),
            decreases slice@.len() - i,
        {
            values.push(slice[i].clone());
            i = i + 1;
        }
        Box::make(values, ptr)
    }

    /// Allocates a slice of `length` clones of `value`; the value itself is
    /// moved into the last slot.
    fn alloc_slice_fill<T: Clone>(&mut self, length: usize, value: T) -> (b: Box<Vec<T>>)
        requires
            old(self)@.wf(),
            vstd::layout::align_of::<T>() <= CHUNK_ALIGNMENT,
            vstd::layout::size_of::<T>() * length + vstd::layout::align_of::<T>() <= usize::MAX,
            old(self)@.can_alloc(
                (vstd::layout::size_of::<T>() * length) as int,
                vstd::layout::align_of::<T>() as int,
            ),
        ensures
            final(self)@.wf(),
            final(self)@.extends(old(self)@),
            final(self)@ == old(self)@.spec_alloc(
                (vstd::layout::size_of::<T>() * length) as int,
                vstd::layout::align_of::<T>() as int,
            ).0,
            Some(b.addr()) == old(self)@.spec_alloc(
                (vstd::layout::size_of::<T>() * length) as int,
                vstd::layout::align_of::<T>() as int,
            ).1,
            b.inner()@.len() == length,
            forall|i: int|
                0 <= i < length - 1 ==> vstd::pervasive::cloned::<T>(
                    value,
                    #[trigger] b.inner()@[i],
                ),
            length > 0 ==> b.inner()@[length - 1] == value,
    {
        let ptr = self.alloc_with_layout(layout_of_array::<T>(length));
        let mut values: Vec<T> = Vec::new();
        if length > 0 {
            let mut i: usize = 0;
            while i < length - 1
                invariant
                    length > 0,
                    i <= length - 1,
                    values@.len() == i,
                    forall|j: int|
                        0 <= j < i ==> vstd::pervasive::cloned::<T>(
                            value,
                            #[trigger] values@[j],
                        ),
                decreases length - i,
            {
                values.push(value.clone());
                i = i + 1;
            }
            values.push(value);
        }
        Box::make(values, ptr)
    }

    /// Allocates a slice of `length` values, filling each slot with what the
    /// closure returns for its index.
    fn alloc_slice_with<T, F: Fn(usize) -> T>(&mut self, length: usize, f: F) -> (b: Box<Vec<T>>)
        requires
            old(self)@.wf(),
            vstd::layout::align_of::<T>() <= CHUNK_ALIGNMENT,
            vstd::layout::size_of::<T>() * length + vstd::layout::align_of::<T>() <= usize::MAX,
            old(self)@.can_alloc(
                (vstd::layout::size_of::<T>() * length) as int,
                vstd::layout::align_of::<T>() as int,
            ),
            forall|i: usize| i < length ==> #[trigger] call_requires(f, (i,)),
        ensures
            final(self)@.wf(),
            final(self)@.extends(old(self)@),
            final(self)@ == old(self)@.spec_alloc(
                (vstd::layout::size_of::<T>() * length) as int,
                vstd::layout::align_of::<T>() as int,
            ).0,
            Some(b.addr()) == old(self)@.spec_alloc(
                (vstd::layout::size_of::<T>() * length) as int,
                vstd::layout::align_of::<T>() as int,
            ).1,
            b.inner()@.len() == length,
            forall|i: int|
                0 <= i < length ==> call_ensures(f, (i as usize,), #[trigger] b.inner()@[i]),
    {
        let ptr = self.alloc_with_layout(layout_of_array::<T>(length));
        let mut values: Vec<T> = Vec::new();
        let mut i: usize = 0;
        while i < length
            invariant
                i <= length,
                values@.len() == i,
                forall|k: usize| k < length ==> #[trigger] call_requires(f, (k,)),
                forall|j: int|
                    0 <= j < i ==> call_ensures(f, (j as usize,), #[trigger] values@[j]),
            decreases length - i,
        {
            values.push(f(i));
            i = i + 1;
        }
        Box::make(values, ptr)
    }

    /// Allocates a slice of `length` slots of typed storage, none holding a
    /// value yet.
    fn alloc_slice_uninit<T>(&mut self, length: usize) -> (b: Box<Vec<Slot<T>>>)
        requires
            old(self)@.wf(),
            vstd::layout::align_of::<T>() <= CHUNK_ALIGNMENT,
            vstd::layout::size_of::<T>() * length + vstd::layout::align_of::<T>() <= usize::MAX,
            old(self)@.can_alloc(
                (vstd::layout::size_of::<T>() * length) as int,
                vstd::layout::align_of::<T>() as int,
            ),
        ensures
            final(self)@.wf(),
            final(self)@.extends(old(self)@),
            final(self)@ == old(self)@.spec_alloc(
                (vstd::layout::size_of::<T>() * length) as int,
                vstd::layout::align_of::<T>() as int,
            ).0,
            Some(b.addr()) == old(self)@.spec_alloc(
                (vstd::layout::size_of::<T>() * length) as int,
                vstd::layout::align_of::<T>() as int,
            ).1,
            b.inner()@.len() == length,
            forall|i: int| 0 <= i < length ==> (#[trigger] b.inner()@[i]) is Empty,
    {
        let ptr = self.alloc_with_layout(layout_of_array::<T>(length));
        let mut values: Vec<Slot<T>> = Vec::new();
        let mut i: usize = 0;
        while i < length
            invariant
                i <= length,
                values@.len() == i,
                forall|j: int| 0 <= j < i ==> (#[trigger] values@[j]) is Empty,
            decreases length - i,
        {
            values.push(Slot::Empty);
            i = i + 1;
        }
        Box::make(values, ptr)
    }

    /// Allocates a slice to hold the items of `items`, which announced it
    /// would yield `length` of them.  Yielding fewer is allowed: the returned
    /// slice is truncated to what was yielded, and the leftover bytes remain
    /// allocated until the enclosing scope ends.
    fn alloc_slice_from_iter<T>(&mut self, length: usize, items: Vec<T>) -> (b: Box<Vec<T>>)
        requires
            old(self)@.wf(),
            items@.len() <= length,
            vstd::layout::align_of::<T>() <= CHUNK_ALIGNMENT,
            vstd::layout::size_of::<T>() * length + vstd::layout::align_of::<T>() <= usize::MAX,
            old(self)@.can_alloc(
                (vstd::layout::size_of::<T>() * length) as int,
                vstd::layout::align_of::<T>() as int,
            ),
        ensures
            final(self)@ == old(self)@.spec_alloc(
                (vstd::layout::size_of::<T>() * length) as int,
                vstd::layout::align_of::<T>() as int,
            ).0,
            final(self)@.wf(),
            final(self)@.extends(old(self)@),
            b.inner()@ == items@,
            Some(b.addr()) == old(self)@.spec_alloc(
                (vstd::layout::size_of::<T>() * length) as int,
                vstd::layout::align_of::<T>() as int,
            ).1,
    {
        let ptr = self.alloc_with_layout(layout_of_array::<T>(length));
        Box::make(items, ptr)
    }

    /// Allocates a slice of `length` values filled from a closure that may
    /// fail; on the first failure the slice is freed again and the failure is
    /// returned.
    fn alloc_slice_try_with<T, E, F: Fn(usize) -> Result<T, E>>(
        &mut self,
        length: usize,
        f: F,
    ) -> (r: Result<Box<Vec<T>>, E>)
        requires
            old(self)@.wf(),
            vstd::layout::align_of::<T>() <= CHUNK_ALIGNMENT,
            vstd::layout::size_of::<T>() * length + vstd::layout::align_of::<T>() <= usize::MAX,
            old(self)@.can_alloc(
                (vstd::layout::size_of::<T>() * length) as int,
                vstd::layout::align_of::<T>() as int,
            ),
            forall|i: usize| i < length ==> #[trigger] call_requires(f, (i,)),
        ensures
            final(self)@.wf(),
            final(self)@.extends(old(self)@),
            r is Ok ==> (r->Ok_0.inner()@.len() == length && forall|i: int|
                0 <= i < length ==> call_ensures(
                    f,
                    (i as usize,),
                    Result::Ok(#[trigger] r->Ok_0.inner()@[i]),
                )),
            r is Ok ==> final(self)@ == old(self)@.spec_alloc(
                (vstd::layout::size_of::<T>() * length) as int,
                vstd::layout::align_of::<T>() as int,
            ).0 && Some(r->Ok_0.addr()) == old(self)@.spec_alloc(
                (vstd::layout::size_of::<T>() * length) as int,
                vstd::layout::align_of::<T>() as int,
            ).1,
            r is Err ==> (exists|i: usize, err: E|
                {
                    &&& i < length
                    &&& r == Result::<Box<Vec<T>>, E>::Err(err)
                    &&& #[trigger] call_ensures(f, (i,), Result::<T, E>::Err(err))
                    &&& forall|j: usize| j < i ==> #[trigger] ok_witness(f, j)
                }),
            r is Err ==> final(self)@.pos_eq(old(self)@) && final(self)@.state() == old(
                self,
            )@.state(),
    {
        let mut values: Vec<T> = Vec::new();
        let mut i: usize = 0;
        while i < length
            invariant
                i <= length,
                values@.len() == i,
                self@ == old(self)@,
                old(self)@.wf(),
                vstd::layout::align_of::<T>() <= CHUNK_ALIGNMENT,
                (vstd::layout::size_of::<T>() * length) as int + vstd::layout::align_of::<T>()
                    <= usize::MAX,
                old(self)@.can_alloc(
                    (vstd::layout::size_of::<T>() * length) as int,
                    vstd::layout::align_of::<T>() as int,
                ),
                forall|k: usize| k < length ==> #[trigger] call_requires(f, (k,)),
                forall|j: int|
                    0 <= j < i ==> call_ensures(
                        f,
                        (j as usize,),
                        Result::Ok(#[trigger] values@[j]),
                    ),
            decreases length - i,
        {
            match f(i) {
                Result::Ok(value) => {
                    values.push(value);
                },
                Result::Err(e) => {
                    proof {
                        assert(call_ensures(f, (i,), Result::<T, E>::Err(e)));
                        assert forall|j: usize| j < i implies #[trigger] ok_witness(f, j) by {
                            assert(call_ensures(
                                f,
                                (j,),
                                Result::<T, E>::Ok(values@[j as int]),
                            ));
                        }
                    }
                    return Result::Err(e);
                },
            }
            i = i + 1;
        }
        let ptr = self.alloc_with_layout(layout_of_array::<T>(length));
        Result::Ok(Box::make(values, ptr))
    }

    /// Allocates a slice to hold the successes of `items`, which announced it
    /// would yield `length` results.  The first failure frees the slice again
    /// and is returned instead.
    fn alloc_slice_try_from_iter<T, E>(&mut self, length: usize, items: Vec<Result<T, E>>) -> (r:
        Result<Box<Vec<T>>, E>)
        requires
            old(self)@.wf(),
            items@.len() <= length,
            vstd::layout::align_of::<T>() <= CHUNK_ALIGNMENT,
            vstd::layout::size_of::<T>() * length + vstd::layout::align_of::<T>() <= usize::MAX,
            old(self)@.can_alloc(
                (vstd::layout::size_of::<T>() * length) as int,
                vstd::layout::align_of::<T>() as int,
            ),
        ensures
            final(self)@.wf(),
            final(self)@.extends(old(self)@),
            r is Ok ==> first_err(items@) is None && r->Ok_0.inner()@ == ok_values(items@),
            r is Ok ==> final(self)@ == old(self)@.spec_alloc(
                (vstd::layout::size_of::<T>() * length) as int,
                vstd::layout::align_of::<T>() as int,
            ).0 && Some(r->Ok_0.addr()) == old(self)@.spec_alloc(
                (vstd::layout::size_of::<T>() * length) as int,
                vstd::layout::align_of::<T>() as int,
            ).1,
            r is Err ==> first_err(items@) == Some(r->Err_0),
            r is Err ==> final(self)@.pos_eq(old(self)@) && final(self)@.state() == old(
                self,
            )@.state(),
    {
        let mut values: Vec<T> = Vec::new();
        let mut rest = items;
        let ghost all = rest@;
        let n = rest.len();
        let mut i: usize = 0;
        while rest.len() > 0
            invariant
                all == items@,
                all.len() == n,
                i + rest@.len() == all.len(),
                i == values@.len(),
                self@ == old(self)@,
                old(self)@.wf(),
                vstd::layout::align_of::<T>() <= CHUNK_ALIGNMENT,
                (vstd::layout::size_of::<T>() * length) as int + vstd::layout::align_of::<T>()
                    <= usize::MAX,
                old(self)@.can_alloc(
                    (vstd::layout::size_of::<T>() * length) as int,
                    vstd::layout::align_of::<T>() as int,
                ),
                rest@ =~= all.subrange(i as int, all.len() as int),
                forall|j: int| 0 <= j < i ==> all[j] is Ok,
                values@ =~= ok_values(all.subrange(0, i as int)),
            decreases rest@.len(),
        {
            match rest.remove(0) {
                Result::Ok(value) => {
                    values.push(value);
                },
                Result::Err(e) => {
                    proof {
                        lemma_first_err_prefix(all, i as int);
                        let tail = all.subrange(i as int, all.len() as int);
                        assert(tail[0] == all[i as int]);
                        assert(first_err(all) == Some(e));
                    }
                    return Result::Err(e);
                },
            }
            i = i + 1;
        }
        proof {
            lemma_first_err_prefix(all, all.len() as int);
            assert(first_err(all) is None);
            assert(values@ =~= ok_values(all));
        }
        let ptr = self.alloc_with_layout(layout_of_array::<T>(length));
        Result::Ok(Box::make(values, ptr))
    }
}

/// The layout of one instance of `T`, with the standard guarantees on its
/// size and alignment made available.
fn layout_of<T>() -> (r: Layout)
    requires
        vstd::layout::align_of::<T>() <= CHUNK_ALIGNMENT,
    ensures
        r.size == vstd::layout::size_of::<T>(),
        r.align == vstd::layout::align_of::<T>(),
        r.wf(),
        r.align > 0,
{
    vstd::layout::layout_for_type_is_valid::<T>();
    let size = core::mem::size_of::<T>();
    let align = core::mem::align_of::<T>();
    proof {
        lemma_pow2_agrees(align);
        vstd::arithmetic::power2::is_pow2_equiv(align as int);
    }
    Layout { size, align }
}

/// The layout of `length` consecutive instances of `T`.
fn layout_of_array<T>(length: usize) -> (r: Layout)
    requires
        vstd::layout::size_of::<T>() * length + vstd::layout::align_of::<T>() <= usize::MAX,
    ensures
        r.size == (vstd::layout::size_of::<T>() * length) as int,
        r.align == vstd::layout::align_of::<T>(),
        r.wf(),
        r.align > 0,
{
    vstd::layout::layout_for_type_is_valid::<T>();
    let size_one = core::mem::size_of::<T>();
    let align = core::mem::align_of::<T>();
    proof {
        lemma_pow2_agrees(align);
        vstd::arithmetic::power2::is_pow2_equiv(align as int);
    }
    let size = size_one * length;
    Layout { size, align }
}

/// While every result below `i` succeeded, the first failure of the whole
/// sequence is the first failure of what remains from `i` on.
proof fn lemma_first_err_prefix<T, E>(s: Seq<Result<T, E>>, i: int)
    requires
        0 <= i <= s.len(),
        forall|j: int| 0 <= j < i ==> s[j] is Ok,
    ensures
        first_err(s) == first_err(s.subrange(i, s.len() as int)),
    decreases i,
{
    if i > 0 {
        assert(s[0] is Ok);
        assert(first_err(s) == first_err(s.drop_first()));
        assert(s.drop_first() =~= s.subrange(1, s.len() as int));
        lemma_first_err_prefix(s.drop_first(), i - 1);
        assert(s.drop_first().subrange(i - 1, s.drop_first().len() as int) =~= s.subrange(
            i,
            s.len() as int,
        ));
    } else {
        assert(s.subrange(0, s.len() as int) =~= s);
    }
}

} // verus!

