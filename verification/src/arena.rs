//! The arena: owner of the chunks that objects are bump-allocated into.

use vstd::prelude::*;

use crate::raw_arena::{ArenaModel, RawArena};

verus! {

/// An arena, owner of regions of memory that objects are bump-allocated
/// into.  To allocate, take the handle that [`Arena::allocator`] returns.
#[derive(Debug)]
pub struct Arena {
    arena: RawArena,
}

impl View for Arena {
    type V = ArenaModel;

    closed spec fn view(&self) -> ArenaModel {
        self.arena@
    }
}

impl Arena {
    /// Creates an empty arena: the first allocation brings the first chunk.
    pub fn new() -> (r: Self)
        ensures
            r@ == ArenaModel::empty(),
            r@.wf(),
    {
        Arena { arena: RawArena::with_capacity(0) }
    }

    /// Creates an arena with one chunk of at least `capacity` bytes.
    pub fn with_capacity(capacity: usize) -> (r: Self)
        requires
            capacity <= usize::MAX - 31,
        ensures
            r@ == ArenaModel::initial(capacity as int),
            r@.wf(),
    {
        Arena { arena: RawArena::with_capacity(capacity) }
    }

    /// Wraps a raw arena.
    pub(crate) fn from_raw(arena: RawArena) -> (r: Self)
        ensures
            r@ == arena@,
    {
        Arena { arena }
    }

    /// Moves the arena into an [`Allocator`](crate::Allocator) handle, the
    /// only way to allocate into it: while the handle lives, nothing else
    /// can touch the arena.
    pub fn allocator(self) -> (r: crate::Allocator)
        ensures
            r@ == self@,
    {
        crate::Allocator::with_arena(self.arena)
    }

    /// Frees every allocation at once by moving each chunk's finger back to
    /// its end.  The chunks themselves are retained and reused.
    pub fn reset(&mut self)
        requires
            old(self)@.wf(),
        ensures
            final(self)@ == old(self)@.reset(),
            final(self)@.wf(),
    {
        self.arena.reset()
    }
}

impl Default for Arena {
    /// An empty arena.
    fn default() -> (r: Self)
        ensures
            r@ == ArenaModel::empty(),
            r@.wf(),
    {
        Self::new()
    }
}

} // verus!
