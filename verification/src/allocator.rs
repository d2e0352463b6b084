//! The allocation handle bound to an [`Arena`](crate::Arena).

use vstd::prelude::*;

use crate::bump::{Bump, Sealed};
use crate::raw_arena::{ArenaModel, RawArena};

verus! {

/// A bump allocator that allocates objects into an [`Arena`](crate::Arena).
/// It is obtained by [`Arena::allocator`](crate::Arena::allocator), which
/// moves the arena in, so only one handle can allocate at a time;
/// [`Allocator::into_arena`] gives the arena back.
#[derive(Debug)]
pub struct Allocator {
    arena: RawArena,
}

impl View for Allocator {
    type V = ArenaModel;

    closed spec fn view(&self) -> ArenaModel {
        self.arena@
    }
}

impl Sealed for Allocator {

}

impl Bump for Allocator {
    fn borrow_raw(&mut self) -> (r: &mut RawArena) {
        &mut self.arena
    }
}

impl Allocator {
    /// Creates an allocator that allocates into the given arena.
    pub(crate) fn with_arena(arena: RawArena) -> (r: Self)
        ensures
            r@ == arena@,
    {
        Allocator { arena }
    }

    /// Dissolves the handle, giving the arena back with every allocation
    /// made through the handle still in place.
    pub fn into_arena(self) -> (r: crate::Arena)
        ensures
            r@ == self@,
    {
        crate::Arena::from_raw(self.arena)
    }
}

} // verus!
