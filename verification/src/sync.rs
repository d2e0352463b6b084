//! Bump allocation across threads by sharding: a pool of arenas, each lent
//! out whole, so allocation itself never contends.

use vstd::prelude::*;

use crate::bump::{Bump, Sealed};
use crate::raw_arena::{ArenaModel, RawArena};

verus! {

/// A pool of [`Arena`](crate::Arena)s shared between workers.  Each worker
/// checks a whole arena out with [`SharedArena::allocator`] and allocates
/// into it alone; [`SharedArena::reclaim`] returns the arena to the pool.
/// An arena is always either in the pool or lent out, never both.
pub struct SharedArena {
    arenas: std::vec::Vec<RawArena>,
    lent: Ghost<nat>,
}

/// A bump allocator over an arena checked out of a [`SharedArena`]: its
/// holder allocates without touching the pool.
#[derive(Debug)]
pub struct ThreadAllocator {
    arena: RawArena,
}

impl View for ThreadAllocator {
    type V = ArenaModel;

    closed spec fn view(&self) -> ArenaModel {
        self.arena@
    }
}

impl Sealed for ThreadAllocator {

}

impl Bump for ThreadAllocator {
    fn borrow_raw(&mut self) -> (r: &mut RawArena) {
        &mut self.arena
    }
}

impl SharedArena {
    /// The pooled arenas.
    pub closed spec fn pool(&self) -> Seq<ArenaModel> {
        self.arenas@.map_values(|a: RawArena| a@)
    }

    /// How many allocators are checked out and not yet reclaimed.
    pub closed spec fn lent(&self) -> nat {
        self.lent@
    }

    /// Every pooled arena is well formed.
    pub open spec fn wf(&self) -> bool {
        forall|i: int| 0 <= i < self.pool().len() ==> (#[trigger] self.pool()[i]).wf()
    }

    /// Creates an empty pool.
    pub fn new() -> (r: Self)
        ensures
            r.pool() == Seq::<ArenaModel>::empty(),
            r.lent() == 0,
            r.wf(),
    {
        let r = SharedArena { arenas: std::vec::Vec::new(), lent: Ghost(0) };
        proof {
            assert(r.pool() =~= Seq::<ArenaModel>::empty());
        }
        r
    }

    /// Checks an arena out of the pool, creating a fresh empty one when the
    /// pool is empty.  The sum of pooled and lent arenas is conserved except
    /// for that creation.
    pub fn allocator(&mut self) -> (r: ThreadAllocator)
        requires
            old(self).wf(),
        ensures
            final(self).lent() == old(self).lent() + 1,
            final(self).wf(),
            r@.wf(),
            old(self).pool().len() > 0 ==> (final(self).pool() == old(self).pool().drop_last()
                && r@ == old(self).pool().last()),
            old(self).pool().len() == 0 ==> (final(self).pool() == old(self).pool() && r@
                == ArenaModel::empty()),
    {
        let ghost n = self.pool().len() as int;
        let arena = match self.arenas.pop() {
            Some(arena) => {
                proof {
                    assert(old(self).pool()[n - 1].wf());
                }
                arena
            },
            None => RawArena::new(),
        };
        proof {
            self.lent@ = self.lent@ + 1;
            if n > 0 {
                assert(self.pool() =~= old(self).pool().drop_last());
            } else {
                assert(self.pool() =~= old(self).pool());
            }
        }
        ThreadAllocator { arena }
    }

    /// Returns a checked-out arena to the pool, with everything allocated
    /// through it still in place until the next reset.  An allocator can only
    /// come out of [`SharedArena::allocator`], so one is outstanding whenever
    /// this is called with an allocator of this pool.
    pub fn reclaim(&mut self, allocator: ThreadAllocator)
        requires
            old(self).wf(),
            old(self).lent() > 0,
            allocator@.wf(),
        ensures
            final(self).pool() == old(self).pool().push(allocator@),
            final(self).lent() == (old(self).lent() - 1) as nat,
            final(self).wf(),
    {
        self.arenas.push(allocator.arena);
        proof {
            self.lent@ = (self.lent@ - 1) as nat;
            assert(self.pool() =~= old(self).pool().push(allocator@));
        }
    }

    /// Resets every pooled arena.  Exclusive access means no allocator is
    /// checked out, so nothing lent is left unreset.
    pub fn reset(&mut self)
        requires
            old(self).wf(),
        ensures
            final(self).pool().len() == old(self).pool().len(),
            forall|i: int|
                0 <= i < old(self).pool().len() ==> final(self).pool()[i] == (
                #[trigger] old(self).pool()[i]).reset(),
            final(self).lent() == old(self).lent(),
            final(self).wf(),
    {
        let n = self.arenas.len();
        let mut i: usize = 0;
        while i < n
            invariant
                n == self.arenas@.len(),
                i <= n,
                self.lent@ == old(self).lent(),
                old(self).wf(),
                self.pool().len() == old(self).pool().len(),
                forall|j: int|
                    0 <= j < i ==> self.pool()[j] == (#[trigger] old(self).pool()[j]).reset(),
                forall|j: int| i <= j < n ==> self.pool()[j] == old(self).pool()[j],
            decreases n - i,
        {
            let ghost prev = self.pool();
            let a = &mut self.arenas[i];
            proof {
                assert(old(self).pool()[i as int].wf());
            }
            a.reset();
            i = i + 1;
            proof {
                assert forall|j: int| 0 <= j < i implies self.pool()[j] == (#[trigger] old(
                    self,
                ).pool()[j]).reset() by {
                    if j + 1 < i {
                        assert(self.pool()[j] == prev[j]);
                    }
                }
            }
        }
        proof {
            let r = self.pool();
            assert forall|i2: int| 0 <= i2 < r.len() implies (#[trigger] r[i2]).wf() by {
                assert(old(self).pool()[i2].wf());
                crate::raw_arena::lemma_reset_idempotent(old(self).pool()[i2]);
            }
        }
    }
}

impl Default for SharedArena {
    /// An empty pool.
    fn default() -> (r: Self)
        ensures
            r.pool() == Seq::<ArenaModel>::empty(),
            r.lent() == 0,
            r.wf(),
    {
        Self::new()
    }
}

} // verus!
