//! Scoped allocation: a [`Frame`] ties allocations to a closure's extent.

use vstd::prelude::*;

use crate::bump::{Bump, Sealed};
use crate::raw_arena::{lemma_restore_exact, ArenaModel, RawArena};

verus! {

/// A bump allocator for a scope: the closure of
/// [`with_frame`](Bump::with_frame) allocates through it, and everything so
/// allocated is reclaimed when the closure returns.  The frame owns the arena
/// for the scope's duration, which keeps the outer handle unusable inside.
#[derive(Debug)]
pub struct Frame {
    arena: RawArena,
}

impl View for Frame {
    type V = ArenaModel;

    closed spec fn view(&self) -> ArenaModel {
        self.arena@
    }
}

impl Sealed for Frame {

}

impl Bump for Frame {
    fn borrow_raw(&mut self) -> (r: &mut RawArena) {
        &mut self.arena
    }
}

/// Runs the closure on a frame over this arena, then restores the snapshot
/// taken before it ran, reclaiming the frame's allocations in bulk.  On an
/// arena that had no chunk yet the snapshot is the null marker, whose restore
/// is a reset: the chunk the frame created stays, emptied.  If the
/// closure unwinds instead of returning, nothing is restored: the chunks the
/// frame was using are abandoned rather than handed out again, since pointers
/// into them may still be referenced by the unwinding code.
pub(crate) fn in_arena<T, F: FnOnce(Frame) -> (Frame, T)>(arena: &mut RawArena, f: F) -> (r: T)
    requires
        old(arena)@.wf(),
        forall|fr: Frame| fr@ == old(arena)@ ==> #[trigger] call_requires(f, (fr,)),
        forall|fr: Frame, out: (Frame, T)|
            #[trigger] call_ensures(f, (fr,), out) ==> out.0@.extends(fr@),
    ensures
        final(arena)@.wf(),
        final(arena)@.extends(old(arena)@),
        old(arena)@.current > 0 ==> final(arena)@.pos_eq(old(arena)@) && final(arena)@.state()
            == old(arena)@.state(),
        old(arena)@.current == 0 ==> (forall|b: int| !final(arena)@.live(b)),
        exists|fr: Frame, fr2: Frame|
            fr@ == old(arena)@ && #[trigger] call_ensures(f, (fr,), (fr2, r)),
{
    let state = arena.current_state();
    let mut work = RawArena::new();
    core::mem::swap(arena, &mut work);
    let frame = Frame { arena: work };
    let ghost fr0 = frame;
    let (frame2, result) = f(frame);
    let ghost fr2g = frame2;
    let mut work2 = frame2.arena;
    proof {
        lemma_restore_exact(old(arena)@, work2@);
    }
    work2.restore_state(state);
    core::mem::swap(arena, &mut work2);
    result
}

} // verus!
