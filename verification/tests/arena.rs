//! Behavior of the raw arena: alignment, reuse, snapshots, frames, realloc.

use bumpercar::raw_arena::{RawArena, RawArenaState};
use bumpercar::{Arena, Bump, Layout};

fn layout(size: usize, align: usize) -> Layout {
    Layout::from_size_align(size, align).unwrap()
}

#[test]
fn simple_allocate_and_free() {
    let mut arena = RawArena::with_capacity(0);
    arena.alloc_with_layout(layout(8, 8));
    core::mem::drop(arena);
}

#[test]
fn large_allocation_causes_reallocation() {
    let arena = Arena::with_capacity(1024);
    let mut allocator = arena.allocator();
    allocator.alloc_slice_fill(8192, 0u8);
}

#[test]
fn layout_rejects_bad_alignments() {
    assert!(Layout::from_size_align(8, 3).is_none());
    assert!(Layout::from_size_align(8, 0).is_none());
    assert!(Layout::from_size_align(8, 8).is_some());
    assert!(Layout::from_size_align(usize::MAX, 2).is_none());
}

#[test]
fn allocations_are_aligned() {
    // An empty arena gets a default chunk of 1024 bytes at base 16, so the
    // finger starts at 1040 and every address comes from aligning it down.
    let mut arena = RawArena::with_capacity(0);
    let a = arena.alloc_with_layout(layout(5, 4));
    assert_eq!(a % 4, 0);
    assert_eq!(a, 1032);
    let b = arena.alloc_with_layout(layout(3, 8));
    assert_eq!(b % 8, 0);
    let c = arena.alloc_with_layout(layout(1, 16));
    assert_eq!(c % 16, 0);
}

#[test]
fn distinct_allocations_do_not_overlap() {
    let mut arena = RawArena::with_capacity(128);
    let a = arena.alloc_with_layout(layout(16, 8));
    let b = arena.alloc_with_layout(layout(16, 8));
    let c = arena.alloc_with_layout(layout(16, 8));
    assert!(b + 16 <= a || a + 16 <= b);
    assert!(c + 16 <= b || b + 16 <= c);
    assert!(c + 16 <= a || a + 16 <= c);
}

#[test]
fn zero_sized_allocations_leave_the_finger_alone() {
    let mut arena = RawArena::with_capacity(64);
    let before = arena.current_state();
    let a = arena.alloc_with_layout(layout(0, 8));
    assert_ne!(a, 0);
    assert_eq!(a % 8, 0);
    assert_eq!(arena.current_state(), before);
    // Two zero-sized requests bump nothing, so they see the same address.
    let b = arena.alloc_with_layout(layout(0, 8));
    assert_eq!(a, b);
}

#[test]
fn zero_sized_allocation_in_empty_arena_is_aligned_and_nonnull() {
    let mut arena = RawArena::with_capacity(0);
    let a = arena.alloc_with_layout(layout(0, 16));
    assert_ne!(a, 0);
    assert_eq!(a % 16, 0);
}

#[test]
fn frame_reclaims_memory() {
    let arena = Arena::with_capacity(64);
    let mut allocator = arena.allocator();
    allocator.alloc_with_layout(layout(8, 1));
    let before = allocator.borrow_raw().current_state();
    allocator.with_frame(|mut frame| {
        let x = frame.alloc_with_layout(layout(16, 1));
        (frame, x)
    });
    assert_eq!(allocator.borrow_raw().current_state(), before);
}

#[test]
fn frame_memory_is_reused_after_exit() {
    let arena = Arena::with_capacity(32);
    let mut allocator = arena.allocator();
    let inside = allocator.with_frame(|mut frame| {
        let x = frame.alloc_with_layout(layout(8, 1));
        (frame, x)
    });
    let after = allocator.alloc_with_layout(layout(8, 1));
    assert_eq!(inside, after);
}

#[test]
fn nested_frames_restore_the_outer_state() {
    let arena = Arena::new();
    let mut allocator = arena.allocator();
    allocator.alloc_with_layout(layout(64, 1));
    let before = allocator.borrow_raw().current_state();
    allocator.with_frame(|mut frame| {
        frame.alloc_with_layout(layout(32, 1));
        frame.with_frame(|mut inner| {
            inner.alloc_with_layout(layout(64, 1));
            (inner, ())
        });
        (frame, ())
    });
    assert_eq!(allocator.borrow_raw().current_state(), before);
}

#[test]
fn snapshots_restore_in_reverse_order() {
    let mut arena = RawArena::with_capacity(64);
    let s0 = arena.current_state();
    arena.alloc_with_layout(layout(8, 1));
    let s1 = arena.current_state();
    arena.alloc_with_layout(layout(8, 1));
    let s2 = arena.current_state();
    arena.alloc_with_layout(layout(8, 1));
    arena.restore_state(s2);
    assert_eq!(arena.current_state(), s2);
    arena.restore_state(s1);
    assert_eq!(arena.current_state(), s1);
    arena.restore_state(s0);
    assert_eq!(arena.current_state(), s0);
}

#[test]
fn restoring_none_resets_the_arena() {
    let mut arena = RawArena::with_capacity(0);
    let s0 = arena.current_state();
    assert!(s0.is_none());
    let a = arena.alloc_with_layout(layout(8, 1));
    arena.restore_state(s0);
    // Restoring the chunkless snapshot is a reset: the chunk created in the
    // meantime stays current with its finger back at its end (the default
    // 1024-byte chunk at base 16 ends at 1040), and the next allocation
    // reuses the same bytes.
    assert_eq!(
        arena.current_state(),
        Some(RawArenaState { chunk: 0, finger: 1040 }),
    );
    let b = arena.alloc_with_layout(layout(8, 1));
    assert_eq!(a, b);
}

#[test]
fn reset_is_idempotent_and_retains_chunks() {
    let mut arena = RawArena::with_capacity(32);
    let first = arena.alloc_with_layout(layout(8, 1));
    arena.reset();
    let after_one = arena.current_state();
    assert_eq!(after_one, Some(RawArenaState { chunk: 0, finger: 48 }));
    arena.reset();
    assert_eq!(arena.current_state(), after_one);
    // The chunk stays current with its finger back at its end: the same
    // address comes back without any new chunk being carved.
    let again = arena.alloc_with_layout(layout(8, 1));
    assert_eq!(first, again);
}

#[test]
fn reset_keeps_the_large_chunk_current_for_reuse() {
    let mut arena = RawArena::with_capacity(16);
    arena.alloc_with_layout(layout(16, 1));
    // Too big for the 16-byte chunk: a 112-byte chunk is carved at base 32.
    let big = arena.alloc_with_layout(layout(100, 1));
    assert_eq!(big, 44);
    arena.reset();
    // The large chunk stays current, emptied.
    assert_eq!(arena.current_state(), Some(RawArenaState { chunk: 1, finger: 144 }));
    // A request that only the large chunk can hold reuses its bytes exactly;
    // nothing new is carved.
    let again = arena.alloc_with_layout(layout(100, 1));
    assert_eq!(again, big);
}

#[test]
fn overflowing_a_chunk_doubles_the_capacity() {
    // First chunk: base 16, 16 bytes. The second allocation does not fit,
    // so a chunk of twice the capacity is carved at the frontier (32); its
    // finger starts at 64, which puts the 16 bytes at address 48.
    let mut arena = RawArena::with_capacity(16);
    let a = arena.alloc_with_layout(layout(16, 1));
    assert_eq!(a, 16);
    let b = arena.alloc_with_layout(layout(16, 1));
    assert_eq!(b, 48);
}

#[test]
fn oversized_request_gets_a_chunk_of_its_own_size() {
    let mut arena = RawArena::with_capacity(16);
    // 100 bytes exceed twice the current capacity; the new chunk must hold
    // the whole request: base 32, capacity 112 (rounded up to sixteens).
    let a = arena.alloc_with_layout(layout(100, 1));
    assert_eq!(a, 32 + 112 - 100);
}

#[test]
fn too_small_retained_chunk_is_regrown_in_place() {
    let mut arena = RawArena::with_capacity(16);
    let snap = arena.current_state();
    let a = arena.alloc_with_layout(layout(16, 1));
    assert_eq!(a, 16);
    let b = arena.alloc_with_layout(layout(16, 1));
    assert_eq!(b, 48);
    // Going back before the second chunk was adopted leaves it retained
    // ahead of the current one with 32 bytes of capacity.
    arena.restore_state(snap);
    // A request it cannot hold regrows it in place: it keeps its position in
    // the chain but takes a fresh backing range at the frontier (64), sized
    // for the request (112 bytes, rounded up to sixteens).
    let c = arena.alloc_with_layout(layout(100, 1));
    assert_eq!(c, 64 + 112 - 100);
}

#[test]
fn realloc_shrink_frees_the_suffix_for_reuse() {
    let mut arena = RawArena::with_capacity(64);
    let p = arena.alloc_with_layout(layout(32, 1));
    assert_eq!(p, 48);
    let (np, freed) = arena.realloc(p, layout(32, 1), 16);
    assert_eq!(np, 64);
    assert_eq!(freed, Some(48));
    // The sixteen freed bytes are handed out by the very next allocation.
    let q = arena.alloc_with_layout(layout(16, 1));
    assert_eq!(q, 48);
}

#[test]
fn realloc_grows_in_place_when_the_chunk_has_room() {
    let mut arena = RawArena::with_capacity(64);
    let p = arena.alloc_with_layout(layout(16, 1));
    assert_eq!(p, 64);
    let (np, freed) = arena.realloc(p, layout(16, 1), 32);
    assert_eq!(np, 48);
    assert_eq!(freed, None);
}

#[test]
fn realloc_falls_back_to_a_fresh_allocation() {
    let mut arena = RawArena::with_capacity(64);
    let p = arena.alloc_with_layout(layout(16, 1));
    arena.alloc_with_layout(layout(8, 1));
    // p is no longer the topmost allocation, so the realloc displaces it.
    let (np, freed) = arena.realloc(p, layout(16, 1), 24);
    assert_eq!(freed, Some(p));
    assert_ne!(np, p);
}

#[test]
fn failed_fallible_allocation_rewinds() {
    let mut arena = RawArena::with_capacity(64);
    let before = arena.current_state();
    let r = arena.alloc_try_with_layout(layout(8, 1), |a: RawArena, _p: usize| {
        (a, None::<u32>)
    });
    assert!(r.is_none());
    assert_eq!(arena.current_state(), before);
}

#[test]
fn successful_fallible_allocation_keeps_the_bytes() {
    let mut arena = RawArena::with_capacity(64);
    let before = arena.current_state();
    let r = arena.alloc_try_with_layout(layout(8, 1), |a: RawArena, p: usize| {
        (a, Some(p))
    });
    assert_eq!(r, Some(72));
    assert_ne!(arena.current_state(), before);
}

#[test]
fn fallible_allocation_with_nested_allocation_does_not_rewind() {
    let mut arena = RawArena::with_capacity(64);
    let before = arena.current_state();
    let r = arena.alloc_try_with_layout(layout(8, 1), |mut a: RawArena, _p: usize| {
        // A nested allocation moves the state past the success point, so the
        // failure must not rewind: that would strand the nested bytes.
        a.alloc_with_layout(Layout::from_size_align(4, 1).unwrap());
        (a, None::<u32>)
    });
    assert!(r.is_none());
    assert_ne!(arena.current_state(), before);
}

#[test]
fn allocator_round_trips_through_the_arena() {
    let arena = Arena::with_capacity(64);
    let mut allocator = arena.allocator();
    allocator.alloc_with_layout(layout(8, 8));
    let mut arena = allocator.into_arena();
    arena.reset();
    let mut allocator = arena.allocator();
    // The 64-byte chunk (base 16, end 80) stays current, emptied.
    assert_eq!(
        allocator.borrow_raw().current_state(),
        Some(RawArenaState { chunk: 0, finger: 80 }),
    );
}
