//! Behavior of the typed layers: boxes, slices, strings, vectors, the pool.

use bumpercar::boxed::Box;
use bumpercar::sync::SharedArena;
use bumpercar::vec::Vec;
use bumpercar::{Arena, Bump};

#[test]
fn values_keep_what_was_stored() {
    let arena = Arena::new();
    let mut allocator = arena.allocator();
    let mut a = allocator.alloc_value(5_i32);
    let b = allocator.alloc_str("hello");
    a.set(0xABCD);
    assert_eq!(a.get(), 0xABCD);
    assert_eq!(b.as_str(), "hello");
}

#[test]
fn slice_fill_returns_zeroed_slice() {
    let arena = Arena::with_capacity(1024);
    let mut allocator = arena.allocator();
    let items = allocator.alloc_slice_fill(8192, 0u8);
    assert_eq!(items.len(), 8192);
    assert!(items.as_slice().iter().all(|b| *b == 0));
}

#[test]
fn slice_fill_small() {
    let arena = Arena::new();
    let mut allocator = arena.allocator();
    let items = allocator.alloc_slice_fill(3usize, 42u8);
    assert_eq!(items.as_slice(), &[42u8, 42, 42]);
}

#[test]
fn slice_from_iter_returns_the_items() {
    let arena = Arena::new();
    let mut allocator = arena.allocator();
    let items = allocator.alloc_slice_from_iter(3, vec![1, 2, 3]);
    assert_eq!(items.as_slice(), &[1, 2, 3]);
}

#[test]
fn slice_from_iter_truncates_but_keeps_the_bytes() {
    let arena = Arena::with_capacity(64);
    let mut allocator = arena.allocator();
    // Five slots of four bytes are reserved (finger 80 - 20 = 60) though only
    // three values arrive; the leftover bytes stay allocated.
    let items = allocator.alloc_slice_from_iter(5, vec![1_i32, 2, 3]);
    assert_eq!(items.as_slice(), &[1, 2, 3]);
    let next = allocator.alloc_with_layout(
        bumpercar::Layout::from_size_align(4, 1).unwrap(),
    );
    assert_eq!(next, 56);
}

#[test]
fn slice_copies_and_clones() {
    let arena = Arena::new();
    let mut allocator = arena.allocator();
    let copied = allocator.alloc_slice(&[10u16, 20, 30]);
    assert_eq!(copied.as_slice(), &[10, 20, 30]);
    let cloned = allocator.alloc_slice_cloned(&[String::from("a"), String::from("b")]);
    assert_eq!(cloned.as_slice(), &[String::from("a"), String::from("b")]);
}

#[test]
fn slice_with_fills_from_indices() {
    let arena = Arena::new();
    let mut allocator = arena.allocator();
    let items = allocator.alloc_slice_with(4, |i| i * 2);
    assert_eq!(items.as_slice(), &[0, 2, 4, 6]);
}

#[test]
fn slice_try_with_succeeds_when_every_index_does() {
    let arena = Arena::new();
    let mut allocator = arena.allocator();
    let items = allocator.alloc_slice_try_with(3, |i| Ok::<usize, ()>(i + 1));
    assert_eq!(items.unwrap().as_slice(), &[1, 2, 3]);
}

#[test]
fn slice_try_with_failure_rewinds() {
    let arena = Arena::with_capacity(64);
    let mut allocator = arena.allocator();
    let before = allocator.borrow_raw().current_state();
    let items = allocator.alloc_slice_try_with(8, |i| {
        if i < 3 {
            Ok(i)
        } else {
            Err("too big")
        }
    });
    assert_eq!(items.unwrap_err(), "too big");
    assert_eq!(allocator.borrow_raw().current_state(), before);
}

#[test]
fn slice_try_from_iter_returns_the_first_failure() {
    let arena = Arena::with_capacity(64);
    let mut allocator = arena.allocator();
    let before = allocator.borrow_raw().current_state();
    let items = allocator.alloc_slice_try_from_iter(
        4,
        vec![Ok(1), Err("first"), Ok(3), Err("second")],
    );
    assert_eq!(items.unwrap_err(), "first");
    assert_eq!(allocator.borrow_raw().current_state(), before);
    let items = allocator.alloc_slice_try_from_iter::<i32, &str>(2, vec![Ok(1), Ok(2)]);
    assert_eq!(items.unwrap().as_slice(), &[1, 2]);
}

#[test]
fn fallible_value_allocation_rewinds_on_failure() {
    let arena = Arena::with_capacity(64);
    let mut allocator = arena.allocator();
    let before = allocator.borrow_raw().current_state();
    let r = allocator.alloc_try_uninit::<u64, _, _>(|_slot| None::<u32>);
    assert!(r.is_none());
    assert_eq!(allocator.borrow_raw().current_state(), before);
}

#[test]
fn alloc_with_builds_the_value_in_place() {
    let arena = Arena::new();
    let mut allocator = arena.allocator();
    let b = allocator.alloc_with(|| 21u64 * 2);
    assert_eq!(*b.as_ref(), 42);
}

#[test]
fn boxes_wrap_and_unwrap_values() {
    let arena = Arena::new();
    let mut allocator = arena.allocator();
    let six = Box::new(6, &mut allocator);
    assert_eq!(*six.as_ref(), 6);
    let (addr, value) = Box::into_raw(six);
    assert_eq!(value, 6);
    assert_ne!(addr, 0);

    let slot = Box::new_uninit(&mut allocator);
    let seven = slot.write(7);
    assert_eq!(*seven.as_ref(), 7);
    assert_eq!(Box::leak(seven), 7);

    let slice = Box::new_slice(&[1u8, 2, 3], &mut allocator);
    assert_eq!(slice.as_slice(), &[1, 2, 3]);

    let built = Box::new_with(&mut allocator, 4, |i| i);
    assert_eq!(built.as_slice(), &[0usize, 1, 2, 3]);

    let source = vec![1, 2, 3];
    let items = Box::from_iter(3, source, &mut allocator);
    assert_eq!(items.as_slice(), &[1, 2, 3]);
}

#[test]
fn uninit_slots_accept_values() {
    let arena = Arena::new();
    let mut allocator = arena.allocator();
    let slot = allocator.alloc_uninit::<u32>();
    assert_eq!(slot.as_ptr() % 4, 0);
    let written = slot.write(11);
    assert_eq!(*written.as_ref(), 11);

    let slots = allocator.alloc_slice_uninit::<u16>(4);
    assert_eq!(slots.len(), 4);
}

#[test]
fn vec_push_matches_the_sequence() {
    let arena = Arena::new();
    let mut allocator = arena.allocator();
    let mut vec = Vec::new_in(&allocator);
    vec.push(b'a', &mut allocator);
    vec.push(b'b', &mut allocator);
    vec.push(b'c', &mut allocator);
    assert_eq!(vec.len(), 3);
    assert!(!vec.is_empty());
    assert_eq!(vec.as_slice(), b"abc");
}

#[test]
fn vec_grows_through_the_realloc_protocol() {
    let arena = Arena::new();
    let mut allocator = arena.allocator();
    let mut vec = Vec::new_in(&allocator);
    let mut expected = std::vec::Vec::new();
    let mut i: usize = 0;
    while i < 1000 {
        vec.push((i % 256) as u8, &mut allocator);
        expected.push((i % 256) as u8);
        i += 1;
    }
    assert_eq!(vec.len(), 1000);
    assert!(vec.capacity() >= 1000);
    let leaked = vec.leak();
    assert_eq!(leaked.as_slice(), expected.as_slice());
}

#[test]
fn vec_pop_clear_and_set() {
    let arena = Arena::new();
    let mut allocator = arena.allocator();
    let mut vec = Vec::new_in(&allocator);
    assert_eq!(vec.pop(), None);
    vec.push(1u32, &mut allocator);
    vec.push(2u32, &mut allocator);
    vec.set(0, 9);
    assert_eq!(*vec.get(0), 9);
    assert_eq!(vec.pop(), Some(2));
    assert_eq!(vec.pop(), Some(9));
    assert_eq!(vec.pop(), None);
    vec.push(5u32, &mut allocator);
    let cap = vec.capacity();
    vec.clear();
    assert_eq!(vec.len(), 0);
    assert_eq!(vec.capacity(), cap);
}

#[test]
fn vec_reserve_exact_makes_room() {
    let arena = Arena::new();
    let mut allocator = arena.allocator();
    let mut vec: Vec<u64> = Vec::new_in(&allocator);
    vec.reserve_exact(10, &mut allocator);
    assert!(vec.capacity() >= 10);
    let before = vec.capacity();
    vec.reserve_exact(5, &mut allocator);
    assert_eq!(vec.capacity(), before);
}

#[test]
fn vec_of_zero_sized_values_never_allocates() {
    let arena = Arena::new();
    let mut allocator = arena.allocator();
    let mut vec = Vec::new_in(&allocator);
    let mut i: usize = 0;
    while i < 100 {
        vec.push((), &mut allocator);
        i += 1;
    }
    assert_eq!(vec.len(), 100);
    assert_eq!(vec.capacity(), 0);
    assert!(allocator.borrow_raw().current_state().is_none());
}

#[test]
fn shared_pool_conserves_arenas() {
    let mut pool = SharedArena::new();
    let mut a1 = pool.allocator();
    let mut a2 = pool.allocator();
    let mut count = 0;
    for i in 0..3 {
        let b = a1.alloc_value(i as u64);
        assert_eq!(*b.as_ref(), i as u64);
        count += 1;
        let b = a2.alloc_value(i as u64);
        assert_eq!(*b.as_ref(), i as u64);
        count += 1;
    }
    assert_eq!(count, 6);
    pool.reclaim(a1);
    pool.reclaim(a2);
    pool.reset();
    let mut a3 = pool.allocator();
    // The reset emptied the arena: its default 1024-byte chunk (base 16)
    // stays current with the finger back at its end.
    assert_eq!(
        a3.borrow_raw().current_state(),
        Some(bumpercar::raw_arena::RawArenaState { chunk: 0, finger: 1040 }),
    );
    pool.reclaim(a3);
    // Checked out and returned again: the two arenas are still in the pool,
    // ready for the next pair of workers.
    let a4 = pool.allocator();
    let a5 = pool.allocator();
    pool.reclaim(a4);
    pool.reclaim(a5);
}
