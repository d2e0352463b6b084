//! A bump-allocation arena, modeled and verified over a mathematical view of
//! its chunks: every allocation is an address carved out of a chunk by moving
//! a downward finger, and frames, snapshots and resets reclaim regions in bulk.

mod allocator;
mod arena;
pub mod boxed;
mod bump;
mod frame;
mod layout;
mod private;
pub mod raw_arena;
pub mod sync;
pub mod vec;

pub use allocator::Allocator;
pub use arena::Arena;
pub use bump::Bump;
pub use frame::Frame;
pub use layout::Layout;
pub use raw_arena::RawArena;
