//! The tracing collector: an arena of slots, handles into it, and the
//! mark and sweep cycle.

pub mod allocator;
pub mod handle;
pub mod heap;
pub mod laws;
pub mod reach;

pub use self::allocator::{GcAllocator, GcValue, SimpleGcAllocator};
pub use self::handle::{GcFlag, GcRef, Traceable};
