//! Memory arena, event bus and main loop.

pub mod allocator;
pub mod driver;
pub mod event_loop;
