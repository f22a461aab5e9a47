//! A fixed-capacity, array-backed double-ended queue built on circular-index
//! arithmetic, together with a hybrid container that starts on fixed-size
//! storage and migrates irrevocably to growable storage when its capacity is
//! exceeded.

pub mod array_deque;
pub mod model;
pub mod tiny_deque;
pub mod wrap;

pub use array_deque::ArrayDeque;
pub use tiny_deque::TinyDeque;
pub use wrap::{wrap_add, wrap_index, wrap_sub};
