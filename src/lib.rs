//! Sliding-window minimum and maximum, each in constant time.
//!
//! The window is a first-in first-out queue of values. Values enter at the back
//! with `push` and leave from the front with `pop`; the current minimum (or
//! maximum) of what the window holds is read in O(1), and `push` and `pop` stay
//! amortized O(1).
pub mod order;
pub mod queue;
pub mod moving;
pub mod laws;

pub use moving::{MovingMax, MovingMin};
