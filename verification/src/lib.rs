//! Scheduling core of a timing humanizer for note events.
//!
//! Incoming events are split into those that start a note, which are held
//! back for a randomly drawn time, and all others, which pass straight
//! through. Every quantity of time is a whole number of nanoseconds.
//!
//! - `event`: the events, and the fold from a signed draw to a delay.
//! - `variance`: the standard deviation of the delays, its floor, and how
//!   it is shown.
//! - `shared`: the standard deviation as two threads share it.
//! - `scheduler`: the events that wait and the events that pass through.
//! - `clock`: samples counted into nanoseconds.
//! - `plugin`: clock and scheduler together, block by block.
//! - `laws`: what holds over whole runs.

pub mod clock;
pub mod event;
pub mod laws;
pub mod plugin;
pub mod scheduler;
pub mod shared;
pub mod variance;
