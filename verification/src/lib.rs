//! Focus-time accounting for desktop windows.
//!
//! A poller asks the operating system, at a fixed cadence, which window holds
//! the input focus, and hands each answer to a [`tracker::TrackerState`]. The
//! state credits the time that has passed since the previous answer to the
//! title that was just seen, one bucket per title. All times are plain
//! nanosecond counts supplied by the caller, so the accounting itself never
//! touches a clock or the windowing system.
//!
//! * [`model`] is the mathematical description of the state and of each step.
//! * [`tracker`] is the executable state and its lifecycle operations.
//! * [`title`] turns the raw text a windowing system reports into a title.
//! * [`laws`] proves what holds across several steps.

pub mod laws;
pub mod model;
pub mod title;
pub mod tracker;
