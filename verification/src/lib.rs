//! A verified task and focus tracker: tasks own subtasks, subtasks carry
//! time sessions driven by a start/pause/resume/complete state machine, and
//! completed work turns into points, per-category experience with levels,
//! and time-bucketed statistics.
//!
//! The store lives in memory and every operation on it is specified and
//! verified; the surrounding application owns persistence, the clock and
//! the user interface.

pub mod clock;
pub mod ident;
pub mod level;
pub mod metrics;
pub mod models;
pub mod scoring;
pub mod store;
pub mod text;
pub mod tracker;
