//! Countdown timers with pause and resume, lazy completion detection and a
//! history of finished countdowns.
pub mod duration;
pub mod task;
pub mod registry;
pub mod label;
