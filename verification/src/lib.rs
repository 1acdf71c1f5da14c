//! Gameplay core of a lane-based rhythm game.
//!
//! The crate turns a text chart into a timed list of playable notes, judges
//! player input against those notes frame by frame, and keeps score, combo,
//! accuracy and grade.  All chart times are held as integer microseconds so
//! that timing-window boundaries are exact.

pub mod chart;
pub mod decimal;
pub mod engine;
pub mod judgment;
pub mod laws;
pub mod note;
pub mod options;
pub mod scoring;
pub mod session;
pub mod text;
pub mod timing;
