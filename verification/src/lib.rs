//! Classifies a rhythm-game beatmap library by its aim/tapping performance
//! ratio and materializes the classification as named collections in a
//! collection store, replacing collections generated by a previous run while
//! leaving user-created ones untouched.
//!
//! The library works on plain values: star ratings arrive in thousandths of a
//! star, performance values in millionths of a point, and the grouping
//! precision in thousandths of a percent point. The callers that read the
//! binary databases and compute raw performance attributes convert at the
//! boundary.

pub mod bucket;
pub mod classify;
pub mod config;
pub mod listing;
pub mod store;
pub mod text;
