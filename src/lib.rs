//! Merging two texts into one along their largest overlap, so that the
//! shared part appears once.
//!
//! `overlap::merge` is the operation; `overlap::merged` is its model on
//! character sequences, and `laws` states and proves what holds of it.
pub mod laws;
pub mod overlap;
pub mod text;
