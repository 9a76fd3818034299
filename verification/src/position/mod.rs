//! Positions: what is held of each token, and what can be merged.

pub mod fill_laws;
pub mod merge_laws;
pub mod merger;
pub mod tracker;
