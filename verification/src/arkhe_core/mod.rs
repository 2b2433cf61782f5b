//! The semantic core: artifacts, evidences, claims, beliefs and decisions,
//! the transitions that add them, and the integrity constraints they keep.
pub mod types;
pub mod hash;
pub mod delta;
pub mod invariants;
