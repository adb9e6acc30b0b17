//! Verified core of `jjf`, a fuzzy finder for jujutsu revisions.

pub mod ansi;
pub mod app;
pub mod log;
pub mod search;
pub mod style;
pub mod text;
pub mod tree;
