//! Checks of a workspace, and its consolidation.
pub mod check;
pub mod checks;
pub mod consolidate;
