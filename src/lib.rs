//! Window selection for a left-to-right window switcher: which top-level
//! windows count as user windows, how they are ordered, and which one
//! receives focus for a step in a given direction.

pub mod classify;
pub mod geometry;
pub mod order;
pub mod select;
