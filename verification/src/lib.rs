//! An interactive single-selection picker: a store of candidate lines
//! re-scored against a live query, an ordering and visibility report
//! for a presentation surface to render, and the selection state
//! machine that reacts to query, navigation, commit and cancel events.

pub mod controller;
pub mod matcher;
pub mod store;
