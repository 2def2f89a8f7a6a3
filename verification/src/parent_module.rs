//! A module with a nested child module.
pub mod child;
