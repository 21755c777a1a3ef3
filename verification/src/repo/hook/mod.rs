//! Hooks: commands that run on repositories that match filters, when their
//! condition holds.
pub mod condition;
pub mod filter;
