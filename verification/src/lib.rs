//! Polls content sources for items matching a keyword, keeps those not yet
//! known, and hands them to a store that never holds an identifier twice.

pub mod config;
pub mod cycle;
pub mod dedup;
pub mod error;
pub mod item;
pub mod listing;
pub mod pagination;
pub mod scheduler;
pub mod stackoverflow;
pub mod store;
pub mod text;
pub mod twitter;
pub mod url;
