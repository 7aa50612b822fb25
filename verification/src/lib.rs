//! Search-and-selection engine of a snippet picker: a store of text snippets,
//! a case-insensitive subsequence matcher, the ranked filter built on it, and
//! the interaction state machine that a driver feeds with input events.

pub mod config;
pub mod filter;
pub mod fuzzy;
pub mod session;
pub mod store;
pub mod text;
