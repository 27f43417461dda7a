//! Ownership-aware ranking of symbol search results.

pub mod ownership;
pub mod quote;
pub mod ranking;
pub mod symbols;
pub mod search;
pub mod query;
pub mod laws;
