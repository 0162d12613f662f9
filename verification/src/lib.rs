//! Compiler for a small boolean query language over file tags.
//!
//! A query string such as `kick drum -snare (clap | fx) in:Drums/` is parsed
//! into an expression tree, compiled into an intermediate form that separates
//! full-text-search groups from structural path predicates, and finally
//! rendered as a SQL boolean expression over an inverted-index backend.

pub mod config;
pub mod manager;
pub mod query;
pub mod repo;
pub mod sql;
pub mod text;
pub mod tree;
