//! A minimal in-memory, column-oriented analytic query engine.
//!
//! An immutable [`table::Table`] is queried through a tree of plan operators
//! (scan, project, filter, group-aggregate) that each materialize a full
//! column-oriented result chunk, and a translator builds such a tree from a
//! constrained SQL `SELECT` subset.

pub mod chunk;
pub mod laws;
pub mod numbers;
pub mod plan;
pub mod sql;
pub mod table;
