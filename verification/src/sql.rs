//! Compilation of the relational type system to a SQL-like storage backend.

pub mod data_source;
pub mod db;
pub mod ops;
