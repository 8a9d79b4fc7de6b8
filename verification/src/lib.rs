//! A backend-agnostic relational query compiler.
//!
//! Domain entities are described by a [`graphql::type_system::Schema`] of resources and
//! scalars. The [`sql`] module compiles operations on those resources (registering tables,
//! inserting records, selecting with predicates) into statements for a SQL-like storage
//! backend, and provides an in-memory backend as well as a renderer to parameterized SQL text.

pub mod array;
pub mod graphql;
pub mod legiscan;
pub mod sql;
pub mod text;
