//! The relational type system: scalars, resources, fields and predicates.

pub mod type_system;
