//! A dynamically-typed value abstraction: a tagged union over a small fixed
//! set of primitive and composite types, a fallible conversion layer between
//! the union and native primitive types, and a string-keyed map with a typed
//! fetch-and-cast accessor.

pub mod dynamic_type;
pub mod cast;
pub mod dynamic;
pub mod error;
pub mod map;
