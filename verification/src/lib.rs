//! Code generation for the Lua side of the scripting bindings: union
//! registration, newtype wrappers, derived metamethods and the global API
//! table, all rendered as Rust source text over a plain-value model of the
//! newtype declarations.

pub mod binops;
pub mod derive_flags;
pub mod globals;
pub mod group_map;
pub mod idents;
pub mod method_table;
pub mod model;
pub mod name_set;
pub mod newtype_gen;
pub mod text;
pub mod tokens;
pub mod unions;
