//! A pattern-matching and template-substitution engine over token trees.
//!
//! A [`pattern::Pattern`] is a token-tree template with named parameters and
//! three repetition constructs. It can match concrete tokens into structured
//! bindings, substitute bindings back into tokens, and specialize itself
//! with a partial set of bindings.
//!
//! How a parameter reads and renders its value is up to the pattern's
//! parameter kind ([`item::ParameterKind`]); [`item::Fragment`] provides
//! the usual single-token kinds.

pub mod token;
pub mod item;
pub mod binding;
pub mod store;
pub mod index;
pub mod matcher;
pub mod substitute;
pub mod parser;
pub mod schema;
pub mod pattern;
pub mod collect;
pub mod specialize;
pub mod expect;
pub mod unparse;
pub mod laws;
