//! A declarative, layered configuration loader.
//!
//! A configuration's shape is described at run time by a table of field
//! descriptors ([`shape::Shape`]): names, leaf types, optionality, static
//! defaults, merge and parse policies, and environment-key declarations.
//! Values are accumulated from layered sources — text in several formats,
//! environment variables, programmatic defaults, pre-built values — into a
//! deep-partial mirror of the shape ([`mirror::Mirror`]), merged field by
//! field with deterministic override semantics ([`merge`]), checked for
//! completeness and finalized into the strict configuration value
//! ([`finish`]). The [`loader::ConfigLoader`] orchestrates the sources;
//! later sources win, per field, exactly as the contracts in each module
//! state. The laws the engine obeys across operations are proved in
//! [`laws`].

pub mod env;
pub mod error;
pub mod finish;
pub mod inflect;
pub mod laws;
pub mod loader;
pub mod merge;
pub mod mirror;
pub mod parse;
pub mod raw;
pub mod shape;
pub mod text;
pub mod util;
pub mod value;
