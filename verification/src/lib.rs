//! A persistent, searchable corpus of short text records ("quotes"):
//! monotonically-assigned ids, exact-key lookup, uniform random sampling,
//! relevance-ranked full-text search with inline highlighting, and
//! soft-deletion that replaces a record's text with a tombstone.
//!
//! The engine in [`engine`] owns a record store ([`store`]) and a search
//! index ([`index`]) and keeps them consistent; [`text`] holds the
//! tokenizer and the highlighter, [`render`] the reply text, and
//! [`laws`] the proved laws of the whole.

pub mod config;
pub mod datefmt;
pub mod engine;
pub mod index;
pub mod laws;
pub mod render;
pub mod rng;
pub mod stats;
pub mod store;
pub mod text;
