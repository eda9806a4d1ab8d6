//! A versioned index of guideline corpora: parsing, the generation of guidelines
//! and categories that is served, the namespaced cache schema, embedding text,
//! search-result shaping, and the re-index decisions.

pub mod cache;
pub mod compose;
pub mod config;
pub mod error;
pub mod fingerprint;
pub mod generation;
pub mod lookup;
pub mod model;
pub mod nodejs;
pub mod parser;
pub mod pattern;
pub mod rust_api;
pub mod search;
pub mod text;
pub mod update;
