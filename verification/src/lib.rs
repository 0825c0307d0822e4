//! Blast-radius engine: extraction of file boundaries (definitions, imports,
//! references, literals, framework hints) from source files, inference of
//! logical definitions, and graph queries over the resulting index.

pub mod lemmas;
pub mod text;
pub mod models;
pub mod syntax;
pub mod analysis;
pub mod schema;
pub mod analyzer;
pub mod settings;
pub mod inference;
pub mod manifest;
pub mod indexer;
