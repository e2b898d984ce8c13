//! Catalog of smart-contract package summaries: ingestion of a summaries
//! directory listing into an immutable catalog, name-based queries over it,
//! and canonical rendering of types and definition signatures.
pub mod model;
pub mod render;
pub mod signature;
pub mod address;
pub mod catalog;
pub mod parser;
pub mod service;
pub mod laws;
