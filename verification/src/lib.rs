//! Format detection and schema inference over structured-data byte sources.
//!
//! The crate classifies a byte source as one of several structured-data
//! formats and infers a unified, type-annotated schema for its fields.
//! Heterogeneous native type systems are reconciled into one canonical
//! type lattice with a deterministic, total `merge` operation.

pub mod avro;
pub mod csv;
pub mod detect;
pub mod errors;
pub mod formats;
pub mod json;
pub mod orc;
pub mod parquet;
pub mod render;
pub mod schema;
pub mod text;
pub mod util;
