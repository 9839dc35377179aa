//! Build-time static-asset embedding: a declarative list of (name, file)
//! pairs becomes an immutable, queryable in-memory map from name to byte
//! payload, with optional block compression of each payload.
//!
//! The pipeline runs once, at build time: resolve the declared configuration
//! (`config`), take each file's bytes, optionally compress them (`codec`),
//! and assemble the fixed-cardinality map (`emit`). The emitted `StaticMap`
//! (`map`) is read-only and answers exact lookups, substring-disambiguation
//! lookups, positional lookups, and iteration in declaration order.

pub mod emit;
pub mod codec;
pub mod config;
pub mod map;
pub mod text;
