//! Converts semi-structured XML responses of a resource-oriented web API
//! into strongly typed, aligned columns.  A sample document's shape
//! implicitly declares field names and types; the library infers a typed
//! schema from it and binds conforming data documents to that schema as
//! null-padded columns, or as a tree of plain values.  Every operation is
//! specified by its contract and verified; fetching the documents and
//! serializing the results belong to the unverified shell around the
//! library.

pub mod args;
pub mod columns;
pub mod error;
pub mod flat;
pub mod format;
pub mod json;
pub mod laws;
pub mod nav;
pub mod output;
pub mod pretty;
pub mod prim;
pub mod query;
pub mod query_param;
pub mod schema;
pub mod text;
pub mod xml;
