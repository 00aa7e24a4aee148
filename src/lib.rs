//! Indexing of source repositories into a property graph of code entities:
//! the entity model, the per-language extraction rules, and the resolution of
//! imports and parameter-type references, each with a verified contract.
pub mod text;
pub mod types;
pub mod util;
pub mod parser;
pub mod go;
pub mod typescript;
pub mod graph;
pub mod resolve;
pub mod snippet;
pub mod adapter;
pub mod update;
pub mod store;
pub mod query;
pub mod syntax;
