//! A verified read-only decoder and scan engine for the page-oriented,
//! B-tree-organized database file format used by embedded SQL databases.
//!
//! The library works on a byte image of the database file. It decodes the
//! fixed 100-byte file header, per-page headers and cell pointer arrays,
//! variable-length integers, record payloads (following overflow chains),
//! and whole table B-trees, and answers a restricted class of `SELECT`
//! queries against them. Reading the file from disk, command-line handling
//! and output formatting are left to the embedding program.

pub mod btree;
pub mod bytes;
pub mod db;
pub mod errors;
pub mod payload;
pub mod query_parser;
pub mod reader;
pub mod record;
pub mod schema;
pub mod session;
pub mod text;
pub mod types;
pub mod varint;
