//! Verified core of an agent memory system: the decisions, rankings,
//! parsers and text builders that sit between the SQLite storage layer,
//! the embedding model and the MCP/CLI front ends.
pub mod models;
pub mod text;
pub mod numfmt;
pub mod numparse;
pub mod ranking;
pub mod fusion;
pub mod retrieval;
pub mod grouping;
pub mod textsort;
pub mod patterns;
pub mod synopsis;
pub mod context;
pub mod cli_args;
pub mod tools;
pub mod records;
pub mod timestamp;
pub mod metrics;
pub mod embedding;
