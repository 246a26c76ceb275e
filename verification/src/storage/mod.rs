//! The storage layer: records, the schema migration runner, and the decisions
//! behind every query.
pub mod config;
pub mod content;
pub mod error;
pub mod files;
pub mod graph;
pub mod manifest;
pub mod migrations;
pub mod record;
pub mod round_trip;
pub mod rows;
pub mod statements;
