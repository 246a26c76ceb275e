//! The memory core: ingestion and recall.
pub mod classifier;
pub mod embedding;
pub mod entities;
pub mod error;
pub mod extraction;
pub mod hits;
pub mod pipeline;
pub mod recall;
pub mod request;
pub mod response;
pub mod retrieval;
pub mod scoring;
