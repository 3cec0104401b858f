//! Ingestion and query analysis for Elucid.

pub mod calendar;
pub mod catalog;
pub mod codec;
pub mod decimal;
pub mod digest;
pub mod identity;
pub mod ingest;
pub mod ingestion;
pub mod json;
pub mod json_grammar;
pub mod language;
pub mod text;
