//! Ingestion of lines of JSON into the columns of tables.

pub mod batcher;
pub mod dead_letter_writer;
pub mod event;
pub mod laws;
pub mod line_source;
pub mod normalizer;
pub mod run;
pub mod schema;
pub mod sink;
pub mod stage_error;
pub mod storage;
pub mod wal;
