//! Durable local admission spool, record normalization and segment building.

pub mod checkpoint;
pub mod checkpoint_plan;
pub mod durable_record;
pub mod error;
pub mod estimate;
pub mod frame;
pub mod laws;
pub mod materialize;
pub mod model;
pub mod normalization;
pub mod output_log;
pub mod output_recovery;
pub mod record;
pub mod recovery;
pub mod segment;
pub mod segment_builders;
pub mod spool;
