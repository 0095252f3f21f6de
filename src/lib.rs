//! Change-data-capture ingestion engine: replication state and framing,
//! mutation decoding, per-index segments and their columnar pivot.

pub mod value;
pub mod record;
pub mod state;
pub mod protocol;
pub mod event;
pub mod errors;
pub mod schema;
pub mod segment;
pub mod terminator;
pub mod collection;
pub mod config;
