//! Verified core of a per-season player statistics pipeline.
//!
//! The library cleans loosely-typed season rows into strongly-typed
//! records, aggregates them into per-player career summaries, and answers
//! top-K ranking queries over both views. File ingestion, command
//! selection and table rendering live outside the library and only
//! exchange plain values with it.

pub mod aggregate;
pub mod parse;
pub mod rank;
pub mod record;
pub mod render;
