//! A verified core for an HTTP client runtime: a plugin hook pipeline with
//! deterministic dispatch order and failure propagation, a bounded retry
//! engine, and a chain of byte-stream transforms that re-frame and pace
//! chunks while preserving their content byte for byte.
//!
//! Network transport, the file system and the clock stay outside this crate;
//! callers drive the verified state machines here with the values those
//! collaborators produce.

pub mod client;
pub mod config;
pub mod driver;
pub mod error;
pub mod json;
pub mod plugin;
pub mod retry;
pub mod sec;
pub mod storage;
pub mod streaming;
