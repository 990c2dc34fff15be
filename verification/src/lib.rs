//! Pacing, time-bucket aggregation and sliding-window alerting for a stream
//! of HTTP access-log events.
//!
//! Every function here works on plain values and reports what it observed
//! as a return value; printing, sleeping and reading the log are left to
//! the caller.

pub mod aggregate;
pub mod buckets;
pub mod config;
pub mod engine;
pub mod monitor;
pub mod pacing;
pub mod pipeline;
