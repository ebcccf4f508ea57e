//! Core of a bucket-synchronization tool: glob-based file filtering,
//! destination-prefix inference against a cached bucket listing, and a
//! bounded-concurrency upload scheduler with aggregated outcome reporting.

pub mod config;
pub mod handlers;
pub mod managers;
pub mod s3;
pub mod text;
pub mod utils;
