//! Verified core of a telemetry ingestion service: configuration resolution,
//! comma-separated list handling, cache-tier decisions, newline-delimited frame
//! splitting and the ingestion step machine that drives each request.

pub mod config;
pub mod framing;
pub mod ingest;
pub mod text;
pub mod tiers;
