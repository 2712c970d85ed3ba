//! Verified core of the telemetry (TLM) server: server configuration, the
//! database connection pool, the schema migration, the single-value store
//! statements, packet upload framing and the HTTP handler payloads.

pub mod clock;
pub mod config;
pub mod database;
pub mod packet;
pub mod errors;
pub mod handlers;
