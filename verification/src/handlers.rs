//! Payloads the HTTP handlers answer with.

pub mod health;
pub mod packet;
