//! Heartbeats: an empty payload.

pub mod encoder;
