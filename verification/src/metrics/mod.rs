//! Behavioral proxies and the resilience index.

pub mod gds;
pub mod sri;
