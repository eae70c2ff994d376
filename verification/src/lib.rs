//! Verified core of the STRESS resilience benchmark reference implementation.

pub mod metrics;
pub mod order;
pub mod stats;
pub mod stress;
pub mod text;
