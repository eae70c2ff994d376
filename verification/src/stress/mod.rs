//! Stress injection: the configurations of the injected faults and what each
//! backend does with them.

pub mod config;
pub mod linux;
pub mod simulated;
pub mod stressng;
pub mod toxiproxy;
