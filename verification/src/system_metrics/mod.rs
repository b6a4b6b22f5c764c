//! System-wide metrics read from `/proc`.

pub mod types;
pub mod global_metrics;
pub mod cpu;
