//! Verified core of a Linux system-metrics recorder: the records exchanged
//! with the kernel-side probes, the decisions those probes take, the
//! coordinator's timing rules, and parsers for `/proc/meminfo` and
//! `/proc/stat`.

pub mod event_kind;
pub mod common;
pub mod text;
pub mod system_metrics;
pub mod probes;
pub mod pipeline;
