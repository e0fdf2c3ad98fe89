//! Core of a login-status reporter: samples per-cgroup CPU accounting
//! counters, persists a timestamped snapshot across invocations, and turns
//! the difference between two snapshots into a filtered, labeled, sorted
//! utilization report.
//!
//! Entity names are raw byte strings as read from the hierarchy, loads are
//! exact rationals, and the visibility threshold is parts per million of
//! one core, so the whole computation is integer arithmetic with proved
//! contracts. Reading files, the terminal and the clock stay outside the
//! library; it consumes and produces plain values.

pub mod bytes;
pub mod codec;
pub mod cpustat;
pub mod delta;
pub mod labels;
pub mod last_run;
pub mod render;
pub mod report;
pub mod snapshot;
