//! Periodic republishing of monotonic, per-CPU-sharded counters as
//! delta-based metric events.
//!
//! An external instrumentation program maintains a table of per-CPU counter
//! shards.  This crate snapshots that table on a fixed period, computes the
//! per-CPU increase since the previous snapshot, and drives a set of
//! registered metric series: one series per aggregate dimension, which
//! receives the sum of the per-CPU deltas, and one series per (per-CPU
//! dimension, online CPU) pair, which receives only that CPU's delta.
//!
//! The counter source and the metric sink are injected capabilities: the
//! in-memory implementations in [`source`] and [`sink`] satisfy the same
//! read and increment contracts that a production binding does, so the
//! emission engine in [`engine`] is verified once against both.

mod sealed;

pub mod bpf;
pub mod engine;
pub mod errors;
pub mod meter;
pub mod sink;
pub mod source;
