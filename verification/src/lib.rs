//! A backup engine for a copy-on-write pooled filesystem: it selects
//! datasets by a configured filter, snapshots them under one label per
//! run, decides per task between full and incremental sends, plans where
//! each stream lands, and keeps the run, step and reset-counter history
//! that the next run's decisions are drawn from.
//!
//! The library holds every decision and all bookkeeping, verified; the
//! blocking work — the filesystem engine, destination I/O, the embedded
//! SQL database, signals — lives with the binary that embeds it, which
//! hands the outcomes back in as plain values.

pub mod calendar;
pub mod config;
pub mod destination;
pub mod ensured;
pub mod messages;
pub mod strategy;
pub mod task_manager;
pub mod text;
pub mod zfs_manager;
