//! Core of a process-metrics harvester for a terminal system monitor.
//!
//! Each harvesting cycle takes the current enumeration of live processes
//! (raw cumulative counters), consults the per-pid sample store for the
//! previous cycle's counters, and produces one [`record::ProcessHarvest`]
//! per process with rates and percentages derived from the counter deltas.
//! A total ordering over the produced records, selectable by key and
//! direction, is provided for display.

pub mod engine;
pub mod order;
pub mod rates;
pub mod record;
pub mod sort;
pub mod sorting;
pub mod store;
