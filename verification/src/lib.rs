//! Aether: the decisions of a master/worker task cluster.
//!
//! The master keeps a registry of workers, fed by their heartbeats, and a
//! queue of pending tasks, each split into sub-batches. A scheduler step takes
//! one sub-batch from the front task and hands it to the worker with the
//! highest free capacity; the workers run the commands and stream their
//! output back. Transport, processes, clocks and floating-point telemetry stay
//! with the caller, which hands this library plain values.
pub mod text;
pub mod protocol;
pub mod task;
pub mod queue;
pub mod registry;
pub mod master;
pub mod worker;
pub mod cli;
