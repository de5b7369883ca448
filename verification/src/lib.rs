//! Job scheduling and model-resource lifecycle for a bookkeeping inference service.
//!
//! The crate holds the decisions of the service as verified state machines:
//! admission of jobs under a concurrency ceiling, the three-state life of a
//! job record, the bounded retention of finished records with an append-only
//! overflow log, and an idle-timeout cache of heavyweight model resources.

pub mod runner;
pub mod sample;
pub mod schedule;
pub mod state;
pub mod swap;
pub mod task;
pub mod args;
pub mod bill;
pub mod cli;
pub mod error;
pub mod key;
pub mod laws;
pub mod models;
pub mod text;
