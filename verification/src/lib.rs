//! Relay: the scheduling core of a distributed job runner.
//!
//! The library holds the scheduler's state (jobs, attempts, workers and
//! leases) and every transition on it, each with a contract over the
//! mathematical view of that state.
pub mod wrappers;
pub mod string_map;
pub mod models;
pub mod sorting;
pub mod store;
pub mod scheduler;
pub mod worker;
pub mod benchmark;
pub mod chaos;
pub mod cli;
pub mod laws;
pub mod holding;
pub mod outcomes;
pub mod text;
pub mod api;
pub mod rows;
