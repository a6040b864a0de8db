//! Core of a filesystem indexing daemon: the entity model, the index store
//! with its ranked query, the scan and watch filters, the debouncing event
//! processor and the decisions of the daemon loop.
//!
//! Everything here works on plain values. Reading directories, receiving
//! notifications, waiting on timers and persisting the store are left to the
//! caller, which hands the library what it observed.
use vstd::prelude::*;

pub mod batch_laws;
pub mod config;
pub mod daemon;
pub mod database;
pub mod exclude;
pub mod models;
pub mod paths;
pub mod processor;
pub mod ranking;
pub mod retry;
pub mod scanner;
pub mod schema;
pub mod store_laws;
pub mod store_model;
pub mod text;
pub mod watcher;

verus! {

} // verus!
