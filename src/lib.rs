//! Host, process and container telemetry: parsers for the kernel's counter
//! files, collectors that turn raw counters into normalized metrics, and a
//! bounded store of recent snapshots.
use vstd::prelude::*;

pub mod config;
pub mod container;
pub mod host;
pub mod metrics;
pub mod parser;
pub mod process;
pub mod resource;
pub mod store;
pub mod system;
pub mod text;

verus! {

} // verus!
