//! Durable catalog state kept in an append-only, totally ordered log shard.
//!
//! The library materializes the log into an in-memory cache, fences out stale
//! writers with monotonic epochs, and appends atomically with a conditional
//! write guarded by the shard's upper.
//!
//! - `epoch`: the fenceable writer generation.
//! - `update`, `order`, `consolidate`: logged updates, a total order on their
//!   payloads, their consolidation and their application order.
//! - `snapshot`: replaying updates into per-collection maps.
//! - `applier`: the per-phase processing of each update.
//! - `log`: an in-memory log shard with conditional append.
//! - `handle`, `catalog`, `trace`: the log-backed state cache and the
//!   operations on it.
//! - `upgrade`, `shard`: the version gate and shard identifiers.
//! - `usage`: the append-only collections, their startup caches and pruning.
//! - `retry`: bounded backoff for operator edits.
//! - `laws`: properties that relate several operations.
//! - `logging`: replica logging configuration.
use vstd::prelude::*;

pub mod error;
pub mod epoch;
pub mod update;
pub mod order;
pub mod consolidate;
pub mod snapshot;
pub mod applier;
pub mod log;
pub mod handle;
pub mod upgrade;
pub mod shard;
pub mod catalog;
pub mod laws;
pub mod trace;
pub mod retry;
pub mod logging;
pub mod usage;

verus! {

} // verus!
