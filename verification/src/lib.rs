//! Verified core of a swap-transaction ingestion pipeline.
//!
//! The library normalizes heterogeneous multi-leg swap payloads from
//! paginated upstream feeds into canonical records, tracks transactions
//! that are not yet final, and loads batches into a store model with
//! idempotent, conflict-tolerant semantics.  Network and database I/O
//! live outside the library; every decision the pipeline makes is
//! verified here.

pub mod amount;
pub mod asset;
pub mod chainflip;
pub mod checkpoint;
pub mod coingecko;
pub mod cron;
pub mod errors;
pub mod midgard;
pub mod models;
pub mod num;
pub mod passes;
pub mod pending;
pub mod query;
pub mod scan;
pub mod store;
pub mod timefmt;
pub mod transform;

use vstd::prelude::*;

verus! {

/// Which upstream data source a record belongs to; each source has its
/// own pending-retry partition and its own storage table.
#[derive(Debug, PartialEq, Eq, Structural, Clone, Copy)]
pub enum SwapType {
    NATIVE,
    TRADE,
}

} // verus!
