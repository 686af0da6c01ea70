//! Verified core of an asset-leasing ledger.
//!
//! The library registers assets, drives time-bounded leases between a lessor
//! (the asset's owner) and a lessee through the lifecycle
//! `Pending -> Active -> Completed` (with a dispute overlay on `Active`),
//! computes amounts owed and penalties, and keeps per-user portfolios and one
//! global statistics record consistent with the individual records.
//!
//! The hosting environment's facilities (persistent key-value storage,
//! caller authentication, the clock, and diagnostics) are external
//! collaborators: callers authenticate parties and supply the current
//! timestamp, and the ledger state lives in [`ledger::AssetLeasingContract`].

pub mod counting;
pub mod laws;
pub mod ledger;
pub mod types;
