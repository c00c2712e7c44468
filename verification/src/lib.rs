//! Synchronization engine for a watch-only wallet that learns about its
//! transactions through a batched, Electrum-style chain-query capability.
//!
//! The engine reconciles a persisted view of the wallet (derived scripts,
//! raw transactions, per-transaction summaries, unspent outputs) against the
//! state reported by a remote chain-data source.  Both collaborators — the
//! remote query capability and the persistent store — are traits whose
//! behaviour is pinned by contracts over ghost views, so that the whole sync
//! pass is verified against them.

pub mod chunks;
pub mod client;
pub mod collections;
pub mod details;
pub mod download;
pub mod headers;
pub mod laws;
pub mod scan;
pub mod setup;
pub mod store;
pub mod types;
