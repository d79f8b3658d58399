//! Deferred, tile-based data pipeline for an interactive profile viewer.
//!
//! A renderer asks a data source for time-windowed, hierarchically addressed
//! tiles without blocking; requests are deduplicated by a ledger of
//! fingerprints, results arrive later through a work queue and are folded
//! into per-entry caches.

pub mod automaton;
pub mod data;
pub mod deferred_data;
pub mod entry_id;
pub mod interval;
pub mod ledger;
pub mod queue;
pub mod schema;
pub mod search;
pub mod server;
pub mod tile_list;
pub mod timeline;
pub mod tile_store;
pub mod wrapper;
pub mod zoom;
