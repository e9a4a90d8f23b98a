//! A named on-disk object cache, verified.
//!
//! The library resolves logical `(namespace, key)` pairs to file paths,
//! frames a single encoded record into the cache's one-record file payload,
//! and decides every directory- and file-level outcome exactly.  All
//! filesystem effects are modelled by an in-memory store ([`store::MemStore`]),
//! against which every operation and every stated law is proved; a thin
//! unverified shell maps the same operations onto a real filesystem.

pub mod cache;
pub mod error;
pub mod payload;
pub mod store;

pub use cache::Cache;
pub use error::CacheError;
