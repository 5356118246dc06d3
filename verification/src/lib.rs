//! A process-local, generic time-to-live (TTL) key/value cache.
//!
//! The store keeps string keys, each bound to a [`Metadata`] record: a
//! type-erased `serde_json::Value` payload stamped with its insertion time
//! and a caller-chosen lifetime in milliseconds. Entries expire lazily (a
//! read that finds a stale entry evicts it) or in bulk through an explicit
//! sweep. Every operation's effect on the store is stated in its contract
//! over the cache's view, a sequence of `(key, Metadata)` pairs in
//! insertion order.

mod cache;
mod clock;
mod get;
mod laws;
mod remove;
mod set;
mod types;

pub use cache::distinct_keys;
pub use cache::has_key;
pub use cache::key_index;
pub use cache::lemma_key_at_index;
pub use cache::store_after_sweep;
pub use cache::value_of;
pub use cache::Cache;
pub use get::read_outcome;
pub use laws::lemma_distinct_inserts;
pub use laws::lemma_expired_read_evicts;
pub use laws::lemma_overwrite_idempotent;
pub use laws::lemma_round_trip;
pub use laws::lemma_set_preserves_others;
pub use laws::lemma_set_updates_key;
pub use laws::lemma_sweep_exact;
pub use laws::store_after_sets;
pub use remove::is_oldest_at;
pub use remove::lemma_oldest_unique;
pub use remove::oldest_index;
pub use set::store_after_set;
pub use set::ttl_or_default;
pub use types::live_at;
pub use types::retained_at;
pub use types::Entry;
pub use types::Metadata;
pub use types::DEFAULT_EXPIRATION;
