//! The unit of storage: a type-erased payload plus its expiry bookkeeping.

use vstd::prelude::*;

verus! {

/// The default lifetime of an entry, five minutes in milliseconds.
pub const DEFAULT_EXPIRATION: i64 = 1000 * 60 * 5;

/// The dynamic, type-erased payload type. The cache never looks inside a
/// value of it; it only stores, clones and hands back whole values.
#[verifier::external_type_specification]
#[verifier::external_body]
pub struct ExValue(serde_json::Value);

/// Relies on `serde_json::Value`'s derived `Clone`: it rebuilds the same
/// tree, so the clone is the same abstract value.
pub assume_specification[ <serde_json::Value as Clone>::clone ](
    v: &serde_json::Value,
) -> (r: serde_json::Value)
    ensures
        r == *v,
;

/// Relies on `serde_json::Value`'s `Default`, which returns `Value::Null`.
/// Nothing is claimed of the result beyond its existence.
pub assume_specification[ <serde_json::Value as Default>::default ]() -> serde_json::Value;

/// One stored record: the encoded payload, the moment it was written
/// (milliseconds since the epoch) and its lifetime in milliseconds.
///
/// All three fields are immutable once the record is in the store; the only
/// mutation the cache performs is full replacement or removal.
pub struct Metadata {
    /// How long the entry stays live, counted from `set_at`, in milliseconds.
    pub expiration_in_ms: i64,
    /// When the entry was written, in milliseconds since the epoch.
    pub set_at: i64,
    /// The caller's value, encoded into a dynamic tree.
    pub data: serde_json::Value,
}

/// A stored pair as handed back by the removal and snapshot operations.
pub type Entry = (String, Metadata);

/// The read path's liveness test: an entry is live at `now` while the time
/// elapsed since its insertion is strictly below its lifetime.
pub open spec fn live_at(m: Metadata, now: i64) -> bool {
    now - m.set_at < m.expiration_in_ms
}

/// The sweep's retention test: the sweep keeps an entry at `now` while the
/// elapsed time is at most its lifetime. Note the non-strict comparison: an
/// entry exactly at its expiry boundary is kept by the sweep but already
/// counts as stale on the read path, whose test is strict.
pub open spec fn retained_at(m: Metadata, now: i64) -> bool {
    now - m.set_at <= m.expiration_in_ms
}

impl Metadata {
    /// Whether this record is live at `now`; the executable form of
    /// [`live_at`].
    pub fn is_live_at(&self, now: i64) -> (r: bool)
        ensures
            r == live_at(*self, now),
    {
        (now as i128) - (self.set_at as i128) < (self.expiration_in_ms as i128)
    }

    /// Whether the sweep keeps this record at `now`; the executable form of
    /// [`retained_at`].
    pub fn is_retained_at(&self, now: i64) -> (r: bool)
        ensures
            r == retained_at(*self, now),
    {
        (now as i128) - (self.set_at as i128) <= (self.expiration_in_ms as i128)
    }
}

impl Default for Metadata {
    /// A record stamped with the current wall-clock time, carrying the
    /// default lifetime and a null payload.
    fn default() -> (r: Self)
        ensures
            r.expiration_in_ms == DEFAULT_EXPIRATION,
    {
        Metadata {
            expiration_in_ms: DEFAULT_EXPIRATION,
            set_at: crate::clock::now_millis(),
            data: serde_json::Value::default(),
        }
    }
}

impl Clone for Metadata {
    /// A deep copy that is the same abstract record.
    fn clone(&self) -> (r: Self)
        ensures
            r == *self,
    {
        Metadata {
            expiration_in_ms: self.expiration_in_ms,
            set_at: self.set_at,
            data: self.data.clone(),
        }
    }
}

} // verus!
