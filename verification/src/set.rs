//! The write path: insert or overwrite one entry.

use vstd::prelude::*;

use crate::cache::distinct_keys;
use crate::cache::has_key;
use crate::cache::key_index;
use crate::cache::Cache;
use crate::clock::now_millis;
use crate::types::Entry;
use crate::types::Metadata;
use crate::types::DEFAULT_EXPIRATION;

verus! {

broadcast use crate::cache::lemma_view_def;

/// The lifetime a write uses: the given one, or five minutes where the
/// caller gave none.
pub open spec fn ttl_or_default(ttl: Option<i64>) -> i64 {
    match ttl {
        Some(t) => t,
        None => DEFAULT_EXPIRATION,
    }
}

/// The abstract store after writing `md` under `k`: the record replaces the
/// one at `k`'s position when the key is present, and is appended otherwise.
pub open spec fn store_after_set(
    s: Seq<(Seq<char>, Metadata)>,
    k: Seq<char>,
    md: Metadata,
) -> Seq<(Seq<char>, Metadata)> {
    if has_key(s, k) {
        s.update(key_index(s, k), (k, md))
    } else {
        s.push((k, md))
    }
}

impl Cache {
    /// Inserts or overwrites the entry under `key` with the given payload,
    /// stamped as written at `now` and live for `ttl` milliseconds (five
    /// minutes where `ttl` is `None`). A write under a present key replaces
    /// its whole record and moves nothing; a write under a fresh key appends.
    /// Returns the entry count after the operation.
    pub fn set_at(
        &mut self,
        key: &str,
        value: serde_json::Value,
        ttl: Option<i64>,
        now: i64,
    ) -> (n: usize)
        ensures
            final(self)@ == store_after_set(
                old(self)@,
                key@,
                (Metadata { expiration_in_ms: ttl_or_default(ttl), set_at: now, data: value }),
            ),
            n == final(self)@.len(),
            n == old(self)@.len() + (if has_key(old(self)@, key@) {
                0int
            } else {
                1int
            }),
            distinct_keys(final(self)@),
    {
        proof {
            use_type_invariant(&*self);
        }
        let expiration_in_ms = match ttl {
            Some(t) => t,
            None => DEFAULT_EXPIRATION,
        };
        let md = Metadata { expiration_in_ms, set_at: now, data: value };
        let key_owned = key.to_owned();
        let found = self.find_index(&key_owned);
        let mut v: Vec<Entry> = Vec::new();
        core::mem::swap(&mut self.entries, &mut v);
        let ghost pre = crate::cache::entries_view(v@);
        match found {
            Some(i) => {
                v[i] = (key_owned, md);
                proof {
                    crate::cache::lemma_key_at_index(pre, i as int);
                    assert(crate::cache::entries_view(v@) =~= pre.update(
                        i as int,
                        (key@, (Metadata { expiration_in_ms: ttl_or_default(ttl), set_at: now, data: value })),
                    ));
                }
            },
            None => {
                v.push((key_owned, md));
                proof {
                    assert(crate::cache::entries_view(v@) =~= pre.push(
                        (key@, (Metadata { expiration_in_ms: ttl_or_default(ttl), set_at: now, data: value })),
                    ));
                }
            },
        }
        let n = v.len();
        self.entries = v;
        n
    }

    /// Inserts or overwrites the entry under `key`, stamped with the current
    /// wall-clock time; otherwise exactly [`Cache::set_at`]. The clock alone
    /// decides the new record's `set_at` field, so the contract fixes
    /// everything but that stamp. Returns the entry count after the
    /// operation.
    pub fn set(&mut self, key: &str, value: serde_json::Value, ttl: Option<i64>) -> (n: usize)
        ensures
            exists|now: i64|
                final(self)@ == store_after_set(
                    old(self)@,
                    key@,
                    (Metadata { expiration_in_ms: ttl_or_default(ttl), set_at: now, data: value }),
                ),
            n == final(self)@.len(),
            n == old(self)@.len() + (if has_key(old(self)@, key@) {
                0int
            } else {
                1int
            }),
            distinct_keys(final(self)@),
    {
        let now = now_millis();
        self.set_at(key, value, ttl, now)
    }
}

} // verus!
