//! The read path: lazy-expiry lookup, and the expiry-blind metadata read.

use vstd::prelude::*;

use crate::cache::distinct_keys;
use crate::cache::has_key;
use crate::cache::key_index;
use crate::cache::value_of;
use crate::cache::Cache;
use crate::clock::now_millis;
use crate::types::live_at;
use crate::types::Entry;
use crate::types::Metadata;

verus! {

broadcast use crate::cache::lemma_view_def;

/// What one read of `k` at time `now` does to the abstract store and
/// returns. A miss leaves the store as it was. A hit on a live entry
/// returns its payload and changes nothing. A hit on a stale entry removes
/// it — lazy expiration — and reports a miss.
pub open spec fn read_outcome(
    pre: Seq<(Seq<char>, Metadata)>,
    post: Seq<(Seq<char>, Metadata)>,
    k: Seq<char>,
    now: i64,
    r: Option<serde_json::Value>,
) -> bool {
    if !has_key(pre, k) {
        post == pre && r is None
    } else if live_at(value_of(pre, k), now) {
        post == pre && r == Some(value_of(pre, k).data)
    } else {
        post == pre.remove(key_index(pre, k)) && r is None
    }
}

impl Cache {
    /// Looks `key` up as of time `now`. Returns a copy of the stored payload
    /// while the entry is live (strictly within its lifetime); evicts the
    /// entry and returns `None` once it is stale; returns `None` untouched
    /// on an absent key.
    pub fn get_at(&mut self, key: &str, now: i64) -> (r: Option<serde_json::Value>)
        ensures
            read_outcome(old(self)@, final(self)@, key@, now, r),
            distinct_keys(final(self)@),
    {
        proof {
            use_type_invariant(&*self);
        }
        let key_owned = key.to_owned();
        match self.find_index(&key_owned) {
            None => None,
            Some(i) => {
                proof {
                    crate::cache::lemma_key_at_index(self@, i as int);
                }
                if self.entries[i].1.is_live_at(now) {
                    Some(self.entries[i].1.data.clone())
                } else {
                    let mut v: Vec<Entry> = Vec::new();
                    core::mem::swap(&mut self.entries, &mut v);
                    let ghost pre = crate::cache::entries_view(v@);
                    v.remove(i);
                    proof {
                        assert(crate::cache::entries_view(v@) =~= pre.remove(i as int));
                        crate::cache::lemma_remove_keeps_distinct(pre, i as int);
                    }
                    self.entries = v;
                    None
                }
            },
        }
    }

    /// Looks `key` up as of the current wall-clock time; otherwise exactly
    /// [`Cache::get_at`]. The clock alone decides which of the read
    /// outcomes applies.
    pub fn get(&mut self, key: &str) -> (r: Option<serde_json::Value>)
        ensures
            exists|now: i64| read_outcome(old(self)@, final(self)@, key@, now, r),
            !has_key(old(self)@, key@) ==> r is None && final(self)@ == old(self)@,
            r is Some ==> final(self)@ == old(self)@ && has_key(old(self)@, key@) && r == Some(
                value_of(old(self)@, key@).data,
            ),
            distinct_keys(final(self)@),
    {
        let now = now_millis();
        let r = self.get_at(key, now);
        proof {
            assert(read_outcome(old(self)@, self@, key@, now, r));
        }
        r
    }

    /// Returns a copy of the record under `key` with no liveness check and
    /// no eviction: a pure introspection read that, unlike [`Cache::get`],
    /// shows a stale entry as long as nothing has removed it.
    pub fn get_metadata(&self, key: &str) -> (r: Option<Metadata>)
        ensures
            r == (if has_key(self@, key@) {
                Some(value_of(self@, key@))
            } else {
                None::<Metadata>
            }),
    {
        let key_owned = key.to_owned();
        match self.find_index(&key_owned) {
            None => None,
            Some(i) => {
                proof {
                    use_type_invariant(self);
                    crate::cache::lemma_key_at_index(self@, i as int);
                }
                Some(self.entries[i].1.clone())
            },
        }
    }
}

} // verus!
