//! The removal family: three eviction policies with different guarantees.

use vstd::prelude::*;

use crate::cache::distinct_keys;
use crate::cache::has_key;
use crate::cache::key_index;
use crate::cache::value_of;
use crate::cache::Cache;
use crate::types::Entry;
use crate::types::Metadata;

verus! {

broadcast use crate::cache::lemma_view_def;

/// Whether position `i` is the one `remove_oldest` evicts from the abstract
/// store `s`: it holds the minimal insertion stamp, and every earlier
/// position holds a strictly younger one — the first of the oldest, a
/// deterministic tie-break.
pub open spec fn is_oldest_at(s: Seq<(Seq<char>, Metadata)>, i: int) -> bool {
    &&& 0 <= i < s.len()
    &&& forall|j: int| 0 <= j < s.len() ==> s[i].1.set_at <= (#[trigger] s[j]).1.set_at
    &&& forall|j: int| 0 <= j < i ==> (#[trigger] s[j]).1.set_at > s[i].1.set_at
}

/// The position [`is_oldest_at`] describes. Meaningful only on a non-empty
/// store, where exactly one position satisfies it.
pub open spec fn oldest_index(s: Seq<(Seq<char>, Metadata)>) -> int {
    choose|i: int| is_oldest_at(s, i)
}

/// At most one position is the first of the oldest.
pub proof fn lemma_oldest_unique(s: Seq<(Seq<char>, Metadata)>, i: int)
    requires
        is_oldest_at(s, i),
    ensures
        oldest_index(s) == i,
{
    let j = oldest_index(s);
    assert(is_oldest_at(s, j));
    if i < j {
        assert(s[i].1.set_at > s[j].1.set_at);
        assert(s[j].1.set_at >= s[i].1.set_at);
    } else if j < i {
        assert(s[j].1.set_at > s[i].1.set_at);
        assert(s[i].1.set_at >= s[j].1.set_at);
    }
}

impl Cache {
    /// Deletes the entry under `key` unconditionally — live or stale alike,
    /// with no expiry check — and returns the removed pair, or `None` when
    /// the key is absent.
    pub fn remove(&mut self, key: &str) -> (r: Option<Entry>)
        ensures
            !has_key(old(self)@, key@) ==> r is None && final(self)@ == old(self)@,
            has_key(old(self)@, key@) ==> ({
                &&& final(self)@ == old(self)@.remove(key_index(old(self)@, key@))
                &&& r matches Some(e) && e.0@ == key@ && e.1 == value_of(old(self)@, key@)
            }),
            distinct_keys(final(self)@),
    {
        proof {
            use_type_invariant(&*self);
        }
        let key_owned = key.to_owned();
        match self.find_index(&key_owned) {
            None => None,
            Some(i) => {
                proof {
                    crate::cache::lemma_key_at_index(self@, i as int);
                }
                let mut v: Vec<Entry> = Vec::new();
                core::mem::swap(&mut self.entries, &mut v);
                let ghost pre = crate::cache::entries_view(v@);
                let e = v.remove(i);
                proof {
                    assert(crate::cache::entries_view(v@) =~= pre.remove(i as int));
                    crate::cache::lemma_remove_keeps_distinct(pre, i as int);
                }
                self.entries = v;
                Some(e)
            },
        }
    }

    /// Evicts the entry that sits last in the store's iteration order — for
    /// this store, the last-appended position. This is a cheap
    /// pressure-relief eviction of an arbitrary entry under no recency
    /// guarantee: an overwrite leaves an entry's position unchanged, so the
    /// last position is not necessarily the newest write. Returns the
    /// removed pair, or `None` on an empty store.
    pub fn remove_last(&mut self) -> (r: Option<Entry>)
        ensures
            old(self)@.len() == 0 ==> r is None && final(self)@ == old(self)@,
            old(self)@.len() > 0 ==> ({
                &&& final(self)@ == old(self)@.drop_last()
                &&& r matches Some(e) && (e.0@, e.1) == old(self)@.last()
            }),
            distinct_keys(final(self)@),
    {
        proof {
            use_type_invariant(&*self);
        }
        let mut v: Vec<Entry> = Vec::new();
        core::mem::swap(&mut self.entries, &mut v);
        let ghost pre = crate::cache::entries_view(v@);
        let e = v.pop();
        proof {
            if pre.len() > 0 {
                assert(crate::cache::entries_view(v@) =~= pre.drop_last());
            } else {
                assert(crate::cache::entries_view(v@) =~= pre);
            }
        }
        self.entries = v;
        e
    }

    /// True recency-based eviction: removes the entry with the smallest
    /// insertion stamp, the earliest-inserted position on a tie. Costs a
    /// full scan, since the store is not ordered by insertion time. Returns
    /// the removed pair, or `None` on an empty store; every surviving
    /// entry was written no earlier than the one removed.
    pub fn remove_oldest(&mut self) -> (r: Option<Entry>)
        ensures
            old(self)@.len() == 0 ==> r is None && final(self)@ == old(self)@,
            old(self)@.len() > 0 ==> ({
                let i = oldest_index(old(self)@);
                &&& is_oldest_at(old(self)@, i)
                &&& final(self)@ == old(self)@.remove(i)
                &&& r matches Some(e) && (e.0@, e.1) == old(self)@[i]
                &&& r matches Some(e) && forall|j: int|
                    0 <= j < final(self)@.len() ==> (#[trigger] final(self)@[j]).1.set_at
                        >= e.1.set_at
            }),
            distinct_keys(final(self)@),
    {
        proof {
            use_type_invariant(&*self);
        }
        let n = self.entries.len();
        if n == 0 {
            return None;
        }
        let mut best: usize = 0;
        let mut i: usize = 1;
        while i < n
            invariant
                n == self@.len(),
                0 < n,
                best < i <= n,
                forall|j: int|
                    0 <= j < i ==> self@[best as int].1.set_at <= (#[trigger] self@[j]).1.set_at,
                forall|j: int|
                    0 <= j < best ==> (#[trigger] self@[j]).1.set_at > self@[best as int].1.set_at,
            decreases n - i,
        {
            if self.entries[i].1.set_at < self.entries[best].1.set_at {
                best = i;
            }
            i += 1;
        }
        proof {
            assert(is_oldest_at(self@, best as int));
            lemma_oldest_unique(self@, best as int);
        }
        let mut v: Vec<Entry> = Vec::new();
        core::mem::swap(&mut self.entries, &mut v);
        let ghost pre = crate::cache::entries_view(v@);
        let e = v.remove(best);
        proof {
            assert(crate::cache::entries_view(v@) =~= pre.remove(best as int));
            crate::cache::lemma_remove_keeps_distinct(pre, best as int);
            pre.remove_ensures(best as int);
        }
        self.entries = v;
        Some(e)
    }
}

} // verus!
