//! The store: an exclusively owned, ordered collection of keyed records.

use vstd::prelude::*;

use crate::clock::now_millis;
use crate::types::retained_at;
use crate::types::Entry;
use crate::types::Metadata;

verus! {

broadcast use vstd::seq_lib::group_filter_ensures;

/// The abstraction of a vector of stored pairs: each key as its character
/// sequence, next to its record.
pub(crate) open spec fn entries_view(s: Seq<Entry>) -> Seq<(Seq<char>, Metadata)> {
    s.map_values(|e: Entry| (e.0@, e.1))
}

/// Whether the abstract store `s` holds the key `k`.
pub open spec fn has_key(s: Seq<(Seq<char>, Metadata)>, k: Seq<char>) -> bool {
    exists|i: int| 0 <= i < s.len() && (#[trigger] s[i]).0 == k
}

/// The position of the key `k` in the abstract store `s`. Meaningful only
/// when [`has_key`] holds; under [`distinct_keys`] it is the one position
/// whose key is `k`.
pub open spec fn key_index(s: Seq<(Seq<char>, Metadata)>, k: Seq<char>) -> int {
    choose|i: int| 0 <= i < s.len() && (#[trigger] s[i]).0 == k
}

/// The record stored under the key `k` in the abstract store `s`.
/// Meaningful only when [`has_key`] holds.
pub open spec fn value_of(s: Seq<(Seq<char>, Metadata)>, k: Seq<char>) -> Metadata {
    s[key_index(s, k)].1
}

/// No two positions of the abstract store hold the same key.
pub open spec fn distinct_keys(s: Seq<(Seq<char>, Metadata)>) -> bool {
    forall|i: int, j: int| 0 <= i < j < s.len() ==> (#[trigger] s[i]).0 != (#[trigger] s[j]).0
}

/// Under distinct keys, a position whose key is `k` is the one position
/// [`key_index`] denotes.
pub proof fn lemma_key_at_index(s: Seq<(Seq<char>, Metadata)>, i: int)
    requires
        distinct_keys(s),
        0 <= i < s.len(),
    ensures
        has_key(s, s[i].0),
        key_index(s, s[i].0) == i,
{
    let k = s[i].0;
    assert(has_key(s, k));
    let j = key_index(s, k);
    assert(0 <= j < s.len() && s[j].0 == k);
}

/// The abstract store after a sweep at `now`: exactly the entries the
/// retention test keeps, unchanged and in their original order.
pub open spec fn store_after_sweep(
    s: Seq<(Seq<char>, Metadata)>,
    now: i64,
) -> Seq<(Seq<char>, Metadata)> {
    s.filter(|e: (Seq<char>, Metadata)| retained_at(e.1, now))
}

/// Every element of a filtered store sits somewhere in the original.
pub(crate) proof fn lemma_filter_element_index(
    s: Seq<(Seq<char>, Metadata)>,
    pred: spec_fn((Seq<char>, Metadata)) -> bool,
    a: int,
)
    requires
        0 <= a < s.filter(pred).len(),
    ensures
        exists|j: int| 0 <= j < s.len() && (#[trigger] s[j]) == s.filter(pred)[a],
    decreases s.len(),
{
    reveal(Seq::filter);
    let rest = s.drop_last();
    if pred(s.last()) && a == s.filter(pred).len() - 1 {
        assert(s[s.len() - 1] == s.filter(pred)[a]);
    } else {
        lemma_filter_element_index(rest, pred, a);
        let j = choose|j: int| 0 <= j < rest.len() && (#[trigger] rest[j]) == rest.filter(pred)[a];
        assert(s[j] == s.filter(pred)[a]);
    }
}

/// Filtering keeps the keys pairwise distinct.
pub(crate) proof fn lemma_filter_keeps_distinct(
    s: Seq<(Seq<char>, Metadata)>,
    pred: spec_fn((Seq<char>, Metadata)) -> bool,
)
    requires
        distinct_keys(s),
    ensures
        distinct_keys(s.filter(pred)),
    decreases s.len(),
{
    reveal(Seq::filter);
    if s.len() > 0 {
        let rest = s.drop_last();
        assert(distinct_keys(rest));
        lemma_filter_keeps_distinct(rest, pred);
        if pred(s.last()) {
            let out = s.filter(pred);
            assert forall|a: int, b: int| 0 <= a < b < out.len() implies (#[trigger] out[a]).0 != (
            #[trigger] out[b]).0 by {
                if b < out.len() - 1 {
                    assert(rest.filter(pred)[a] == out[a]);
                    assert(rest.filter(pred)[b] == out[b]);
                } else {
                    assert(rest.filter(pred)[a] == out[a]);
                    lemma_filter_element_index(rest, pred, a);
                    let j = choose|j: int|
                        0 <= j < rest.len() && (#[trigger] rest[j]) == rest.filter(pred)[a];
                    assert(s[j] == out[a]);
                    assert(s[j].0 != s[s.len() - 1].0);
                }
            }
        }
    }
}

/// Removing one position keeps the remaining keys pairwise distinct.
pub(crate) proof fn lemma_remove_keeps_distinct(s: Seq<(Seq<char>, Metadata)>, i: int)
    requires
        distinct_keys(s),
        0 <= i < s.len(),
    ensures
        distinct_keys(s.remove(i)),
{
    s.remove_ensures(i);
    let t = s.remove(i);
    assert forall|a: int, b: int| 0 <= a < b < t.len() implies (#[trigger] t[a]).0 != (
    #[trigger] t[b]).0 by {
        let sa = if a < i {
            a
        } else {
            a + 1
        };
        let sb = if b < i {
            b
        } else {
            b + 1
        };
        assert(t[a] == s[sa]);
        assert(t[b] == s[sb]);
    }
}

/// The TTL store: a mapping from string keys to [`Metadata`] records, keys
/// unique, kept in insertion order. Its view is the sequence of
/// `(key, record)` pairs in that order.
///
/// One `Cache` value is one independent store; nothing is shared between
/// two of them. A caller that wants the store shared across tasks wraps it
/// in a lock of its choosing, so that each operation runs as one critical
/// section.
pub struct Cache {
    pub(crate) entries: Vec<Entry>,
}

impl View for Cache {
    type V = Seq<(Seq<char>, Metadata)>;

    closed spec fn view(&self) -> Seq<(Seq<char>, Metadata)> {
        entries_view(self.entries@)
    }
}

/// Within the crate, a cache's view is the mapped view of its entry vector.
pub(crate) broadcast proof fn lemma_view_def(c: Cache)
    ensures
        #[trigger] c@ == entries_view(c.entries@),
{
}

impl Cache {
    #[verifier::type_invariant]
    pub(crate) open spec fn wf(self) -> bool {
        distinct_keys(self.view())
    }

    /// An empty store.
    pub fn new() -> (c: Cache)
        ensures
            c@ == Seq::<(Seq<char>, Metadata)>::empty(),
    {
        Cache { entries: Vec::new() }
    }

    /// The current entry count.
    pub fn size(&self) -> (n: usize)
        ensures
            n == self@.len(),
    {
        self.entries.len()
    }

    /// Removes all entries at once; the store itself stays usable.
    pub fn clear(&mut self)
        ensures
            final(self)@ == Seq::<(Seq<char>, Metadata)>::empty(),
    {
        let mut drained: Vec<Entry> = Vec::new();
        core::mem::swap(&mut self.entries, &mut drained);
    }

    /// A snapshot copy of every entry, in the store's insertion order, for
    /// inspection that outlives any lock a caller may hold around the store.
    pub fn entries(&self) -> (r: Vec<Entry>)
        ensures
            r@.len() == self@.len(),
            forall|i: int|
                0 <= i < r@.len() ==> ((#[trigger] r@[i]).0@, r@[i].1) == self@[i],
    {
        let n = self.entries.len();
        let mut out: Vec<Entry> = Vec::new();
        let mut i: usize = 0;
        while i < n
            invariant
                n == self@.len(),
                i <= n,
                out@.len() == i,
                forall|j: int|
                    0 <= j < i ==> ((#[trigger] out@[j]).0@, out@[j].1) == self@[j],
            decreases n - i,
        {
            let key = self.entries[i].0.clone();
            let md = self.entries[i].1.clone();
            out.push((key, md));
            i += 1;
        }
        out
    }

    /// An approximate memory-usage estimate in bytes: the entry count times
    /// the shallow size of one record. This is a lower bound, not an exact
    /// accounting — it ignores the keys and whatever the encoded payloads
    /// allocate beyond the record itself. Saturates at `usize::MAX`.
    pub fn footprint(&self) -> (r: usize)
        ensures
            ({
                let total = self@.len() * vstd::layout::size_of::<Metadata>();
                if total > usize::MAX {
                    r == usize::MAX
                } else {
                    r == total
                }
            }),
    {
        let unit = core::mem::size_of::<Metadata>();
        match self.entries.len().checked_mul(unit) {
            Some(total) => total,
            None => usize::MAX,
        }
    }

    /// Scans every entry once, as of time `now`, and evicts each whose
    /// retention test fails — the active sweep. The test is non-strict
    /// (`elapsed <= lifetime`), so an entry exactly at its expiry boundary
    /// survives the sweep even though the read path already counts it as
    /// stale. Returns the number of entries retained — the store's size
    /// after the sweep, not the number evicted.
    #[verifier::loop_isolation(false)]
    pub fn purge_stale_at(&mut self, now: i64) -> (kept: usize)
        ensures
            final(self)@ == store_after_sweep(old(self)@, now),
            kept == final(self)@.len(),
            forall|j: int|
                0 <= j < final(self)@.len() ==> retained_at((#[trigger] final(self)@[j]).1, now),
            distinct_keys(final(self)@),
    {
        proof {
            use_type_invariant(&*self);
        }
        let mut v: Vec<Entry> = Vec::new();
        core::mem::swap(&mut self.entries, &mut v);
        let ghost pre = entries_view(v@);
        let ghost pred = |e: (Seq<char>, Metadata)| retained_at(e.1, now);
        let n = v.len();
        let mut out: Vec<Entry> = Vec::new();
        let mut i: usize = 0;
        while i < n
            invariant
                n == v@.len(),
                pre == entries_view(v@),
                i <= n,
                entries_view(out@) == pre.subrange(0, i as int).filter(pred),
            decreases n - i,
        {
            let keep = v[i].1.is_retained_at(now);
            if keep {
                out.push((v[i].0.clone(), v[i].1.clone()));
            }
            proof {
                reveal(Seq::filter);
                let sub1 = pre.subrange(0, i + 1);
                assert(sub1.len() == i + 1);
                assert(sub1.drop_last() =~= pre.subrange(0, i as int));
                assert(sub1.last() == pre[i as int]);
                assert(pre[i as int] == (v@[i as int].0@, v@[i as int].1));
                assert(pred(pre[i as int]) == keep);
                assert(sub1.filter(pred) == (if pred(sub1.last()) {
                    sub1.drop_last().filter(pred).push(sub1.last())
                } else {
                    sub1.drop_last().filter(pred)
                }));
                if keep {
                    assert(entries_view(out@) =~= pre.subrange(0, i as int).filter(pred).push(
                        pre[i as int],
                    ));
                }
                assert(entries_view(out@) == sub1.filter(pred));
            }
            i += 1;
        }
        proof {
            assert(pre.subrange(0, n as int) =~= pre);
            lemma_filter_keeps_distinct(pre, pred);
        }
        let kept = out.len();
        self.entries = out;
        kept
    }

    /// Sweeps as of the current wall-clock time; otherwise exactly
    /// [`Cache::purge_stale_at`]. Returns the number of entries retained.
    pub fn purge_stale(&mut self) -> (kept: usize)
        ensures
            exists|now: i64| final(self)@ == store_after_sweep(old(self)@, now),
            kept == final(self)@.len(),
            kept <= old(self)@.len(),
            distinct_keys(final(self)@),
    {
        let now = now_millis();
        let kept = self.purge_stale_at(now);
        proof {
            assert(self@ == store_after_sweep(old(self)@, now));
        }
        kept
    }

    /// The position of `key` in the underlying vector: the first (and, by
    /// the store's invariant, only) index whose key equals it.
    pub(crate) fn find_index(&self, key: &String) -> (r: Option<usize>)
        ensures
            match r {
                Some(i) => i < self@.len() && self@[i as int].0 == key@,
                None => !has_key(self@, key@),
            },
    {
        let n = self.entries.len();
        let mut i: usize = 0;
        while i < n
            invariant
                n == self@.len(),
                i <= n,
                forall|j: int| 0 <= j < i ==> (#[trigger] self@[j]).0 != key@,
            decreases n - i,
        {
            if self.entries[i].0 == *key {
                return Some(i);
            }
            i += 1;
        }
        None
    }
}

} // verus!
