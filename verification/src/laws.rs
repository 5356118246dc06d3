//! The store's laws: properties that relate several operations, stated over
//! the same abstract stores the operations' contracts use.

use vstd::prelude::*;

use crate::cache::distinct_keys;
use crate::cache::has_key;
use crate::cache::key_index;
use crate::cache::lemma_key_at_index;
use crate::cache::value_of;
use crate::cache::store_after_sweep;
use crate::get::read_outcome;
use crate::set::store_after_set;
use crate::types::live_at;
use crate::types::retained_at;
use crate::types::Metadata;

verus! {

broadcast use vstd::seq_lib::group_filter_ensures;

/// A write binds its key to its record: afterwards the key is present and
/// holds exactly the record written, the other keys are untouched, and the
/// count grows only on a fresh key.
pub proof fn lemma_set_updates_key(s: Seq<(Seq<char>, Metadata)>, k: Seq<char>, md: Metadata)
    ensures
        ({
            let w = store_after_set(s, k, md);
            &&& has_key(w, k)
            &&& w.len() == s.len() + (if has_key(s, k) {
                0int
            } else {
                1int
            })
            &&& distinct_keys(s) ==> value_of(w, k) == md && distinct_keys(w)
        }),
{
    let w = store_after_set(s, k, md);
    if has_key(s, k) {
        let i = key_index(s, k);
        assert(0 <= i < s.len() && s[i].0 == k);
        assert(w[i].0 == k);
        assert(has_key(w, k));
        if distinct_keys(s) {
            assert forall|a: int, b: int| 0 <= a < b < w.len() implies (#[trigger] w[a]).0 != (
            #[trigger] w[b]).0 by {
                assert(s[a].0 != s[b].0);
            }
            lemma_key_at_index(w, i);
        }
    } else {
        assert(w[s.len() as int].0 == k);
        assert(has_key(w, k));
        if distinct_keys(s) {
            assert forall|a: int, b: int| 0 <= a < b < w.len() implies (#[trigger] w[a]).0 != (
            #[trigger] w[b]).0 by {
                if b < s.len() {
                    assert(s[a].0 != s[b].0);
                } else {
                    assert(w[b].0 == k);
                    assert(s[a].0 != k);
                }
            }
            lemma_key_at_index(w, s.len() as int);
        }
    }
}

/// A write under one key neither adds, removes nor rebinds any other key.
pub proof fn lemma_set_preserves_others(
    s: Seq<(Seq<char>, Metadata)>,
    k: Seq<char>,
    md: Metadata,
    k2: Seq<char>,
)
    requires
        distinct_keys(s),
        k2 != k,
    ensures
        has_key(store_after_set(s, k, md), k2) == has_key(s, k2),
        has_key(s, k2) ==> value_of(store_after_set(s, k, md), k2) == value_of(s, k2),
{
    let w = store_after_set(s, k, md);
    lemma_set_updates_key(s, k, md);
    if has_key(s, k2) {
        let j = key_index(s, k2);
        assert(0 <= j < s.len() && s[j].0 == k2);
        if has_key(s, k) {
            let i = key_index(s, k);
            assert(0 <= i < s.len() && s[i].0 == k);
            assert(i != j);
            assert(w[j] == s[j]);
        } else {
            assert(w[j] == s[j]);
        }
        assert(has_key(w, k2));
        lemma_key_at_index(w, j);
    }
    if !has_key(s, k2) {
        if has_key(w, k2) {
            let j = key_index(w, k2);
            assert(0 <= j < w.len() && w[j].0 == k2);
            if has_key(s, k) {
                let i = key_index(s, k);
                if j != i {
                    assert(w[j] == s[j]);
                } else {
                    assert(w[j].0 == k);
                }
            } else {
                assert(j < s.len() ==> w[j] == s[j]);
                assert(j == s.len() ==> w[j].0 == k);
            }
            assert(false);
        }
    }
}

/// Overwrite idempotence: a second write under the same key leaves the
/// entry count exactly as the first write left it — no duplicate key — and
/// the key then holds the second record.
pub proof fn lemma_overwrite_idempotent(
    s: Seq<(Seq<char>, Metadata)>,
    k: Seq<char>,
    md1: Metadata,
    md2: Metadata,
)
    requires
        distinct_keys(s),
    ensures
        ({
            let w1 = store_after_set(s, k, md1);
            let w2 = store_after_set(w1, k, md2);
            &&& w2.len() == w1.len()
            &&& has_key(w2, k)
            &&& value_of(w2, k) == md2
        }),
{
    let w1 = store_after_set(s, k, md1);
    lemma_set_updates_key(s, k, md1);
    lemma_set_updates_key(w1, k, md2);
}

/// Round trip: a write of a record with a positive lifetime, followed
/// immediately (at the record's own insertion instant) by a read of the
/// same key, returns exactly the payload written and leaves the store as
/// the write left it.
pub proof fn lemma_round_trip(
    s: Seq<(Seq<char>, Metadata)>,
    k: Seq<char>,
    md: Metadata,
    post: Seq<(Seq<char>, Metadata)>,
    r: Option<serde_json::Value>,
)
    requires
        distinct_keys(s),
        md.expiration_in_ms > 0,
        read_outcome(store_after_set(s, k, md), post, k, md.set_at, r),
    ensures
        r == Some(md.data),
        post == store_after_set(s, k, md),
{
    lemma_set_updates_key(s, k, md);
    assert(live_at(md, md.set_at));
}

/// Expiry: a read that finds its key stale reports a miss and evicts
/// exactly that entry — the count drops by one, the key is gone, and every
/// other key still holds its old record.
pub proof fn lemma_expired_read_evicts(
    s: Seq<(Seq<char>, Metadata)>,
    post: Seq<(Seq<char>, Metadata)>,
    k: Seq<char>,
    now: i64,
    r: Option<serde_json::Value>,
)
    requires
        distinct_keys(s),
        has_key(s, k),
        !live_at(value_of(s, k), now),
        read_outcome(s, post, k, now, r),
    ensures
        r is None,
        post.len() == s.len() - 1,
        !has_key(post, k),
        forall|k2: Seq<char>| k2 != k ==> has_key(post, k2) == has_key(s, k2),
        forall|k2: Seq<char>|
            k2 != k && has_key(s, k2) ==> value_of(post, k2) == value_of(s, k2),
{
    let i = key_index(s, k);
    assert(0 <= i < s.len() && s[i].0 == k);
    assert(post == s.remove(i));
    s.remove_ensures(i);
    crate::cache::lemma_remove_keeps_distinct(s, i);
    assert forall|k2: Seq<char>| k2 != k implies has_key(post, k2) == has_key(s, k2) by {
        if has_key(s, k2) {
            let j = key_index(s, k2);
            assert(0 <= j < s.len() && s[j].0 == k2);
            assert(j != i);
            if j < i {
                assert(post[j] == s[j]);
            } else {
                assert(post[j - 1] == s[j]);
            }
            assert(has_key(post, k2));
        }
        if has_key(post, k2) {
            let j = key_index(post, k2);
            assert(0 <= j < post.len() && post[j].0 == k2);
            if j < i {
                assert(post[j] == s[j]);
            } else {
                assert(post[j] == s[j + 1]);
            }
            assert(has_key(s, k2));
        }
    }
    assert forall|k2: Seq<char>|
        k2 != k && has_key(s, k2) implies value_of(post, k2) == value_of(s, k2) by {
        let j = key_index(s, k2);
        assert(0 <= j < s.len() && s[j].0 == k2);
        assert(j != i);
        if j < i {
            assert(post[j] == s[j]);
            lemma_key_at_index(post, j);
        } else {
            assert(post[j - 1] == s[j]);
            lemma_key_at_index(post, j - 1);
        }
    }
    if has_key(post, k) {
        let j = key_index(post, k);
        assert(0 <= j < post.len() && post[j].0 == k);
        if j < i {
            assert(post[j] == s[j]);
        } else {
            assert(post[j] == s[j + 1]);
        }
        assert(false);
    }
}

/// Sweep correctness: the sweep keeps exactly the entries whose retention
/// test passes — each keeps its key and its record unchanged — and every
/// entry whose test fails is gone.
pub proof fn lemma_sweep_exact(s: Seq<(Seq<char>, Metadata)>, now: i64)
    requires
        distinct_keys(s),
    ensures
        ({
            let w = store_after_sweep(s, now);
            &&& w.len() <= s.len()
            &&& distinct_keys(w)
            &&& forall|j: int| 0 <= j < w.len() ==> retained_at((#[trigger] w[j]).1, now)
            &&& forall|i: int|
                0 <= i < s.len() && retained_at((#[trigger] s[i]).1, now) ==> has_key(w, s[i].0)
                    && value_of(w, s[i].0) == s[i].1
            &&& forall|i: int|
                0 <= i < s.len() && !retained_at((#[trigger] s[i]).1, now) ==> !has_key(w, s[i].0)
        }),
{
    let pred = |e: (Seq<char>, Metadata)| retained_at(e.1, now);
    let w = store_after_sweep(s, now);
    assert(w == s.filter(pred));
    crate::cache::lemma_filter_keeps_distinct(s, pred);
    assert forall|i: int|
        0 <= i < s.len() && retained_at((#[trigger] s[i]).1, now) implies has_key(w, s[i].0)
        && value_of(w, s[i].0) == s[i].1 by {
        assert(pred(s[i]));
        assert(w.contains(s[i]));
        let a = choose|a: int| 0 <= a < w.len() && w[a] == s[i];
        lemma_key_at_index(w, a);
    }
    assert forall|i: int|
        0 <= i < s.len() && !retained_at((#[trigger] s[i]).1, now) implies !has_key(w, s[i].0) by {
        if has_key(w, s[i].0) {
            let a = key_index(w, s[i].0);
            assert(0 <= a < w.len() && w[a].0 == s[i].0);
            crate::cache::lemma_filter_element_index(s, pred, a);
            let j = choose|j: int| 0 <= j < s.len() && (#[trigger] s[j]) == s.filter(pred)[a];
            assert(s[j].0 == s[i].0);
            assert(j == i);
            assert(pred(w[a]));
        }
    }
}

/// The store after a batch of writes, applied first to last, each under its
/// own key.
pub open spec fn store_after_sets(
    s: Seq<(Seq<char>, Metadata)>,
    ks: Seq<Seq<char>>,
    mds: Seq<Metadata>,
) -> Seq<(Seq<char>, Metadata)>
    decreases ks.len(),
{
    if ks.len() == 0 || ks.len() != mds.len() {
        s
    } else {
        store_after_set(
            store_after_sets(s, ks.drop_last(), mds.drop_last()),
            ks.last(),
            mds.last(),
        )
    }
}

/// Distinct inserts: a batch of writes under pairwise-distinct fresh keys —
/// however the writers were interleaved, the store's lock serializes them
/// into some such batch — grows the store by exactly the batch size, and
/// each key then holds exactly the record written under it.
pub proof fn lemma_distinct_inserts(
    s: Seq<(Seq<char>, Metadata)>,
    ks: Seq<Seq<char>>,
    mds: Seq<Metadata>,
)
    requires
        distinct_keys(s),
        ks.len() == mds.len(),
        forall|a: int, b: int| 0 <= a < b < ks.len() ==> ks[a] != ks[b],
        forall|a: int| 0 <= a < ks.len() ==> !has_key(s, #[trigger] ks[a]),
    ensures
        ({
            let w = store_after_sets(s, ks, mds);
            &&& w.len() == s.len() + ks.len()
            &&& distinct_keys(w)
            &&& forall|a: int|
                0 <= a < ks.len() ==> has_key(w, #[trigger] ks[a]) && value_of(w, ks[a]) == mds[a]
            &&& forall|k2: Seq<char>|
                #[trigger] has_key(w, k2) ==> has_key(s, k2) || ks.contains(k2)
        }),
    decreases ks.len(),
{
    if ks.len() > 0 {
        let kh = ks.drop_last();
        let mh = mds.drop_last();
        let prev = store_after_sets(s, kh, mh);
        let w = store_after_sets(s, ks, mds);
        lemma_distinct_inserts(s, kh, mh);
        assert(w == store_after_set(prev, ks.last(), mds.last()));
        assert(!has_key(prev, ks.last())) by {
            if has_key(prev, ks.last()) {
                assert(!has_key(s, ks.last()));
                assert(kh.contains(ks.last()));
                let a = choose|a: int| 0 <= a < kh.len() && kh[a] == ks.last();
                assert(ks[a] == ks[ks.len() - 1]);
            }
        }
        lemma_set_updates_key(prev, ks.last(), mds.last());
        assert forall|a: int|
            0 <= a < ks.len() implies has_key(w, #[trigger] ks[a]) && value_of(w, ks[a])
            == mds[a] by {
            if a < ks.len() - 1 {
                assert(kh[a] == ks[a] && mh[a] == mds[a]);
                assert(ks[a] != ks.last());
                lemma_set_preserves_others(prev, ks.last(), mds.last(), ks[a]);
            }
        }
        assert forall|k2: Seq<char>| #[trigger] has_key(w, k2) implies has_key(s, k2)
            || ks.contains(k2) by {
            if k2 == ks.last() {
                assert(ks.contains(k2)) by {
                    assert(ks[ks.len() - 1] == k2);
                }
            } else {
                lemma_set_preserves_others(prev, ks.last(), mds.last(), k2);
                assert(has_key(prev, k2));
                if !has_key(s, k2) {
                    assert(kh.contains(k2));
                    let a = choose|a: int| 0 <= a < kh.len() && kh[a] == k2;
                    assert(ks[a] == k2);
                }
            }
        }
    }
}

} // verus!
