//! The least-recently-used store of the `lru` crate, as the client uses it:
//! keys are inode numbers, values are cached files, and the contents are
//! modelled as a sequence from the most to the least recently used entry.

use vstd::prelude::*;
use lru::LruCache;
use std::collections::hash_map::RandomState;
use crate::entry::{CachedFile, CachedFileView, opt_file_view};
use crate::seq_util::{first_index, lemma_first_index, lemma_first_index_at};

verus! {

#[verifier::external_type_specification]
#[verifier::external_body]
#[verifier::reject_recursive_types(K)]
#[verifier::reject_recursive_types(V)]
#[verifier::reject_recursive_types(S)]
pub struct ExLruCache<K, V, S>(LruCache<K, V, S>);

/// The entries of the store, most recently used first.
pub uninterp spec fn lru_entries(c: LruCache<u64, CachedFile, RandomState>) -> Seq<(u64, CachedFileView)>;

/// The number of entries the store was made to hold.
pub uninterp spec fn lru_capacity(c: LruCache<u64, CachedFile, RandomState>) -> nat;

/// Whether an entry has key `k`.
pub open spec fn key_is<V>(k: u64) -> spec_fn((u64, V)) -> bool {
    |e: (u64, V)| e.0 == k
}

/// Position of key `k`, or `-1`.
pub open spec fn key_pos<V>(s: Seq<(u64, V)>, k: u64) -> int {
    first_index(s, key_is::<V>(k))
}

/// The value stored under `k`.
pub open spec fn lru_find<V>(s: Seq<(u64, V)>, k: u64) -> Option<V> {
    let i = key_pos(s, k);
    if i >= 0 {
        Some(s[i].1)
    } else {
        None
    }
}

/// `k` moved to the front, when present.
pub open spec fn lru_promote<V>(s: Seq<(u64, V)>, k: u64) -> Seq<(u64, V)> {
    let i = key_pos(s, k);
    if i >= 0 {
        seq![s[i]] + s.remove(i)
    } else {
        s
    }
}

/// `k` taken out, when present.
pub open spec fn lru_remove<V>(s: Seq<(u64, V)>, k: u64) -> Seq<(u64, V)> {
    let i = key_pos(s, k);
    if i >= 0 {
        s.remove(i)
    } else {
        s
    }
}

/// `(k, v)` put at the front: an old entry for `k` goes; otherwise, in a
/// full store, the least recently used entry goes.
pub open spec fn lru_put<V>(s: Seq<(u64, V)>, cap: nat, k: u64, v: V) -> Seq<(u64, V)> {
    let i = key_pos(s, k);
    if i >= 0 {
        seq![(k, v)] + s.remove(i)
    } else if s.len() == cap {
        seq![(k, v)] + s.drop_last()
    } else {
        seq![(k, v)] + s
    }
}

pub open spec fn keys_distinct<V>(s: Seq<(u64, V)>) -> bool {
    forall|i: int, j: int| 0 <= i < j < s.len() ==> s[i].0 != s[j].0
}

/// `LruCache::with_hasher`: an empty store holding at most `cap` entries.
#[verifier::external_body]
pub(crate) fn lru_new(cap: usize) -> (c: LruCache<u64, CachedFile, RandomState>)
    requires
        cap > 0,
    ensures
        lru_entries(c) == Seq::<(u64, CachedFileView)>::empty(),
        lru_capacity(c) == cap,
{
    LruCache::with_hasher(std::num::NonZeroUsize::new(cap).unwrap(), RandomState::new())
}

/// `LruCache::put`: stores `v` under `k` as the most recently used entry and
/// gives back the value `k` had.
#[verifier::external_body]
pub(crate) fn lru_put_file(c: &mut LruCache<u64, CachedFile, RandomState>, k: u64, v: CachedFile) -> (r: Option<CachedFile>)
    ensures
        lru_entries(*final(c)) == lru_put(lru_entries(*old(c)), lru_capacity(*old(c)), k, v@),
        lru_capacity(*final(c)) == lru_capacity(*old(c)),
        opt_file_view(r) == lru_find(lru_entries(*old(c)), k),
{
    c.put(k, v)
}

/// `LruCache::get`: the value under `k`, which becomes the most recently used.
#[verifier::external_body]
pub(crate) fn lru_get_file(c: &mut LruCache<u64, CachedFile, RandomState>, k: u64) -> (r: Option<CachedFile>)
    ensures
        lru_entries(*final(c)) == lru_promote(lru_entries(*old(c)), k),
        lru_capacity(*final(c)) == lru_capacity(*old(c)),
        opt_file_view(r) == lru_find(lru_entries(*old(c)), k),
{
    c.get(&k).cloned()
}

/// `LruCache::peek`: the value under `k`, leaving the order alone.
#[verifier::external_body]
pub(crate) fn lru_peek_file(c: &LruCache<u64, CachedFile, RandomState>, k: u64) -> (r: Option<CachedFile>)
    ensures
        opt_file_view(r) == lru_find(lru_entries(*c), k),
{
    c.peek(&k).cloned()
}

/// `LruCache::pop`: takes the value under `k` out of the store.
#[verifier::external_body]
pub(crate) fn lru_pop_file(c: &mut LruCache<u64, CachedFile, RandomState>, k: u64) -> (r: Option<CachedFile>)
    ensures
        lru_entries(*final(c)) == lru_remove(lru_entries(*old(c)), k),
        lru_capacity(*final(c)) == lru_capacity(*old(c)),
        opt_file_view(r) == lru_find(lru_entries(*old(c)), k),
{
    c.pop(&k)
}

/// `LruCache::iter`: every entry, most recently used first.
#[verifier::external_body]
pub(crate) fn lru_snapshot(c: &LruCache<u64, CachedFile, RandomState>) -> (r: Vec<(u64, CachedFile)>)
    ensures
        r@.len() == lru_entries(*c).len(),
        forall|i: int| #![trigger r@[i]] 0 <= i < r@.len() ==> r@[i].0 == lru_entries(*c)[i].0 && r@[i].1@ == lru_entries(*c)[i].1,
{
    c.iter().map(|(k, v)| (*k, v.clone())).collect()
}

pub proof fn lemma_key_pos<V>(s: Seq<(u64, V)>, k: u64)
    ensures
        -1 <= key_pos(s, k) < s.len(),
        key_pos(s, k) >= 0 ==> s[key_pos(s, k)].0 == k,
        key_pos(s, k) < 0 ==> forall|j: int| 0 <= j < s.len() ==> #[trigger] s[j].0 != k,
{
    let p = key_is::<V>(k);
    lemma_first_index(s, p);
    if key_pos(s, k) < 0 {
        assert forall|j: int| 0 <= j < s.len() implies #[trigger] s[j].0 != k by {
            assert(!p(s[j]));
        }
    }
}

/// With distinct keys, the entry holding `k` is at `key_pos`.
pub proof fn lemma_key_pos_at<V>(s: Seq<(u64, V)>, k: u64, j: int)
    requires
        keys_distinct(s),
        0 <= j < s.len(),
        s[j].0 == k,
    ensures
        key_pos(s, k) == j,
{
    let p = key_is::<V>(k);
    assert forall|m: int| 0 <= m < j implies !p(#[trigger] s[m]) by {
        assert(s[m].0 != s[j].0);
    }
    lemma_first_index_at(s, p, j);
}

/// Putting, promoting and removing keep keys distinct and the store within capacity,
/// and every entry afterwards is the new one or an old one.
pub proof fn lemma_put_shape<V>(s: Seq<(u64, V)>, cap: nat, k: u64, v: V)
    requires
        keys_distinct(s),
        s.len() <= cap,
        cap > 0,
    ensures
        keys_distinct(lru_put(s, cap, k, v)),
        lru_put(s, cap, k, v).len() <= cap,
        lru_put(s, cap, k, v).len() > 0,
        lru_put(s, cap, k, v)[0] == (k, v),
        forall|i: int|
            1 <= i < lru_put(s, cap, k, v).len() ==> exists|j: int|
                0 <= j < s.len() && s[j] == #[trigger] lru_put(s, cap, k, v)[i] && s[j].0 != k,
{
    lemma_key_pos(s, k);
    let i = key_pos(s, k);
    let r = lru_put(s, cap, k, v);
    if i >= 0 {
        let t = s.remove(i);
        assert forall|a: int| 1 <= a < r.len() implies exists|j: int|
            0 <= j < s.len() && s[j] == #[trigger] r[a] && s[j].0 != k by {
            let j = if a - 1 < i { a - 1 } else { a };
            assert(r[a] == t[a - 1]);
            assert(s[j] == r[a]);
            assert(j != i);
        }
        assert forall|a: int, b: int| 0 <= a < b < r.len() implies r[a].0 != r[b].0 by {
            let jb = if b - 1 < i { b - 1 } else { b };
            assert(r[b] == s[jb]);
            if a > 0 {
                let ja = if a - 1 < i { a - 1 } else { a };
                assert(r[a] == s[ja]);
            }
        }
    } else {
        let t = if s.len() == cap { s.drop_last() } else { s };
        assert(r == seq![(k, v)] + t);
        assert forall|a: int| 1 <= a < r.len() implies exists|j: int|
            0 <= j < s.len() && s[j] == #[trigger] r[a] && s[j].0 != k by {
            assert(r[a] == s[a - 1]);
        }
        assert forall|a: int, b: int| 0 <= a < b < r.len() implies r[a].0 != r[b].0 by {
            assert(r[b] == s[b - 1]);
            if a > 0 {
                assert(r[a] == s[a - 1]);
            }
        }
    }
}

pub proof fn lemma_promote_shape<V>(s: Seq<(u64, V)>, k: u64)
    requires
        keys_distinct(s),
    ensures
        keys_distinct(lru_promote(s, k)),
        lru_promote(s, k).len() == s.len(),
        forall|i: int|
            0 <= i < lru_promote(s, k).len() ==> exists|j: int|
                0 <= j < s.len() && s[j] == #[trigger] lru_promote(s, k)[i],
{
    lemma_key_pos(s, k);
    let i = key_pos(s, k);
    let r = lru_promote(s, k);
    if i >= 0 {
        let t = s.remove(i);
        assert forall|a: int| 0 <= a < r.len() implies exists|j: int|
            0 <= j < s.len() && s[j] == #[trigger] r[a] by {
            if a == 0 {
                assert(s[i] == r[a]);
            } else {
                let j = if a - 1 < i { a - 1 } else { a };
                assert(r[a] == t[a - 1]);
                assert(s[j] == r[a]);
            }
        }
        assert forall|a: int, b: int| 0 <= a < b < r.len() implies r[a].0 != r[b].0 by {
            let jb = if b - 1 < i { b - 1 } else { b };
            assert(r[b] == s[jb]);
            if a > 0 {
                let ja = if a - 1 < i { a - 1 } else { a };
                assert(r[a] == s[ja]);
            } else {
                assert(r[a] == s[i]);
            }
        }
    } else {
        assert forall|a: int| 0 <= a < r.len() implies exists|j: int|
            0 <= j < s.len() && s[j] == #[trigger] r[a] by {
            assert(s[a] == r[a]);
        }
    }
}

pub proof fn lemma_remove_shape<V>(s: Seq<(u64, V)>, k: u64)
    requires
        keys_distinct(s),
    ensures
        keys_distinct(lru_remove(s, k)),
        lru_remove(s, k).len() <= s.len(),
        forall|i: int| 0 <= i < lru_remove(s, k).len() ==> #[trigger] lru_remove(s, k)[i].0 != k,
        forall|i: int|
            0 <= i < lru_remove(s, k).len() ==> exists|j: int|
                0 <= j < s.len() && s[j] == #[trigger] lru_remove(s, k)[i],
{
    lemma_key_pos(s, k);
    let i = key_pos(s, k);
    let r = lru_remove(s, k);
    if i >= 0 {
        assert forall|a: int| 0 <= a < r.len() implies exists|j: int|
            0 <= j < s.len() && s[j] == #[trigger] r[a] by {
            let j = if a < i { a } else { a + 1 };
            assert(s[j] == r[a]);
        }
        assert forall|a: int| 0 <= a < r.len() implies #[trigger] r[a].0 != k by {
            let j = if a < i { a } else { a + 1 };
            assert(s[j] == r[a]);
            assert(s[j].0 != s[i].0);
        }
        assert forall|a: int, b: int| 0 <= a < b < r.len() implies r[a].0 != r[b].0 by {
            let ja = if a < i { a } else { a + 1 };
            let jb = if b < i { b } else { b + 1 };
            assert(r[a] == s[ja]);
            assert(r[b] == s[jb]);
        }
    } else {
        assert forall|a: int| 0 <= a < r.len() implies exists|j: int|
            0 <= j < s.len() && s[j] == #[trigger] r[a] by {
            assert(s[a] == r[a]);
        }
    }
}

} // verus!
