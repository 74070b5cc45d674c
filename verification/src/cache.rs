//! The client's cache: file metadata by inode number in a store of bounded
//! size that forgets the least recently used entry first, and directory
//! listings by path, each valid for a fixed time after it was fetched.

use vstd::prelude::*;
use lru::LruCache;
use std::collections::hash_map::RandomState;
use crate::api::{Api, base_url_spec};
use crate::entry::{
    CachedFile, CachedFileView, FileEntry, Inode, TimeSpan, Timestamp, clock_now, fresh, is_fresh,
    opt_file_view,
};
use crate::lru_store::{
    keys_distinct, lemma_promote_shape, lemma_put_shape, lemma_remove_shape,
    lru_capacity, lru_entries, lru_find, lru_get_file, lru_new, lru_peek_file, lru_pop_file,
    lru_promote, lru_put, lru_put_file, lru_remove, lru_snapshot,
};
use crate::seq_util::{first_index, lemma_first_index, lemma_first_index_at};
use crate::server::{same_path, same_path_str};
use crate::text::{join_path, join_spec, str_eq};

verus! {

/// A directory listing as it was fetched, and when.
pub struct DirListing {
    pub path: String,
    pub fetched_at: Timestamp,
    pub entries: Vec<FileEntry>,
}

pub open spec fn path_is(p: Seq<char>) -> spec_fn(DirListing) -> bool {
    |l: DirListing| l.path@ == p
}

/// The listing recorded for path `p`.
pub open spec fn listing_lookup(d: Seq<DirListing>, p: Seq<char>) -> Option<DirListing> {
    let i = first_index(d, path_is(p));
    if i >= 0 {
        Some(d[i])
    } else {
        None
    }
}

pub open spec fn paths_distinct(d: Seq<DirListing>) -> bool {
    forall|i: int, j: int| 0 <= i < j < d.len() ==> d[i].path@ != d[j].path@
}

/// Every cached file is stored under its own inode number.
pub open spec fn all_keyed(s: Seq<(u64, CachedFileView)>) -> bool {
    forall|i: int| 0 <= i < s.len() ==> (#[trigger] s[i]).1.file_entry.ino == s[i].0
}

/// The cached form of entry `e` listed in directory `dir`.
pub open spec fn cached_view(dir: Seq<char>, e: FileEntry) -> CachedFileView {
    CachedFileView { file_entry: e, file_path: join_spec(dir, e.name@) }
}

/// The store after putting the entries of a listing of `dir`, one after another.
pub open spec fn put_all(
    s: Seq<(u64, CachedFileView)>,
    cap: nat,
    dir: Seq<char>,
    es: Seq<FileEntry>,
) -> Seq<(u64, CachedFileView)>
    decreases es.len(),
{
    if es.len() == 0 {
        s
    } else {
        lru_put(put_all(s, cap, dir, es.drop_last()), cap, es.last().ino, cached_view(dir, es.last()))
    }
}

pub open spec fn file_path_is(p: Seq<char>) -> spec_fn((u64, CachedFileView)) -> bool {
    |e: (u64, CachedFileView)| same_path(e.1.file_path, p)
}

/// The most recently used cached file whose path names the same place as
/// `p`, name by name (`same_path`).
pub open spec fn find_path(s: Seq<(u64, CachedFileView)>, p: Seq<char>) -> Option<CachedFileView> {
    let i = first_index(s, file_path_is(p));
    if i >= 0 {
        Some(s[i].1)
    } else {
        None
    }
}

pub open spec fn opt_entries(o: Option<Vec<FileEntry>>) -> Option<Seq<FileEntry>> {
    match o {
        Some(v) => Some(v@),
        None => None,
    }
}

/// Metadata of files by inode, and directory listings by path.
pub struct Cache {
    pub files: LruCache<u64, CachedFile, RandomState>,
    pub dir_cache: Vec<DirListing>,
    /// How long a directory listing stays valid.
    pub ttl: TimeSpan,
    pub api: Api,
}

impl Cache {
    pub open spec fn files_view(self) -> Seq<(u64, CachedFileView)> {
        lru_entries(self.files)
    }

    pub open spec fn capacity(self) -> nat {
        lru_capacity(self.files)
    }

    /// The listing recorded for `p`, with the time it was fetched.
    pub open spec fn listing(self, p: Seq<char>) -> Option<(Timestamp, Seq<FileEntry>)> {
        match listing_lookup(self.dir_cache@, p) {
            Some(l) => Some((l.fetched_at, l.entries@)),
            None => None,
        }
    }

    /// The listing of `p` that may be served at `now`.
    pub open spec fn cached_at(self, p: Seq<char>, now: Timestamp) -> Option<Seq<FileEntry>> {
        match self.listing(p) {
            Some((t, es)) => if is_fresh(t, now, self.ttl) {
                Some(es)
            } else {
                None
            },
            None => None,
        }
    }

    pub open spec fn wf(self) -> bool {
        &&& keys_distinct(self.files_view())
        &&& self.files_view().len() <= self.capacity()
        &&& self.capacity() > 0
        &&& all_keyed(self.files_view())
        &&& paths_distinct(self.dir_cache@)
    }

    /// An empty cache holding up to `capacity` files (1000 when `capacity`
    /// is zero), keeping listings for `ttl`, talking to `server_url`.
    pub fn new(capacity: usize, ttl: TimeSpan, server_url: String) -> (c: Cache)
        ensures
            c.wf(),
            c.files_view() == Seq::<(u64, CachedFileView)>::empty(),
            c.capacity() == (if capacity == 0 {
                1000
            } else {
                capacity
            }),
            c.dir_cache@ == Seq::<DirListing>::empty(),
            c.ttl == ttl,
            c.api.base_url@ == base_url_spec(server_url@),
    {
        let cap = if capacity == 0 {
            1000
        } else {
            capacity
        };
        Cache { files: lru_new(cap), dir_cache: Vec::new(), ttl, api: Api::new(server_url) }
    }

    fn find_listing(&self, path: &str) -> (r: Option<usize>)
        requires
            self.wf(),
        ensures
            match r {
                Some(i) => i < self.dir_cache@.len() && self.dir_cache@[i as int].path@ == path@
                    && listing_lookup(self.dir_cache@, path@) == Some(self.dir_cache@[i as int]),
                None => listing_lookup(self.dir_cache@, path@) == None::<DirListing> && forall|j: int|
                    0 <= j < self.dir_cache@.len() ==> #[trigger] self.dir_cache@[j].path@ != path@,
            },
    {
        let n = self.dir_cache.len();
        let mut i: usize = 0;
        while i < n
            invariant
                i <= n,
                n == self.dir_cache@.len(),
                forall|j: int| 0 <= j < i ==> #[trigger] self.dir_cache@[j].path@ != path@,
            decreases n - i,
        {
            if str_eq(self.dir_cache[i].path.as_str(), path) {
                proof {
                    assert forall|j: int| 0 <= j < i implies !path_is(path@)(
                        #[trigger] self.dir_cache@[j],
                    ) by {}
                    lemma_first_index_at(self.dir_cache@, path_is(path@), i as int);
                }
                return Some(i);
            }
            i = i + 1;
        }
        proof {
            lemma_first_index(self.dir_cache@, path_is(path@));
            if first_index(self.dir_cache@, path_is(path@)) >= 0 {
                let k = first_index(self.dir_cache@, path_is(path@));
                assert(self.dir_cache@[k].path@ != path@);
            }
        }
        None
    }

    /// The listing of `path` recorded in the cache, if it was fetched less
    /// than `ttl` before `now`.
    pub fn cached_listing_at(&self, path: &str, now: Timestamp) -> (r: Option<Vec<FileEntry>>)
        requires
            self.wf(),
        ensures
            opt_entries(r) == self.cached_at(path@, now),
    {
        match self.find_listing(path) {
            Some(i) => {
                if fresh(self.dir_cache[i].fetched_at, now, self.ttl) {
                    let v = self.dir_cache[i].entries.clone();
                    proof {
                        let w = self.dir_cache@[i as int].entries;
                        assert forall|k: int| 0 <= k < v@.len() implies v@[k] == w@[k] by {
                            assert(cloned::<FileEntry>(w[k], v[k]));
                        }
                        assert(v@ =~= w@);
                    }
                    Some(v)
                } else {
                    None
                }
            },
            None => None,
        }
    }

    /// The listing of `path` that may be served now.
    pub fn cached_listing(&self, path: &str) -> (r: Option<Vec<FileEntry>>)
        requires
            self.wf(),
        ensures
            exists|now: Timestamp| opt_entries(r) == self.cached_at(path@, now),
            self.listing(path@) is None ==> r is None,
            r is Some ==> (self.listing(path@) matches Some((t, es)) && opt_entries(r) == Some(es)),
    {
        let now = clock_now();
        self.cached_listing_at(path, now)
    }

    proof fn lemma_listing_replaced(d: Seq<DirListing>, d2: Seq<DirListing>, p: Seq<char>, l: DirListing)
        requires
            paths_distinct(d),
            paths_distinct(d2),
            l.path@ == p,
            exists|m: int| 0 <= m < d2.len() && d2[m] == l,
            forall|m: int|
                0 <= m < d.len() && (#[trigger] d[m]).path@ != p ==> exists|m2: int|
                    0 <= m2 < d2.len() && d2[m2] == d[m],
            forall|m2: int|
                0 <= m2 < d2.len() && (#[trigger] d2[m2]).path@ != p ==> exists|m: int|
                    0 <= m < d.len() && d[m] == d2[m2],
        ensures
            listing_lookup(d2, p) == Some(l),
            forall|q: Seq<char>| q != p ==> listing_lookup(d2, q) == listing_lookup(d, q),
    {
        let m = choose|m: int| 0 <= m < d2.len() && d2[m] == l;
        Self::lemma_lookup_at(d2, p, m);
        assert forall|q: Seq<char>| q != p implies listing_lookup(d2, q) == listing_lookup(d, q) by {
            lemma_first_index(d, path_is(q));
            let i = first_index(d, path_is(q));
            if i >= 0 {
                assert(d[i].path@ == q);
                let m2 = choose|m2: int| 0 <= m2 < d2.len() && d2[m2] == d[i];
                Self::lemma_lookup_at(d2, q, m2);
            } else {
                lemma_first_index(d2, path_is(q));
                let i2 = first_index(d2, path_is(q));
                if i2 >= 0 {
                    assert(d2[i2].path@ == q);
                    let m1 = choose|m1: int| 0 <= m1 < d.len() && d[m1] == d2[i2];
                    assert(!path_is(q)(d[m1]));
                }
            }
        }
    }

    proof fn lemma_listing_removed(d: Seq<DirListing>, d2: Seq<DirListing>, p: Seq<char>)
        requires
            paths_distinct(d),
            paths_distinct(d2),
            forall|m2: int| 0 <= m2 < d2.len() ==> (#[trigger] d2[m2]).path@ != p,
            forall|m: int|
                0 <= m < d.len() && (#[trigger] d[m]).path@ != p ==> exists|m2: int|
                    0 <= m2 < d2.len() && d2[m2] == d[m],
            forall|m2: int|
                0 <= m2 < d2.len() ==> exists|m: int| 0 <= m < d.len() && d[m] == #[trigger] d2[m2],
        ensures
            listing_lookup(d2, p) == None::<DirListing>,
            forall|q: Seq<char>| q != p ==> listing_lookup(d2, q) == listing_lookup(d, q),
    {
        lemma_first_index(d2, path_is(p));
        if first_index(d2, path_is(p)) >= 0 {
            assert(d2[first_index(d2, path_is(p))].path@ != p);
        }
        assert forall|q: Seq<char>| q != p implies listing_lookup(d2, q) == listing_lookup(d, q) by {
            lemma_first_index(d, path_is(q));
            let i = first_index(d, path_is(q));
            if i >= 0 {
                assert(d[i].path@ == q);
                let m2 = choose|m2: int| 0 <= m2 < d2.len() && d2[m2] == d[i];
                Self::lemma_lookup_at(d2, q, m2);
            } else {
                lemma_first_index(d2, path_is(q));
                let i2 = first_index(d2, path_is(q));
                if i2 >= 0 {
                    assert(d2[i2].path@ == q);
                    let m1 = choose|m1: int| 0 <= m1 < d.len() && d[m1] == d2[i2];
                    assert(!path_is(q)(d[m1]));
                }
            }
        }
    }

    proof fn lemma_lookup_at(d: Seq<DirListing>, p: Seq<char>, m: int)
        requires
            paths_distinct(d),
            0 <= m < d.len(),
            d[m].path@ == p,
        ensures
            listing_lookup(d, p) == Some(d[m]),
    {
        assert forall|j: int| 0 <= j < m implies !path_is(p)(#[trigger] d[j]) by {
            assert(d[j].path@ != d[m].path@);
        }
        lemma_first_index_at(d, path_is(p), m);
    }

    /// Records `entries` as the listing of `path` fetched at `now`, and
    /// stores each entry in the file store under its inode number, with its
    /// path inside `path`, in the order of the listing.
    pub fn record_listing_at(&mut self, path: &str, entries: Vec<FileEntry>, now: Timestamp)
        requires
            old(self).wf(),
        ensures
            final(self).wf(),
            final(self).files_view() == put_all(
                old(self).files_view(),
                old(self).capacity(),
                path@,
                entries@,
            ),
            final(self).capacity() == old(self).capacity(),
            final(self).listing(path@) == Some((now, entries@)),
            forall|q: Seq<char>| q != path@ ==> final(self).listing(q) == old(self).listing(q),
            final(self).ttl == old(self).ttl,
            final(self).api == old(self).api,
    {
        let ghost s0 = self.files_view();
        let ghost cap = self.capacity();
        let n = entries.len();
        let mut i: usize = 0;
        while i < n
            invariant
                i <= n,
                n == entries@.len(),
                self.wf(),
                self.capacity() == cap,
                self.files_view() == put_all(s0, cap, path@, entries@.take(i as int)),
                self.dir_cache == old(self).dir_cache,
                self.ttl == old(self).ttl,
                self.api == old(self).api,
            decreases n - i,
        {
            let e = entries[i].clone();
            let p = join_path(path, e.name.as_str());
            let ino = e.ino;
            let ghost before = self.files_view();
            let _ = lru_put_file(&mut self.files, ino, CachedFile { file_entry: e, file_path: p });
            proof {
                assert(entries@.take(i + 1).drop_last() =~= entries@.take(i as int));
                assert(entries@.take(i + 1).last() == entries@[i as int]);
                lemma_put_shape(before, cap, ino, cached_view(path@, e));
                let after = self.files_view();
                assert forall|a: int| 0 <= a < after.len() implies (#[trigger] after[a]).1.file_entry.ino
                    == after[a].0 by {
                    if a > 0 {
                        let j = choose|j: int| 0 <= j < before.len() && before[j] == after[a] && before[j].0 != ino;
                        assert(before[j].1.file_entry.ino == before[j].0);
                    }
                }
            }
            i = i + 1;
        }
        assert(entries@.take(n as int) =~= entries@);
        let ghost d = self.dir_cache@;
        let listing = DirListing { path: String::from_str(path), fetched_at: now, entries };
        let ghost l = listing;
        match self.find_listing(path) {
            Some(j) => {
                self.dir_cache.set(j, listing);
                proof {
                    let d2 = self.dir_cache@;
                    assert(d2 == d.update(j as int, l));
                    assert(paths_distinct(d2)) by {
                        assert forall|a: int, b: int| 0 <= a < b < d2.len() implies d2[a].path@ != d2[b].path@ by {
                            if a != j && b != j {
                                assert(d2[a] == d[a] && d2[b] == d[b]);
                            } else if a == j {
                                assert(d2[b] == d[b]);
                                assert(d[b].path@ != d[a].path@);
                            } else {
                                assert(d2[a] == d[a]);
                                assert(d[a].path@ != d[b].path@);
                            }
                        }
                    }
                    assert(d2[j as int] == l);
                    assert forall|m: int|
                        0 <= m < d.len() && (#[trigger] d[m]).path@ != path@ implies exists|m2: int|
                        0 <= m2 < d2.len() && d2[m2] == d[m] by {
                        assert(m != j);
                        assert(d2[m] == d[m]);
                    }
                    assert forall|m2: int|
                        0 <= m2 < d2.len() && (#[trigger] d2[m2]).path@ != path@ implies exists|m: int|
                        0 <= m < d.len() && d[m] == d2[m2] by {
                        assert(m2 != j);
                        assert(d[m2] == d2[m2]);
                    }
                    Self::lemma_listing_replaced(d, d2, path@, l);
                }
            },
            None => {
                self.dir_cache.push(listing);
                proof {
                    let d2 = self.dir_cache@;
                    assert(d2 == d.push(l));
                    assert(paths_distinct(d2)) by {
                        assert forall|a: int, b: int| 0 <= a < b < d2.len() implies d2[a].path@ != d2[b].path@ by {
                            assert(d2[a] == d[a]);
                            if b < d.len() {
                                assert(d2[b] == d[b]);
                            }
                        }
                    }
                    assert(d2[d.len() as int] == l);
                    assert forall|m: int|
                        0 <= m < d.len() && (#[trigger] d[m]).path@ != path@ implies exists|m2: int|
                        0 <= m2 < d2.len() && d2[m2] == d[m] by {
                        assert(d2[m] == d[m]);
                    }
                    assert forall|m2: int|
                        0 <= m2 < d2.len() && (#[trigger] d2[m2]).path@ != path@ implies exists|m: int|
                        0 <= m < d.len() && d[m] == d2[m2] by {
                        assert(d[m2] == d2[m2]);
                    }
                    Self::lemma_listing_replaced(d, d2, path@, l);
                }
            },
        }
    }

    /// `record_listing_at` at the current time.
    pub fn record_listing(&mut self, path: &str, entries: Vec<FileEntry>)
        requires
            old(self).wf(),
        ensures
            final(self).wf(),
            final(self).files_view() == put_all(
                old(self).files_view(),
                old(self).capacity(),
                path@,
                entries@,
            ),
            final(self).capacity() == old(self).capacity(),
            exists|now: Timestamp| final(self).listing(path@) == Some((now, entries@)),
            forall|q: Seq<char>| q != path@ ==> final(self).listing(q) == old(self).listing(q),
            final(self).ttl == old(self).ttl,
            final(self).api == old(self).api,
    {
        let now = clock_now();
        self.record_listing_at(path, entries, now);
    }

    /// Forgets the listing of `path`, so that the next listing is fetched
    /// from the server.
    pub fn invalidate_dir(&mut self, path: &str)
        requires
            old(self).wf(),
        ensures
            final(self).wf(),
            final(self).listing(path@) == None::<(Timestamp, Seq<FileEntry>)>,
            forall|q: Seq<char>| q != path@ ==> final(self).listing(q) == old(self).listing(q),
            final(self).files == old(self).files,
            final(self).ttl == old(self).ttl,
            final(self).api == old(self).api,
    {
        let ghost d = self.dir_cache@;
        match self.find_listing(path) {
            Some(j) => {
                let _ = self.dir_cache.remove(j);
                proof {
                    let d2 = self.dir_cache@;
                    assert(d2 == d.remove(j as int));
                    assert forall|a: int| 0 <= a < d2.len() implies #[trigger] d2[a] == d[if a < j {
                        a
                    } else {
                        a + 1
                    }] by {}
                    assert(paths_distinct(d2)) by {
                        assert forall|a: int, b: int| 0 <= a < b < d2.len() implies d2[a].path@ != d2[b].path@ by {
                            let ia = if a < j { a } else { a + 1 };
                            let ib = if b < j { b } else { b + 1 };
                            assert(d2[a] == d[ia] && d2[b] == d[ib]);
                        }
                    }
                    assert forall|m2: int| 0 <= m2 < d2.len() implies (#[trigger] d2[m2]).path@ != path@ by {
                        let im = if m2 < j { m2 } else { m2 + 1 };
                        assert(d2[m2] == d[im]);
                        assert(d[im].path@ != d[j as int].path@);
                    }
                    assert forall|m: int|
                        0 <= m < d.len() && (#[trigger] d[m]).path@ != path@ implies exists|m2: int|
                        0 <= m2 < d2.len() && d2[m2] == d[m] by {
                        assert(m != j);
                        let m2 = if m < j { m } else { m - 1 };
                        assert(d2[m2] == d[m]);
                    }
                    assert forall|m2: int| 0 <= m2 < d2.len() implies exists|m: int|
                        0 <= m < d.len() && d[m] == #[trigger] d2[m2] by {
                        let im = if m2 < j { m2 } else { m2 + 1 };
                        assert(d2[m2] == d[im]);
                    }
                    Self::lemma_listing_removed(d, d2, path@);
                }
            },
            None => {},
        }
    }

    /// The cached file with inode number `ino`, which becomes the most
    /// recently used.
    pub fn get_file_by_ino(&mut self, ino: Inode) -> (r: Option<CachedFile>)
        requires
            old(self).wf(),
        ensures
            final(self).wf(),
            opt_file_view(r) == lru_find(old(self).files_view(), ino.0),
            final(self).files_view() == lru_promote(old(self).files_view(), ino.0),
            final(self).capacity() == old(self).capacity(),
            final(self).dir_cache == old(self).dir_cache,
            final(self).ttl == old(self).ttl,
            final(self).api == old(self).api,
    {
        let ghost before = self.files_view();
        let r = lru_get_file(&mut self.files, ino.0);
        proof {
            lemma_promote_shape(before, ino.0);
            let after = self.files_view();
            assert forall|a: int| 0 <= a < after.len() implies (#[trigger] after[a]).1.file_entry.ino
                == after[a].0 by {
                let j = choose|j: int| 0 <= j < before.len() && before[j] == after[a];
                assert(before[j].1.file_entry.ino == before[j].0);
            }
        }
        r
    }

    /// The cached file with inode number `ino`, leaving the order of use alone.
    pub fn peek_file_by_ino(&self, ino: Inode) -> (r: Option<CachedFile>)
        ensures
            opt_file_view(r) == lru_find(self.files_view(), ino.0),
    {
        lru_peek_file(&self.files, ino.0)
    }

    /// Takes the file with inode number `ino` out of the cache.
    pub fn forget_file(&mut self, ino: u64) -> (r: Option<CachedFile>)
        requires
            old(self).wf(),
        ensures
            final(self).wf(),
            opt_file_view(r) == lru_find(old(self).files_view(), ino),
            final(self).files_view() == lru_remove(old(self).files_view(), ino),
            final(self).capacity() == old(self).capacity(),
            final(self).dir_cache == old(self).dir_cache,
            final(self).ttl == old(self).ttl,
            final(self).api == old(self).api,
    {
        let ghost before = self.files_view();
        let r = lru_pop_file(&mut self.files, ino);
        proof {
            lemma_remove_shape(before, ino);
            let after = self.files_view();
            assert forall|a: int| 0 <= a < after.len() implies (#[trigger] after[a]).1.file_entry.ino
                == after[a].0 by {
                let j = choose|j: int| 0 <= j < before.len() && before[j] == after[a];
                assert(before[j].1.file_entry.ino == before[j].0);
            }
        }
        r
    }

    /// Stores `file` under its own inode number as the most recently used entry.
    pub fn store_file(&mut self, file: CachedFile)
        requires
            old(self).wf(),
        ensures
            final(self).wf(),
            final(self).files_view() == lru_put(
                old(self).files_view(),
                old(self).capacity(),
                file.file_entry.ino,
                file@,
            ),
            final(self).capacity() == old(self).capacity(),
            final(self).dir_cache == old(self).dir_cache,
            final(self).ttl == old(self).ttl,
            final(self).api == old(self).api,
    {
        let ghost before = self.files_view();
        let ghost v = file@;
        let ino = file.file_entry.ino;
        let _ = lru_put_file(&mut self.files, ino, file);
        proof {
            lemma_put_shape(before, self.capacity(), ino, v);
            let after = self.files_view();
            assert forall|a: int| 0 <= a < after.len() implies (#[trigger] after[a]).1.file_entry.ino
                == after[a].0 by {
                if a > 0 {
                    let j = choose|j: int| 0 <= j < before.len() && before[j] == after[a] && before[j].0 != ino;
                    assert(before[j].1.file_entry.ino == before[j].0);
                }
            }
        }
    }

    /// The most recently used cached file whose path is `path`.
    pub fn find_by_path(&self, path: &str) -> (r: Option<CachedFile>)
        ensures
            opt_file_view(r) == find_path(self.files_view(), path@),
    {
        let snap = lru_snapshot(&self.files);
        let ghost s = self.files_view();
        let n = snap.len();
        let mut i: usize = 0;
        while i < n
            invariant
                i <= n,
                n == snap@.len(),
                n == s.len(),
                s == self.files_view(),
                forall|k: int| #![trigger snap@[k]] 0 <= k < n ==> snap@[k].0 == s[k].0 && snap@[k].1@ == s[k].1,
                forall|j: int| 0 <= j < i ==> !same_path((#[trigger] s[j]).1.file_path, path@),
            decreases n - i,
        {
            assert(snap@[i as int].1@ == s[i as int].1);
            if same_path_str(snap[i].1.file_path.as_str(), path) {
                proof {
                    assert forall|j: int| 0 <= j < i implies !file_path_is(path@)(#[trigger] s[j]) by {}
                    lemma_first_index_at(s, file_path_is(path@), i as int);
                }
                return Some(snap[i].1.clone());
            }
            i = i + 1;
        }
        proof {
            lemma_first_index(s, file_path_is(path@));
            if first_index(s, file_path_is(path@)) >= 0 {
                let k = first_index(s, file_path_is(path@));
                assert(!same_path(s[k].1.file_path, path@));
            }
        }
        None
    }
}

} // verus!
