//! The client file system's operations. Each operation that needs the
//! server is split into steps: a step decides, from the state and what the
//! previous request answered, how the state changes and what comes next.

use vstd::prelude::*;
use std::collections::HashMap;
use crate::attr::{Attr, FileKind, attr_of, attr_spec, negative_attr, negative_attr_spec};
use crate::cache::{Cache, find_path, opt_entries};
use crate::entry::{
    CachedFile, CachedFileView, Fd, FileEntry, Inode, TimeSpan, Timestamp, clock_now,
};
use crate::file::{
    OpenFlags, OpenedFile, RfsFile, read_at, read_from, set_len, set_len_of, write_at, write_into,
};
use crate::lru_store::{lru_find, lru_promote, lru_put, lru_remove};
use crate::text::{concat3, decimal, join_path, join_spec, u64_to_decimal, str_eq};

verus! {

broadcast use vstd::std_specs::hash::group_hash_axioms;

/// Read-ahead size: a read that misses the buffer fetches at least this many bytes.
pub const PREFETCH_SIZE: u32 = 5242880;

/// Why an operation failed.
#[derive(Clone, Copy, Debug, PartialEq, Eq, Structural)]
pub enum FsError {
    /// No such file or directory.
    NotFound,
    /// The server could not be reached or refused the request.
    Io,
    /// The file is not open.
    BadDescriptor,
    /// The directory could not be removed.
    NotEmpty,
}

/// A directory and a path inside it that an operation works on.
pub struct PathPlan {
    pub parent_path: String,
    pub target_path: String,
}

/// Attributes to report for a name, and how long the kernel may keep them.
#[derive(Clone, Copy, Debug)]
pub struct EntryReply {
    pub attr: Attr,
    pub ttl: TimeSpan,
}

/// The reply to a file creation: attributes, their lifetime, and the
/// descriptor of the newly opened file.
#[derive(Clone, Copy, Debug)]
pub struct CreatedReply {
    pub attr: Attr,
    pub ttl: TimeSpan,
    pub fh: u64,
}

/// The inode number of `/`.
pub open spec fn root_ino() -> u64 {
    1
}

/// The path of inode `ino` as the client knows it.
pub open spec fn path_of(files: Seq<(u64, CachedFileView)>, ino: u64) -> Option<Seq<char>> {
    if ino == root_ino() {
        Some(seq!['/'])
    } else {
        match lru_find(files, ino) {
            Some(c) => Some(c.file_path),
            None => None,
        }
    }
}

/// The store after looking up the path of `ino`: any inode but the root
/// becomes the most recently used.
pub open spec fn touch(files: Seq<(u64, CachedFileView)>, ino: u64) -> Seq<(u64, CachedFileView)> {
    if ino == root_ino() {
        files
    } else {
        lru_promote(files, ino)
    }
}

pub open spec fn opt_string(o: Option<String>) -> Option<Seq<char>> {
    match o {
        Some(s) => Some(s@),
        None => None,
    }
}

/// The reply for a name found in the cache.
pub open spec fn entry_reply_spec(c: CachedFileView, ttl: TimeSpan) -> EntryReply {
    EntryReply { attr: attr_spec(c.file_entry), ttl }
}

/// The client file system.
pub struct RemoteFs {
    pub cache: Cache,
    /// The files held open, by inode number.
    pub rfs_files: HashMap<u64, RfsFile>,
    /// The next descriptor number to hand out.
    pub last_fd: u64,
    pub use_cache: bool,
    /// How long the kernel may keep the attributes it is told.
    pub ttl: TimeSpan,
}

/// Two states that agree on everything but the order and contents of the file store.
pub open spec fn same_but_files(a: RemoteFs, b: RemoteFs) -> bool {
    &&& a.rfs_files@ == b.rfs_files@
    &&& a.last_fd == b.last_fd
    &&& a.use_cache == b.use_cache
    &&& a.ttl == b.ttl
    &&& a.cache.dir_cache == b.cache.dir_cache
    &&& a.cache.ttl == b.cache.ttl
    &&& a.cache.api == b.cache.api
    &&& a.cache.capacity() == b.cache.capacity()
}

/// Two states that agree on their settings.
pub open spec fn same_settings(a: RemoteFs, b: RemoteFs) -> bool {
    &&& a.use_cache == b.use_cache
    &&& a.ttl == b.ttl
    &&& a.cache.ttl == b.cache.ttl
    &&& a.cache.api == b.cache.api
    &&& a.cache.capacity() == b.cache.capacity()
}

impl RemoteFs {
    pub open spec fn files(self) -> Seq<(u64, CachedFileView)> {
        self.cache.files_view()
    }

    pub open spec fn wf(self) -> bool {
        &&& self.cache.wf()
        &&& forall|k: u64| #[trigger]
            self.rfs_files@.contains_key(k) ==> {
                &&& self.rfs_files@[k].file_entry.ino == k
                &&& forall|d: u64| #[trigger]
                    self.rfs_files@[k].fds@.contains_key(d) ==> self.rfs_files@[k].fds@[d].fd.0 == d
                        && self.rfs_files@[k].fds@[d].ino.0 == k
            }
    }

    /// Every descriptor open is below the counter that hands them out.
    pub open spec fn fds_below_counter(self) -> bool {
        forall|k: u64, d: u64|
            #![trigger self.rfs_files@[k].fds@.contains_key(d)]
            self.rfs_files@.contains_key(k) && self.rfs_files@[k].fds@.contains_key(d) ==> d
                < self.last_fd
    }

    /// A file system with only `/` known, fetched at `now`.
    pub fn new_at(use_cache: bool, cache_capacity: usize, ttl_secs: u64, server_url: String, now: Timestamp) -> (fs: RemoteFs)
        ensures
            fs.wf(),
            fs.fds_below_counter(),
            fs.files().len() == 1,
            fs.files()[0].0 == 1,
            fs.files()[0].1.file_path == seq!['/'],
            fs.files()[0].1.file_entry.ino == 1,
            fs.files()[0].1.file_entry.is_dir,
            fs.files()[0].1.file_entry.size == 0,
            fs.files()[0].1.file_entry.modified_at == now,
            fs.files()[0].1.file_entry.permissions == 0o755,
            fs.files()[0].1.file_entry.name@ == seq!['/'],
            fs.cache.capacity() == (if cache_capacity == 0 {
                1000
            } else {
                cache_capacity
            }),
            fs.cache.dir_cache@.len() == 0,
            fs.cache.ttl == (TimeSpan { secs: ttl_secs, nanos: 0 }),
            fs.rfs_files@ == Map::<u64, RfsFile>::empty(),
            fs.last_fd == 10,
            fs.use_cache == use_cache,
            fs.ttl == (TimeSpan { secs: ttl_secs, nanos: 0 }),
    {
        let mut cache = Cache::new(cache_capacity, TimeSpan::from_secs(ttl_secs), server_url);
        let root = CachedFile {
            file_entry: FileEntry {
                ino: 1,
                name: String::from_str("/"),
                is_dir: true,
                size: 0,
                modified_at: now,
                permissions: 0o755,
            },
            file_path: String::from_str("/"),
        };
        proof {
            reveal_strlit("/");
        }
        let ghost rv = root@;
        cache.store_file(root);
        proof {
            crate::lru_store::lemma_key_pos(Seq::<(u64, CachedFileView)>::empty(), 1);
            assert(cache.files_view() =~= seq![(1u64, rv)]);
        }
        RemoteFs {
            cache,
            rfs_files: HashMap::new(),
            last_fd: 10,
            use_cache,
            ttl: TimeSpan::from_secs(ttl_secs),
        }
    }

    /// A file system with only `/` known, fetched now.
    pub fn new(use_cache: bool, cache_capacity: usize, ttl_secs: u64, server_url: String) -> (fs: RemoteFs)
        ensures
            fs.wf(),
            fs.fds_below_counter(),
            fs.files().len() == 1,
            fs.files()[0].0 == 1,
            fs.files()[0].1.file_path == seq!['/'],
            fs.files()[0].1.file_entry.ino == 1,
            fs.files()[0].1.file_entry.is_dir,
            fs.files()[0].1.file_entry.size == 0,
            fs.files()[0].1.file_entry.permissions == 0o755,
            fs.files()[0].1.file_entry.name@ == seq!['/'],
            fs.cache.capacity() == (if cache_capacity == 0 {
                1000
            } else {
                cache_capacity
            }),
            fs.cache.dir_cache@.len() == 0,
            fs.cache.ttl == (TimeSpan { secs: ttl_secs, nanos: 0 }),
            fs.rfs_files@ == Map::<u64, RfsFile>::empty(),
            fs.last_fd == 10,
            fs.use_cache == use_cache,
            fs.ttl == (TimeSpan { secs: ttl_secs, nanos: 0 }),
    {
        let now = clock_now();
        Self::new_at(use_cache, cache_capacity, ttl_secs, server_url, now)
    }

    /// Hands out a new descriptor number; the counter wraps around at its end.
    pub fn alloc_fd(&mut self) -> (fd: Fd)
        ensures
            fd.0 == old(self).last_fd,
            final(self).last_fd == (if old(self).last_fd == u64::MAX {
                0
            } else {
                (old(self).last_fd + 1) as u64
            }),
            final(self).cache == old(self).cache,
            final(self).rfs_files == old(self).rfs_files,
            final(self).use_cache == old(self).use_cache,
            final(self).ttl == old(self).ttl,
    {
        let fd = Fd(self.last_fd);
        self.last_fd = self.last_fd.wrapping_add(1);
        fd
    }

    /// The path of inode `ino`: `/` for the root, else that of the cached
    /// file, which becomes the most recently used.
    pub fn get_path_str(&mut self, ino: Inode) -> (r: Option<String>)
        requires
            old(self).wf(),
        ensures
            final(self).wf(),
            opt_string(r) == path_of(old(self).files(), ino.0),
            final(self).files() == touch(old(self).files(), ino.0),
            same_but_files(*old(self), *final(self)),
            final(self).fds_below_counter() == old(self).fds_below_counter(),
    {
        if ino.0 == 1 {
            let s = String::from_str("/");
            proof {
                reveal_strlit("/");
            }
            return Some(s);
        }
        match self.cache.get_file_by_ino(ino) {
            Some(f) => Some(f.file_path),
            None => None,
        }
    }

    /// Resolves `name` inside directory `parent`.
    pub fn resolve_child(&mut self, parent: u64, name: &str) -> (r: Result<PathPlan, FsError>)
        requires
            old(self).wf(),
        ensures
            final(self).wf(),
            final(self).files() == touch(old(self).files(), parent),
            same_but_files(*old(self), *final(self)),
            final(self).fds_below_counter() == old(self).fds_below_counter(),
            match path_of(old(self).files(), parent) {
                None => r == Err::<PathPlan, FsError>(FsError::NotFound),
                Some(pp) => r matches Ok(plan) && plan.parent_path@ == pp && plan.target_path@
                    == join_spec(pp, name@),
            },
    {
        match self.get_path_str(Inode(parent)) {
            None => Err(FsError::NotFound),
            Some(parent_path) => {
                let target_path = join_path(parent_path.as_str(), name);
                Ok(PathPlan { parent_path, target_path })
            },
        }
    }
}

/// What `lookup` does next.
pub enum LookupStep {
    /// Reply with these attributes.
    Reply(EntryReply),
    /// Fetch the listing of `parent_path` into the cache, then call
    /// `lookup_after_listing`.
    ListParent(PathPlan),
    /// Reply with this error.
    Failed(FsError),
}

/// One entry to add to a directory reply.
pub struct DirEntryReply {
    pub ino: u64,
    /// The offset at which listing continues after this entry.
    pub offset: i64,
    pub kind: FileKind,
    pub name: String,
}

impl RemoteFs {
    /// First step of looking up `name` in directory `parent`: a cached
    /// file with that path answers at once; otherwise the parent's listing
    /// is needed.
    pub fn lookup_start(&mut self, parent: u64, name: &str) -> (r: LookupStep)
        requires
            old(self).wf(),
        ensures
            final(self).wf(),
            final(self).files() == touch(old(self).files(), parent),
            same_but_files(*old(self), *final(self)),
            final(self).fds_below_counter() == old(self).fds_below_counter(),
            match path_of(old(self).files(), parent) {
                None => r matches LookupStep::Failed(e) && e == FsError::NotFound,
                Some(pp) => {
                    let t = join_spec(pp, name@);
                    match find_path(final(self).files(), t) {
                        Some(c) => r matches LookupStep::Reply(rep) && rep == entry_reply_spec(
                            c,
                            old(self).ttl,
                        ),
                        None => r matches LookupStep::ListParent(plan) && plan.parent_path@ == pp
                            && plan.target_path@ == t,
                    }
                },
            },
    {
        match self.resolve_child(parent, name) {
            Err(e) => LookupStep::Failed(e),
            Ok(plan) => {
                match self.cache.find_by_path(plan.target_path.as_str()) {
                    Some(c) => LookupStep::Reply(EntryReply { attr: attr_of(&c.file_entry), ttl: self.ttl }),
                    None => LookupStep::ListParent(plan),
                }
            },
        }
    }

    /// Last step of a lookup, after the parent's listing was fetched: the
    /// cached file with the path, or all-zero attributes that the kernel
    /// must not keep.
    pub fn lookup_after_listing(&self, plan: &PathPlan) -> (r: EntryReply)
        ensures
            r == (match find_path(self.files(), plan.target_path@) {
                Some(c) => entry_reply_spec(c, self.ttl),
                None => EntryReply { attr: negative_attr_spec(), ttl: TimeSpan { secs: 0, nanos: 0 } },
            }),
    {
        match self.cache.find_by_path(plan.target_path.as_str()) {
            Some(c) => EntryReply { attr: attr_of(&c.file_entry), ttl: self.ttl },
            None => EntryReply { attr: negative_attr(), ttl: TimeSpan::zero() },
        }
    }

    /// The listing of `path` that may be served at `now` without asking the
    /// server: none when the cache is switched off, else the cache's.
    pub fn listing_from_cache_at(&self, path: &str, now: Timestamp) -> (r: Option<Vec<FileEntry>>)
        requires
            self.wf(),
        ensures
            opt_entries(r) == (if self.use_cache {
                self.cache.cached_at(path@, now)
            } else {
                None
            }),
    {
        if self.use_cache {
            self.cache.cached_listing_at(path, now)
        } else {
            None
        }
    }

    /// The listing of `path` that may be served now without asking the
    /// server: none when the cache is switched off.
    pub fn listing_from_cache(&self, path: &str) -> (r: Option<Vec<FileEntry>>)
        requires
            self.wf(),
        ensures
            !self.use_cache ==> r is None,
            self.use_cache ==> exists|now: Timestamp| opt_entries(r) == self.cache.cached_at(path@, now),
            r is Some ==> (self.cache.listing(path@) matches Some((t, es)) && opt_entries(r) == Some(es)),
    {
        let now = clock_now();
        self.listing_from_cache_at(path, now)
    }

    /// First step of listing directory `ino`: its path, whose listing is needed.
    pub fn readdir_start(&mut self, ino: u64) -> (r: Result<String, FsError>)
        requires
            old(self).wf(),
        ensures
            final(self).wf(),
            final(self).files() == touch(old(self).files(), ino),
            same_but_files(*old(self), *final(self)),
            final(self).fds_below_counter() == old(self).fds_below_counter(),
            match path_of(old(self).files(), ino) {
                None => r == Err::<String, FsError>(FsError::NotFound),
                Some(p) => r matches Ok(s) && s@ == p,
            },
    {
        match self.get_path_str(Inode(ino)) {
            Some(p) => Ok(p),
            None => Err(FsError::NotFound),
        }
    }
}

/// The entries of a listing from position `offset` on, each with the
/// offset that follows it.
pub fn readdir_entries(entries: &Vec<FileEntry>, offset: i64) -> (r: Vec<DirEntryReply>)
    ensures
        r@.len() == (if (offset as usize) < entries@.len() {
            entries@.len() - (offset as usize)
        } else {
            0
        }),
        forall|j: int|
            #![trigger r@[j]]
            0 <= j < r@.len() ==> {
                let e = entries@[(offset as usize) + j];
                &&& r@[j].ino == e.ino
                &&& r@[j].offset == ((offset as usize) + j + 1) as i64
                &&& r@[j].kind == (if e.is_dir {
                    FileKind::Directory
                } else {
                    FileKind::RegularFile
                })
                &&& r@[j].name@ == e.name@
            },
{
    let skip = offset as usize;
    let n = entries.len();
    let mut r: Vec<DirEntryReply> = Vec::new();
    if skip >= n {
        return r;
    }
    let mut i: usize = skip;
    while i < n
        invariant
            skip <= i <= n,
            n == entries@.len(),
            skip == offset as usize,
            r@.len() == i - skip,
            forall|j: int|
                #![trigger r@[j]]
                0 <= j < r@.len() ==> {
                    let e = entries@[skip + j];
                    &&& r@[j].ino == e.ino
                    &&& r@[j].offset == (skip + j + 1) as i64
                    &&& r@[j].kind == (if e.is_dir {
                        FileKind::Directory
                    } else {
                        FileKind::RegularFile
                    })
                    &&& r@[j].name@ == e.name@
                },
        decreases n - i,
    {
        let e = &entries[i];
        let kind = if e.is_dir {
            FileKind::Directory
        } else {
            FileKind::RegularFile
        };
        r.push(DirEntryReply { ino: e.ino, offset: (i + 1) as i64, kind, name: e.name.clone() });
        i = i + 1;
    }
    r
}

} // verus!

verus! {

/// The descriptor counter after handing out one number.
pub open spec fn next_fd(n: u64) -> u64 {
    if n == u64::MAX {
        0
    } else {
        (n + 1) as u64
    }
}

/// `b` is `a` with the listing of `p` forgotten.
pub open spec fn listing_forgotten(a: RemoteFs, b: RemoteFs, p: Seq<char>) -> bool {
    &&& b.cache.files == a.cache.files
    &&& b.rfs_files@ == a.rfs_files@
    &&& b.last_fd == a.last_fd
    &&& same_settings(a, b)
    &&& b.cache.listing(p) == None::<(Timestamp, Seq<FileEntry>)>
    &&& forall|q: Seq<char>| q != p ==> b.cache.listing(q) == a.cache.listing(q)
}

/// `f` is the file `c` just opened with the one descriptor `fd`.
pub open spec fn freshly_opened(f: RfsFile, c: CachedFileView, fd: u64, flags: OpenFlags, dirty: bool) -> bool {
    &&& f.file_entry == c.file_entry
    &&& f.file_path@ == c.file_path
    &&& f.fds@ == Map::<u64, OpenedFile>::empty().insert(
        fd,
        OpenedFile { fd: Fd(fd), ino: Inode(c.file_entry.ino), flags },
    )
    &&& f.write_buffer@ == Seq::<u8>::empty()
    &&& f.is_dirty == dirty
    &&& f.write_offset == 0
    &&& f.read_buffer@ == Seq::<u8>::empty()
    &&& f.read_buffer_offset == 0
    &&& !f.unlinked
}

/// `b` and `a` agree on everything but the path and the deletion mark.
pub open spec fn same_but_path(a: RfsFile, b: RfsFile) -> bool {
    &&& b.file_entry == a.file_entry
    &&& b.fds@ == a.fds@
    &&& b.write_buffer@ == a.write_buffer@
    &&& b.is_dirty == a.is_dirty
    &&& b.write_offset == a.write_offset
    &&& b.read_buffer@ == a.read_buffer@
    &&& b.read_buffer_offset == a.read_buffer_offset
}

/// The name a file gets when it is deleted while still open.
pub open spec fn hidden_name_spec(ino: u64, name: Seq<char>) -> Seq<char> {
    seq!['.', 'd', 'e', 'l', 'e', 't', 'e', 'd', '_'] + decimal(ino as nat) + seq!['_'] + name
}

/// How `unlink` removes a file.
pub enum UnlinkPlan {
    /// The file is open: rename it on the server to `hidden_name` in the
    /// same directory, and delete it when its last descriptor closes.
    Hide { parent_path: String, target_path: String, hidden_name: String, ino: u64 },
    /// Delete it on the server now; `cached_ino` is its inode in the cache.
    Delete { parent_path: String, target_path: String, cached_ino: Option<u64> },
}

/// The paths a rename works on.
pub struct RenamePlan {
    pub parent_path: String,
    pub new_parent_path: String,
    pub old_path: String,
    /// What the server is asked to rename `old_path` to: the bare new name
    /// within the same directory, or the absolute destination for a move
    /// into another directory.
    pub new_name: String,
    pub new_full_path: String,
}

impl RemoteFs {
    proof fn lemma_fds_below_same(self, other: RemoteFs)
        requires
            other.rfs_files@ == self.rfs_files@,
            other.last_fd == self.last_fd,
        ensures
            other.fds_below_counter() == self.fds_below_counter(),
    {
        if self.fds_below_counter() {
            assert forall|k: u64, d: u64|
                #![trigger other.rfs_files@[k].fds@.contains_key(d)]
                other.rfs_files@.contains_key(k) && other.rfs_files@[k].fds@.contains_key(d)
                    implies d < other.last_fd by {
                assert(self.rfs_files@[k].fds@.contains_key(d));
            }
        }
        if other.fds_below_counter() {
            assert forall|k: u64, d: u64|
                #![trigger self.rfs_files@[k].fds@.contains_key(d)]
                self.rfs_files@.contains_key(k) && self.rfs_files@[k].fds@.contains_key(d)
                    implies d < self.last_fd by {
                assert(other.rfs_files@[k].fds@.contains_key(d));
            }
        }
    }

    proof fn lemma_fds_below_update(self, other: RemoteFs, k0: u64)
        requires
            other.rfs_files@.dom() == self.rfs_files@.dom(),
            other.last_fd == self.last_fd,
            forall|j: u64| j != k0 && #[trigger] self.rfs_files@.contains_key(j) ==> other.rfs_files@[j] == self.rfs_files@[j],
            self.rfs_files@.contains_key(k0) ==> other.rfs_files@[k0].fds@ == self.rfs_files@[k0].fds@,
        ensures
            other.fds_below_counter() == self.fds_below_counter(),
    {
        if self.fds_below_counter() {
            assert forall|k: u64, d: u64|
                #![trigger other.rfs_files@[k].fds@.contains_key(d)]
                other.rfs_files@.contains_key(k) && other.rfs_files@[k].fds@.contains_key(d)
                    implies d < other.last_fd by {
                assert(self.rfs_files@.contains_key(k));
                assert(self.rfs_files@[k].fds@.contains_key(d));
            }
        }
        if other.fds_below_counter() {
            assert forall|k: u64, d: u64|
                #![trigger self.rfs_files@[k].fds@.contains_key(d)]
                self.rfs_files@.contains_key(k) && self.rfs_files@[k].fds@.contains_key(d)
                    implies d < self.last_fd by {
                assert(other.rfs_files@.contains_key(k));
                assert(other.rfs_files@[k].fds@.contains_key(d));
            }
        }
    }

    proof fn lemma_wf_insert(self, other: RemoteFs, k: u64)
        requires
            self.wf(),
            other.cache.wf(),
            other.rfs_files@.dom() == self.rfs_files@.dom().insert(k),
            forall|j: u64| j != k && #[trigger] self.rfs_files@.contains_key(j) ==> other.rfs_files@[j] == self.rfs_files@[j],
            other.rfs_files@[k].file_entry.ino == k,
            forall|d: u64| #[trigger]
                other.rfs_files@[k].fds@.contains_key(d) ==> other.rfs_files@[k].fds@[d].fd.0 == d
                    && other.rfs_files@[k].fds@[d].ino.0 == k,
        ensures
            other.wf(),
    {
        assert forall|j: u64| #[trigger] other.rfs_files@.contains_key(j) implies {
            &&& other.rfs_files@[j].file_entry.ino == j
            &&& forall|d: u64| #[trigger]
                other.rfs_files@[j].fds@.contains_key(d) ==> other.rfs_files@[j].fds@[d].fd.0 == d
                    && other.rfs_files@[j].fds@[d].ino.0 == j
        } by {
            if j != k {
                assert(self.rfs_files@.contains_key(j));
            }
        }
    }

    /// After the server was asked to create the target of `plan`: a failure
    /// is an I/O error; on success the parent's listing is forgotten, to be
    /// fetched anew.
    pub fn remote_create_done(&mut self, plan: &PathPlan, ok: bool) -> (r: Result<(), FsError>)
        requires
            old(self).wf(),
        ensures
            final(self).wf(),
            final(self).fds_below_counter() == old(self).fds_below_counter(),
            !ok ==> r == Err::<(), FsError>(FsError::Io) && *final(self) == *old(self),
            ok ==> r == Ok::<(), FsError>(()) && listing_forgotten(
                *old(self),
                *final(self),
                plan.parent_path@,
            ),
    {
        if !ok {
            return Err(FsError::Io);
        }
        self.cache.invalidate_dir(plan.parent_path.as_str());
        proof {
            old(self).lemma_fds_below_same(*self);
        }
        Ok(())
    }

    /// Last step of making a directory or an empty file: the new entry as
    /// the refreshed cache holds it; if it is missing, the parent's listing
    /// is forgotten and the operation fails.
    pub fn created_entry_finish(&mut self, plan: &PathPlan) -> (r: Result<EntryReply, FsError>)
        requires
            old(self).wf(),
        ensures
            final(self).wf(),
            final(self).fds_below_counter() == old(self).fds_below_counter(),
            match find_path(old(self).files(), plan.target_path@) {
                Some(c) => r matches Ok(rep) && rep == entry_reply_spec(c, old(self).ttl) && *final(self)
                    == *old(self),
                None => r matches Err(e) && e == FsError::Io && listing_forgotten(
                    *old(self),
                    *final(self),
                    plan.parent_path@,
                ),
            },
    {
        match self.cache.find_by_path(plan.target_path.as_str()) {
            Some(c) => Ok(EntryReply { attr: attr_of(&c.file_entry), ttl: self.ttl }),
            None => {
                self.cache.invalidate_dir(plan.parent_path.as_str());
                proof {
                    old(self).lemma_fds_below_same(*self);
                }
                Err(FsError::Io)
            },
        }
    }

    /// Last step of creating a file: the new entry is opened for writing
    /// under a new descriptor, with an empty buffer marked as changed.
    pub fn create_finish(&mut self, plan: &PathPlan) -> (r: Result<CreatedReply, FsError>)
        requires
            old(self).wf(),
        ensures
            final(self).wf(),
            match find_path(old(self).files(), plan.target_path@) {
                None => r == Err::<CreatedReply, FsError>(FsError::Io) && *final(self) == *old(self),
                Some(c) => {
                    let ino = c.file_entry.ino;
                    &&& r matches Ok(rep) && rep.attr == attr_spec(c.file_entry) && rep.ttl
                        == old(self).ttl && rep.fh == old(self).last_fd
                    &&& final(self).last_fd == next_fd(old(self).last_fd)
                    &&& final(self).cache == old(self).cache
                    &&& same_settings(*old(self), *final(self))
                    &&& final(self).rfs_files@.dom() == old(self).rfs_files@.dom().insert(ino)
                    &&& forall|k: u64|
                        k != ino && #[trigger] old(self).rfs_files@.contains_key(k)
                            ==> final(self).rfs_files@[k] == old(self).rfs_files@[k]
                    &&& freshly_opened(
                        final(self).rfs_files@[ino],
                        c,
                        old(self).last_fd,
                        OpenFlags(2),
                        true,
                    )
                    &&& (old(self).fds_below_counter() && old(self).last_fd < u64::MAX)
                        ==> final(self).fds_below_counter()
                },
            },
    {
        match self.cache.find_by_path(plan.target_path.as_str()) {
            None => Err(FsError::Io),
            Some(cached) => {
                let ghost c = cached@;
                let fd = self.alloc_fd();
                let ino = cached.file_entry.ino;
                let mut f = RfsFile::from_cached(cached);
                f.fds.insert(fd.0, OpenedFile { fd, ino: Inode(ino), flags: OpenFlags::for_writing() });
                f.write_buffer = Vec::new();
                f.is_dirty = true;
                let attr = attr_of(&f.file_entry);
                let ghost before = *self;
                self.rfs_files.insert(ino, f);
                proof {
                    assert(self.rfs_files@[ino].fds@ =~= Map::<u64, OpenedFile>::empty().insert(
                        fd.0,
                        OpenedFile { fd, ino: Inode(ino), flags: OpenFlags(2) },
                    ));
                    assert(self.rfs_files@.dom() =~= old(self).rfs_files@.dom().insert(ino));
                    old(self).lemma_wf_insert(*self, ino);
                    if old(self).fds_below_counter() && old(self).last_fd < u64::MAX {
                        assert forall|k: u64, d: u64|
                            #![trigger self.rfs_files@[k].fds@.contains_key(d)]
                            self.rfs_files@.contains_key(k) && self.rfs_files@[k].fds@.contains_key(d)
                                implies d < self.last_fd by {
                            if k != ino {
                                assert(old(self).rfs_files@.contains_key(k));
                                assert(old(self).rfs_files@[k].fds@.contains_key(d));
                            }
                        }
                    }
                }
                Ok(CreatedReply { attr, ttl: self.ttl, fh: fd.0 })
            },
        }
    }
}

/// Writes the name a file gets when it is deleted while still open.
fn hidden_name(ino: u64, name: &str) -> (r: String)
    ensures
        r@ == hidden_name_spec(ino, name@),
{
    let digits = u64_to_decimal(ino);
    let s = concat3(".deleted_", digits.as_str(), "_");
    let r = s.concat(name);
    proof {
        reveal_strlit(".deleted_");
        reveal_strlit("_");
        assert(r@ =~= hidden_name_spec(ino, name@));
    }
    r
}

impl RemoteFs {
    /// First step of deleting `name` from directory `parent`.
    pub fn unlink_start(&mut self, parent: u64, name: &str) -> (r: Result<UnlinkPlan, FsError>)
        requires
            old(self).wf(),
        ensures
            final(self).wf(),
            final(self).files() == touch(old(self).files(), parent),
            same_but_files(*old(self), *final(self)),
            final(self).fds_below_counter() == old(self).fds_below_counter(),
            match path_of(old(self).files(), parent) {
                None => r matches Err(e) && e == FsError::NotFound,
                Some(pp) => {
                    let t = join_spec(pp, name@);
                    match find_path(final(self).files(), t) {
                        Some(c) => {
                            let ino = c.file_entry.ino;
                            if old(self).rfs_files@.contains_key(ino) && !old(
                                self,
                            ).rfs_files@[ino].fds@.is_empty() {
                                r matches Ok(UnlinkPlan::Hide { parent_path, target_path, hidden_name, ino: i })
                                    && parent_path@ == pp && target_path@ == t && hidden_name@
                                    == hidden_name_spec(ino, name@) && i == ino
                            } else {
                                r matches Ok(UnlinkPlan::Delete { parent_path, target_path, cached_ino })
                                    && parent_path@ == pp && target_path@ == t && cached_ino == Some(
                                    ino,
                                )
                            }
                        },
                        None => r matches Ok(UnlinkPlan::Delete { parent_path, target_path, cached_ino })
                            && parent_path@ == pp && target_path@ == t && cached_ino == None::<u64>,
                    }
                },
            },
    {
        let plan = match self.resolve_child(parent, name) {
            Err(e) => return Err(e),
            Ok(p) => p,
        };
        match self.cache.find_by_path(plan.target_path.as_str()) {
            Some(c) => {
                let ino = c.file_entry.ino;
                let is_open = match self.rfs_files.get(&ino) {
                    Some(f) => !f.fds.is_empty(),
                    None => false,
                };
                if is_open {
                    Ok(UnlinkPlan::Hide {
                        parent_path: plan.parent_path,
                        target_path: plan.target_path,
                        hidden_name: hidden_name(ino, name),
                        ino,
                    })
                } else {
                    Ok(UnlinkPlan::Delete {
                        parent_path: plan.parent_path,
                        target_path: plan.target_path,
                        cached_ino: Some(ino),
                    })
                }
            },
            None => Ok(
                UnlinkPlan::Delete {
                    parent_path: plan.parent_path,
                    target_path: plan.target_path,
                    cached_ino: None,
                },
            ),
        }
    }

    /// After the server was asked to hide or delete the file: a failure is
    /// an I/O error. A hidden file that is open is marked for deletion
    /// under its new path, and the parent's listing is to be fetched again
    /// (the path of that directory comes back). A deleted file leaves the
    /// cache, and the parent's listing is forgotten.
    pub fn unlink_done(&mut self, plan: &UnlinkPlan, ok: bool) -> (r: Result<Option<String>, FsError>)
        requires
            old(self).wf(),
        ensures
            final(self).wf(),
            final(self).fds_below_counter() == old(self).fds_below_counter(),
            !ok ==> r == Err::<Option<String>, FsError>(FsError::Io) && *final(self) == *old(self),
            ok ==> match plan {
                UnlinkPlan::Hide { parent_path, target_path, hidden_name, ino } => {
                    &&& r matches Ok(Some(p)) && p@ == parent_path@
                    &&& final(self).cache == old(self).cache
                    &&& final(self).last_fd == old(self).last_fd
                    &&& same_settings(*old(self), *final(self))
                    &&& final(self).rfs_files@.dom() == old(self).rfs_files@.dom()
                    &&& forall|k: u64|
                        k != *ino && #[trigger] old(self).rfs_files@.contains_key(k)
                            ==> final(self).rfs_files@[k] == old(self).rfs_files@[k]
                    &&& old(self).rfs_files@.contains_key(*ino) ==> {
                        &&& same_but_path(old(self).rfs_files@[*ino], final(self).rfs_files@[*ino])
                        &&& final(self).rfs_files@[*ino].unlinked
                        &&& final(self).rfs_files@[*ino].file_path@ == join_spec(
                            parent_path@,
                            hidden_name@,
                        )
                    }
                },
                UnlinkPlan::Delete { parent_path, target_path, cached_ino } => {
                    &&& r == Ok::<Option<String>, FsError>(None)
                    &&& final(self).files() == (match cached_ino {
                        Some(i) => lru_remove(old(self).files(), *i),
                        None => old(self).files(),
                    })
                    &&& final(self).rfs_files@ == old(self).rfs_files@
                    &&& final(self).last_fd == old(self).last_fd
                    &&& same_settings(*old(self), *final(self))
                    &&& final(self).cache.listing(parent_path@) == None::<(Timestamp, Seq<FileEntry>)>
                    &&& forall|q: Seq<char>|
                        q != parent_path@ ==> final(self).cache.listing(q) == old(self).cache.listing(q)
                },
            },
    {
        if !ok {
            return Err(FsError::Io);
        }
        match plan {
            UnlinkPlan::Hide { parent_path, target_path, hidden_name, ino } => {
                let new_path = join_path(parent_path.as_str(), hidden_name.as_str());
                match self.rfs_files.remove(ino) {
                    Some(mut f) => {
                        let ghost f0 = f;
                        f.unlinked = true;
                        f.file_path = new_path;
                        self.rfs_files.insert(*ino, f);
                        proof {
                            assert(old(self).rfs_files@.contains_key(*ino));
                            assert(f0 == old(self).rfs_files@[*ino]);
                            assert(self.rfs_files@.dom() =~= old(self).rfs_files@.dom());
                            assert(self.rfs_files@.dom() =~= old(self).rfs_files@.dom().insert(*ino));
                            old(self).lemma_wf_insert(*self, *ino);
                            old(self).lemma_fds_below_update(*self, *ino);
                        }
                    },
                    None => {
                        assert(self.rfs_files@ =~= old(self).rfs_files@);
                        proof {
                            old(self).lemma_fds_below_same(*self);
                        }
                    },
                }
                Ok(Some(parent_path.clone()))
            },
            UnlinkPlan::Delete { parent_path, target_path, cached_ino } => {
                match cached_ino {
                    Some(i) => {
                        let _ = self.cache.forget_file(*i);
                    },
                    None => {},
                }
                self.cache.invalidate_dir(parent_path.as_str());
                proof {
                    old(self).lemma_fds_below_same(*self);
                }
                Ok(None)
            },
        }
    }

    /// After the server was asked to remove the directory of `plan`: a
    /// failure means the directory was not empty; on success it leaves the
    /// cache, and its parent's listing is forgotten.
    pub fn rmdir_done(&mut self, plan: &PathPlan, ok: bool) -> (r: Result<(), FsError>)
        requires
            old(self).wf(),
        ensures
            final(self).wf(),
            final(self).fds_below_counter() == old(self).fds_below_counter(),
            !ok ==> r == Err::<(), FsError>(FsError::NotEmpty) && *final(self) == *old(self),
            ok ==> {
                &&& r == Ok::<(), FsError>(())
                &&& final(self).files() == (match find_path(old(self).files(), plan.target_path@) {
                    Some(c) => lru_remove(old(self).files(), c.file_entry.ino),
                    None => old(self).files(),
                })
                &&& final(self).rfs_files@ == old(self).rfs_files@
                &&& final(self).last_fd == old(self).last_fd
                &&& same_settings(*old(self), *final(self))
                &&& final(self).cache.listing(plan.parent_path@) == None::<(Timestamp, Seq<FileEntry>)>
                &&& forall|q: Seq<char>|
                    q != plan.parent_path@ ==> final(self).cache.listing(q) == old(self).cache.listing(q)
            },
    {
        if !ok {
            return Err(FsError::NotEmpty);
        }
        match self.cache.find_by_path(plan.target_path.as_str()) {
            Some(c) => {
                let _ = self.cache.forget_file(c.file_entry.ino);
            },
            None => {},
        }
        self.cache.invalidate_dir(plan.parent_path.as_str());
        proof {
            old(self).lemma_fds_below_same(*self);
        }
        Ok(())
    }

    /// First step of renaming `name` in `parent` to `new_name` in `new_parent`.
    pub fn rename_start(&mut self, parent: u64, name: &str, new_parent: u64, new_name: &str) -> (r: Result<RenamePlan, FsError>)
        requires
            old(self).wf(),
        ensures
            final(self).wf(),
            same_but_files(*old(self), *final(self)),
            final(self).fds_below_counter() == old(self).fds_below_counter(),
            match path_of(old(self).files(), parent) {
                None => r matches Err(e) && e == FsError::NotFound && final(self).files() == touch(
                    old(self).files(),
                    parent,
                ),
                Some(pp) => {
                    let mid = touch(old(self).files(), parent);
                    &&& final(self).files() == touch(mid, new_parent)
                    &&& match path_of(mid, new_parent) {
                        None => r matches Err(e) && e == FsError::NotFound,
                        Some(npp) => r matches Ok(plan) && plan.parent_path@ == pp
                            && plan.new_parent_path@ == npp && plan.old_path@ == join_spec(pp, name@)
                            && plan.new_full_path@ == join_spec(npp, new_name@) && plan.new_name@ == (
                        if npp == pp {
                            new_name@
                        } else {
                            join_spec(npp, new_name@)
                        }),
                    }
                },
            },
    {
        let parent_path = match self.get_path_str(Inode(parent)) {
            Some(p) => p,
            None => return Err(FsError::NotFound),
        };
        let new_parent_path = match self.get_path_str(Inode(new_parent)) {
            Some(p) => p,
            None => return Err(FsError::NotFound),
        };
        let old_path = join_path(parent_path.as_str(), name);
        let new_full_path = join_path(new_parent_path.as_str(), new_name);
        let sent_name = if str_eq(parent_path.as_str(), new_parent_path.as_str()) {
            String::from_str(new_name)
        } else {
            new_full_path.clone()
        };
        Ok(
            RenamePlan {
                parent_path,
                new_parent_path,
                old_path,
                new_name: sent_name,
                new_full_path,
            },
        )
    }

    /// After the server was asked to rename: a failure is an I/O error. On
    /// success the file leaves the cache, an open file takes the new path,
    /// and the listings of both directories are forgotten.
    pub fn rename_done(&mut self, plan: &RenamePlan, ok: bool) -> (r: Result<(), FsError>)
        requires
            old(self).wf(),
        ensures
            final(self).wf(),
            final(self).fds_below_counter() == old(self).fds_below_counter(),
            !ok ==> r == Err::<(), FsError>(FsError::Io) && *final(self) == *old(self),
            ok ==> {
                let found = find_path(old(self).files(), plan.old_path@);
                &&& r == Ok::<(), FsError>(())
                &&& final(self).files() == (match found {
                    Some(c) => lru_remove(old(self).files(), c.file_entry.ino),
                    None => old(self).files(),
                })
                &&& final(self).last_fd == old(self).last_fd
                &&& same_settings(*old(self), *final(self))
                &&& final(self).rfs_files@.dom() == old(self).rfs_files@.dom()
                &&& forall|k: u64| #[trigger]
                    old(self).rfs_files@.contains_key(k) ==> if found is Some && k
                        == found->0.file_entry.ino {
                        &&& same_but_path(old(self).rfs_files@[k], final(self).rfs_files@[k])
                        &&& final(self).rfs_files@[k].unlinked == old(self).rfs_files@[k].unlinked
                        &&& final(self).rfs_files@[k].file_path@ == plan.new_full_path@
                    } else {
                        final(self).rfs_files@[k] == old(self).rfs_files@[k]
                    }
                &&& final(self).cache.listing(plan.parent_path@) == None::<(Timestamp, Seq<FileEntry>)>
                &&& final(self).cache.listing(plan.new_parent_path@) == None::<(Timestamp, Seq<FileEntry>)>
                &&& forall|q: Seq<char>|
                    q != plan.parent_path@ && q != plan.new_parent_path@ ==> final(self).cache.listing(
                        q,
                    ) == old(self).cache.listing(q)
            },
    {
        if !ok {
            return Err(FsError::Io);
        }
        match self.cache.find_by_path(plan.old_path.as_str()) {
            Some(c) => {
                let ino = c.file_entry.ino;
                let _ = self.cache.forget_file(ino);
                match self.rfs_files.remove(&ino) {
                    Some(mut f) => {
                        let ghost f0 = f;
                        f.file_path = plan.new_full_path.clone();
                        self.rfs_files.insert(ino, f);
                        proof {
                            assert(old(self).rfs_files@.contains_key(ino));
                            assert(f0 == old(self).rfs_files@[ino]);
                            assert(self.rfs_files@.dom() =~= old(self).rfs_files@.dom());
                            assert(self.rfs_files@.dom() =~= old(self).rfs_files@.dom().insert(ino));
                            old(self).lemma_wf_insert(*self, ino);
                            old(self).lemma_fds_below_update(*self, ino);
                        }
                    },
                    None => {
                        assert(self.rfs_files@ =~= old(self).rfs_files@);
                    },
                }
            },
            None => {},
        }
        self.cache.invalidate_dir(plan.parent_path.as_str());
        if !str_eq(plan.parent_path.as_str(), plan.new_parent_path.as_str()) {
            self.cache.invalidate_dir(plan.new_parent_path.as_str());
        }
        proof {
            if self.rfs_files@ == old(self).rfs_files@ {
                old(self).lemma_fds_below_same(*self);
            }
        }
        Ok(())
    }
}

} // verus!

verus! {

/// The open flags that `OpenFlags::from_flags` gives for the kernel's `flags`.
pub open spec fn flags_for(flags: i32) -> OpenFlags {
    if OpenFlags::asks_write(flags) {
        OpenFlags(2)
    } else {
        OpenFlags(1)
    }
}

/// `f` is the cached file `c` taken into the open files, with no descriptor yet.
pub open spec fn taken_in(f: RfsFile, c: CachedFileView) -> bool {
    &&& f.file_entry == c.file_entry
    &&& f.file_path@ == c.file_path
    &&& f.fds@ == Map::<u64, OpenedFile>::empty()
    &&& f.write_buffer@ == Seq::<u8>::empty()
    &&& !f.is_dirty
    &&& f.write_offset == 0
    &&& f.read_buffer@ == Seq::<u8>::empty()
    &&& f.read_buffer_offset == 0
    &&& !f.unlinked
}

/// `b` and `a` agree on everything but their descriptors.
pub open spec fn same_but_fds(a: RfsFile, b: RfsFile) -> bool {
    &&& b.file_entry == a.file_entry
    &&& b.file_path@ == a.file_path@
    &&& b.write_buffer@ == a.write_buffer@
    &&& b.is_dirty == a.is_dirty
    &&& b.write_offset == a.write_offset
    &&& b.read_buffer@ == a.read_buffer@
    &&& b.read_buffer_offset == a.read_buffer_offset
    &&& b.unlinked == a.unlinked
}

/// `b` and `a` agree on their path, descriptors and deletion mark.
pub open spec fn same_place(a: RfsFile, b: RfsFile) -> bool {
    &&& b.file_path@ == a.file_path@
    &&& b.fds@ == a.fds@
    &&& b.unlinked == a.unlinked
}

/// `b` and `a` agree on their path, descriptors, read-ahead and deletion mark.
pub open spec fn same_identity(a: RfsFile, b: RfsFile) -> bool {
    &&& same_place(a, b)
    &&& b.read_buffer@ == a.read_buffer@
    &&& b.read_buffer_offset == a.read_buffer_offset
}

/// Where the unsent changes of `f` begin after a change at `off`: the
/// earlier of the two when it already had changes, else `off`.
pub open spec fn changed_from(f: RfsFile, off: u64) -> u64 {
    if f.is_dirty && f.write_offset < off {
        f.write_offset
    } else {
        off
    }
}

/// The file's size once its buffer, of length `len`, is sent from `from`:
/// from the first byte the buffer replaces the file; from further on it
/// writes over it, so the file keeps its size unless the buffer reaches further.
pub open spec fn size_after_change(f: RfsFile, from: u64, len: nat) -> u64 {
    if from == 0 || f.file_entry.size < len {
        len as u64
    } else {
        f.file_entry.size
    }
}

/// The bytes an upload of `f` sends: its buffer from where its changes begin.
pub open spec fn upload_body(f: RfsFile) -> Seq<u8> {
    if f.write_offset < f.write_buffer@.len() {
        f.write_buffer@.skip(f.write_offset as int)
    } else {
        Seq::<u8>::empty()
    }
}

/// The attributes of an open file: a file with changes not yet sent
/// reports `now` as its modification time.
pub open spec fn open_attr(f: RfsFile, now: Timestamp) -> Attr {
    if f.is_dirty {
        Attr { mtime: now, ..attr_spec(f.file_entry) }
    } else {
        attr_spec(f.file_entry)
    }
}

/// What a read does next.
pub enum ReadStep {
    /// Reply with these bytes.
    Data(Vec<u8>),
    /// Fetch `size` bytes at `start` of the file at `path` from the server,
    /// then call `read_fetched`.
    Fetch { path: String, start: u64, size: u32 },
    /// Reply with this error.
    Failed(FsError),
}

/// A `ReadStep` with its bytes and path as sequences.
pub ghost enum ReadStepView {
    Data(Seq<u8>),
    Fetch(Seq<char>, u64, u32),
    Failed(FsError),
}

pub open spec fn read_step_view(r: ReadStep) -> ReadStepView {
    match r {
        ReadStep::Data(v) => ReadStepView::Data(v@),
        ReadStep::Fetch { path, start, size } => ReadStepView::Fetch(path@, start, size),
        ReadStep::Failed(e) => ReadStepView::Failed(e),
    }
}

/// How a read of `size` bytes at `offset` is served from a file that has
/// no unsent changes: from the read-ahead buffer when it holds all of the
/// range, else by fetching at least `PREFETCH_SIZE` bytes from `offset` on.
pub open spec fn read_plan(f: RfsFile, offset: i64, size: u32) -> ReadStepView {
    let s = (offset as u64) as int;
    let e = s + size;
    let bs = f.read_buffer_offset as int;
    let be = bs + f.read_buffer@.len();
    if s >= bs && e <= be {
        ReadStepView::Data(f.read_buffer@.subrange(s - bs, e - bs))
    } else {
        ReadStepView::Fetch(
            f.file_path@,
            offset as u64,
            if size >= PREFETCH_SIZE {
                size
            } else {
                PREFETCH_SIZE
            },
        )
    }
}

/// How a read of `size` bytes at `offset` is served from an open file: a
/// file with unsent changes from its buffer (a negative offset fails),
/// any other as `read_plan` says.
pub open spec fn open_read(f: RfsFile, offset: i64, size: u32) -> ReadStepView {
    if f.is_dirty {
        if offset < 0 {
            ReadStepView::Failed(FsError::Io)
        } else {
            ReadStepView::Data(read_at(f.write_buffer@, offset as int, size as int))
        }
    } else {
        read_plan(f, offset, size)
    }
}

/// What a file upload sends: the path, the bytes, and where they start.
pub struct FlushPlan {
    pub path: String,
    pub data: Vec<u8>,
    pub offset: u64,
}

fn copy_from(v: &Vec<u8>, start: u64) -> (r: Vec<u8>)
    ensures
        r@ == (if start < v@.len() {
            v@.skip(start as int)
        } else {
            Seq::<u8>::empty()
        }),
{
    let mut r: Vec<u8> = Vec::new();
    let n = v.len();
    if (start as u128) >= (n as u128) {
        return r;
    }
    let s = start as usize;
    let mut i: usize = s;
    while i < n
        invariant
            s <= i <= n,
            n == v@.len(),
            r@ == v@.subrange(s as int, i as int),
        decreases n - i,
    {
        r.push(v[i]);
        i = i + 1;
        assert(r@ =~= v@.subrange(s as int, i as int));
    }
    assert(v@.subrange(s as int, n as int) =~= v@.skip(s as int));
    r
}

impl RemoteFs {
    proof fn lemma_cached_keyed(self, ino: u64)
        requires
            self.wf(),
            lru_find(self.files(), ino) is Some,
        ensures
            lru_find(self.files(), ino)->0.file_entry.ino == ino,
    {
        crate::lru_store::lemma_key_pos(self.files(), ino);
    }

    /// Opens inode `ino` with the kernel's `flags` under a new descriptor.
    pub fn open(&mut self, ino: u64, flags: i32) -> (r: Result<Fd, FsError>)
        requires
            old(self).wf(),
        ensures
            final(self).wf(),
            final(self).files() == lru_promote(old(self).files(), ino),
            same_settings(*old(self), *final(self)),
            final(self).cache.dir_cache == old(self).cache.dir_cache,
            match lru_find(old(self).files(), ino) {
                None => r == Err::<Fd, FsError>(FsError::NotFound) && final(self).rfs_files@
                    == old(self).rfs_files@ && final(self).last_fd == old(self).last_fd,
                Some(c) => {
                    let fd = old(self).last_fd;
                    let opened = OpenedFile { fd: Fd(fd), ino: Inode(ino), flags: flags_for(flags) };
                    &&& r == Ok::<Fd, FsError>(Fd(fd))
                    &&& final(self).last_fd == next_fd(fd)
                    &&& final(self).rfs_files@.dom() == old(self).rfs_files@.dom().insert(ino)
                    &&& forall|k: u64|
                        k != ino && #[trigger] old(self).rfs_files@.contains_key(k)
                            ==> final(self).rfs_files@[k] == old(self).rfs_files@[k]
                    &&& if old(self).rfs_files@.contains_key(ino) {
                        &&& same_but_fds(old(self).rfs_files@[ino], final(self).rfs_files@[ino])
                        &&& final(self).rfs_files@[ino].fds@ == old(self).rfs_files@[ino].fds@.insert(
                            fd,
                            opened,
                        )
                    } else {
                        freshly_opened(final(self).rfs_files@[ino], c, fd, flags_for(flags), false)
                    }
                    &&& (old(self).fds_below_counter() && fd < u64::MAX)
                        ==> final(self).fds_below_counter()
                },
            },
    {
        match self.cache.get_file_by_ino(Inode(ino)) {
            None => Err(FsError::NotFound),
            Some(cached) => {
                proof {
                    old(self).lemma_cached_keyed(ino);
                }
                let ghost c = cached@;
                let fd = self.alloc_fd();
                let open_flags = OpenFlags::from_flags(flags);
                let mut f = match self.rfs_files.remove(&ino) {
                    Some(f) => f,
                    None => RfsFile::from_cached(cached),
                };
                let ghost f0 = f;
                f.fds.insert(fd.0, OpenedFile { fd, ino: Inode(ino), flags: open_flags });
                self.rfs_files.insert(ino, f);
                proof {
                    assert(self.rfs_files@.dom() =~= old(self).rfs_files@.dom().insert(ino));
                    if !old(self).rfs_files@.contains_key(ino) {
                        assert(self.rfs_files@[ino].fds@ =~= Map::<u64, OpenedFile>::empty().insert(
                            fd.0,
                            OpenedFile { fd, ino: Inode(ino), flags: flags_for(flags) },
                        ));
                    }
                    assert forall|d: u64| #[trigger]
                        self.rfs_files@[ino].fds@.contains_key(d) implies self.rfs_files@[ino].fds@[d].fd.0 == d
                            && self.rfs_files@[ino].fds@[d].ino.0 == ino by {
                        if d != fd.0 {
                            assert(f0.fds@.contains_key(d));
                            assert(old(self).rfs_files@.contains_key(ino));
                        }
                    }
                    old(self).lemma_wf_insert(*self, ino);
                    if old(self).fds_below_counter() && old(self).last_fd < u64::MAX {
                        assert forall|k: u64, d: u64|
                            #![trigger self.rfs_files@[k].fds@.contains_key(d)]
                            self.rfs_files@.contains_key(k) && self.rfs_files@[k].fds@.contains_key(d)
                                implies d < self.last_fd by {
                            if k != ino {
                                assert(old(self).rfs_files@.contains_key(k));
                                assert(old(self).rfs_files@[k].fds@.contains_key(d));
                            } else if d != fd.0 {
                                assert(old(self).rfs_files@.contains_key(ino));
                                assert(old(self).rfs_files@[ino].fds@.contains_key(d));
                            }
                        }
                    }
                }
                Ok(fd)
            },
        }
    }
}

} // verus!

verus! {

impl RemoteFs {
    /// First step of reading `size` bytes at `offset` of inode `ino`. A
    /// file with unsent changes is read from its buffer (a negative offset,
    /// which no file position reaches, fails). A file not open is
    /// taken in from the cache. Otherwise the read-ahead buffer serves the
    /// read when it holds all of it, or a fetch is needed.
    pub fn read_start(&mut self, ino: u64, offset: i64, size: u32) -> (r: ReadStep)
        requires
            old(self).wf(),
        ensures
            final(self).wf(),
            same_settings(*old(self), *final(self)),
            final(self).cache.dir_cache == old(self).cache.dir_cache,
            final(self).last_fd == old(self).last_fd,
            final(self).fds_below_counter() == old(self).fds_below_counter(),
            if old(self).rfs_files@.contains_key(ino) {
                let f = old(self).rfs_files@[ino];
                &&& *final(self) == *old(self)
                &&& read_step_view(r) == open_read(f, offset, size)
            } else {
                &&& final(self).files() == lru_promote(old(self).files(), ino)
                &&& match lru_find(old(self).files(), ino) {
                    None => read_step_view(r) == ReadStepView::Failed(FsError::NotFound)
                        && final(self).rfs_files@ == old(self).rfs_files@,
                    Some(c) => {
                        &&& final(self).rfs_files@.dom() == old(self).rfs_files@.dom().insert(ino)
                        &&& forall|k: u64|
                            k != ino && #[trigger] old(self).rfs_files@.contains_key(k)
                                ==> final(self).rfs_files@[k] == old(self).rfs_files@[k]
                        &&& taken_in(final(self).rfs_files@[ino], c)
                        &&& read_step_view(r) == read_plan(final(self).rfs_files@[ino], offset, size)
                    },
                }
            },
    {
        let open = self.rfs_files.contains_key(&ino);
        if open {
            let f = self.rfs_files.get(&ino).unwrap();
            if f.is_dirty {
                if offset < 0 {
                    return ReadStep::Failed(FsError::Io);
                }
                return ReadStep::Data(read_from(&f.write_buffer, offset as u64, size as u64));
            }
        } else {
            match self.cache.get_file_by_ino(Inode(ino)) {
                None => return ReadStep::Failed(FsError::NotFound),
                Some(cached) => {
                    proof {
                        old(self).lemma_cached_keyed(ino);
                    }
                    let ghost before = *self;
                    self.rfs_files.insert(ino, RfsFile::from_cached(cached));
                    proof {
                        assert(self.rfs_files@.dom() =~= old(self).rfs_files@.dom().insert(ino));
                        old(self).lemma_wf_insert(*self, ino);
                        if old(self).fds_below_counter() {
                            assert forall|k: u64, d: u64|
                                #![trigger self.rfs_files@[k].fds@.contains_key(d)]
                                self.rfs_files@.contains_key(k) && self.rfs_files@[k].fds@.contains_key(d)
                                    implies d < self.last_fd by {
                                if k != ino {
                                    assert(old(self).rfs_files@.contains_key(k));
                                    assert(old(self).rfs_files@[k].fds@.contains_key(d));
                                }
                            }
                        }
                        if self.fds_below_counter() {
                            assert forall|k: u64, d: u64|
                                #![trigger old(self).rfs_files@[k].fds@.contains_key(d)]
                                old(self).rfs_files@.contains_key(k) && old(self).rfs_files@[k].fds@.contains_key(d)
                                    implies d < old(self).last_fd by {
                                assert(k != ino);
                                assert(self.rfs_files@.contains_key(k));
                                assert(self.rfs_files@[k].fds@.contains_key(d));
                            }
                        }
                    }
                },
            }
        }
        let f = self.rfs_files.get(&ino).unwrap();
        let req_start = offset as u64;
        let req_end = (req_start as u128) + (size as u128);
        let buf_start = f.read_buffer_offset;
        let buf_len = f.read_buffer.len();
        let buf_end = (buf_start as u128) + (buf_len as u128);
        if req_start >= buf_start && req_end <= buf_end {
            let from = req_start - buf_start;
            let data = read_from(&f.read_buffer, from, size as u64);
            proof {
                let ghost s = (offset as u64) as int;
                assert(data@ =~= f.read_buffer@.subrange(s - buf_start, s + size - buf_start));
            }
            ReadStep::Data(data)
        } else {
            let fetch_size = if size >= PREFETCH_SIZE {
                size
            } else {
                PREFETCH_SIZE
            };
            ReadStep::Fetch { path: f.file_path.clone(), start: req_start, size: fetch_size }
        }
    }

    /// Last step of a read, with the bytes the server sent (or `None` when
    /// the fetch failed): they become the file's read-ahead buffer, starting
    /// at `offset`, and the first `size` of them are the reply.
    pub fn read_fetched(&mut self, ino: u64, offset: i64, size: u32, data: Option<Vec<u8>>) -> (r: Result<Vec<u8>, FsError>)
        requires
            old(self).wf(),
        ensures
            final(self).wf(),
            final(self).fds_below_counter() == old(self).fds_below_counter(),
            final(self).cache == old(self).cache,
            final(self).last_fd == old(self).last_fd,
            same_settings(*old(self), *final(self)),
            match data {
                None => r matches Err(e) && e == FsError::Io && *final(self) == *old(self),
                Some(d) => {
                    &&& r matches Ok(v) && v@ == (if size <= d@.len() {
                        d@.subrange(0, size as int)
                    } else {
                        d@
                    })
                    &&& final(self).rfs_files@.dom() == old(self).rfs_files@.dom()
                    &&& forall|k: u64|
                        k != ino && #[trigger] old(self).rfs_files@.contains_key(k)
                            ==> final(self).rfs_files@[k] == old(self).rfs_files@[k]
                    &&& old(self).rfs_files@.contains_key(ino) ==> {
                        let f = old(self).rfs_files@[ino];
                        let g = final(self).rfs_files@[ino];
                        &&& g.file_entry == f.file_entry
                        &&& g.file_path@ == f.file_path@
                        &&& g.fds@ == f.fds@
                        &&& g.write_buffer@ == f.write_buffer@
                        &&& g.is_dirty == f.is_dirty
                        &&& g.write_offset == f.write_offset
                        &&& g.unlinked == f.unlinked
                        &&& g.read_buffer@ == d@
                        &&& g.read_buffer_offset == offset as u64
                    }
                },
            },
    {
        let d = match data {
            None => return Err(FsError::Io),
            Some(d) => d,
        };
        let reply = read_from(&d, 0, size as u64);
        proof {
            if size <= d@.len() {
                assert(reply@ =~= d@.subrange(0, size as int));
            } else {
                assert(reply@ =~= d@);
            }
        }
        match self.rfs_files.remove(&ino) {
            Some(mut f) => {
                let ghost f0 = f;
                f.read_buffer = d;
                f.read_buffer_offset = offset as u64;
                self.rfs_files.insert(ino, f);
                proof {
                    assert(old(self).rfs_files@.contains_key(ino));
                    assert(f0 == old(self).rfs_files@[ino]);
                    assert(self.rfs_files@.dom() =~= old(self).rfs_files@.dom());
                    assert(self.rfs_files@.dom() =~= old(self).rfs_files@.dom().insert(ino));
                    old(self).lemma_wf_insert(*self, ino);
                    old(self).lemma_fds_below_update(*self, ino);
                }
            },
            None => {
                proof {
                    assert(self.rfs_files@ =~= old(self).rfs_files@);
                    old(self).lemma_fds_below_same(*self);
                }
            },
        }
        Ok(reply)
    }

    /// Writes `data` at `offset` into the buffer of open file `ino`, marking
    /// it changed and recording where its changes begin, so that the upload
    /// starts there and leaves the bytes before it alone on the server. The
    /// size follows `size_after_change`. A write of no bytes leaves the
    /// buffer as it is but still marks the file changed from `offset` on and
    /// sets its size to the buffer's length, as a write into an empty
    /// scratch file would; on a file just opened, whose buffer is empty, a
    /// later upload from offset 0 then empties the file on the server. A
    /// file not open fails; so do a negative offset, which no file position
    /// reaches, and an end position past what memory can address.
    pub fn write(&mut self, ino: u64, offset: i64, data: &[u8]) -> (r: Result<u32, FsError>)
        requires
            old(self).wf(),
        ensures
            final(self).wf(),
            final(self).fds_below_counter() == old(self).fds_below_counter(),
            final(self).cache == old(self).cache,
            final(self).last_fd == old(self).last_fd,
            same_settings(*old(self), *final(self)),
            !old(self).rfs_files@.contains_key(ino) ==> r == Err::<u32, FsError>(FsError::BadDescriptor)
                && *final(self) == *old(self),
            old(self).rfs_files@.contains_key(ino) && (offset < 0 || offset + data@.len() > usize::MAX)
                ==> r == Err::<u32, FsError>(FsError::Io) && *final(self) == *old(self),
            old(self).rfs_files@.contains_key(ino) && 0 <= offset && offset + data@.len() <= usize::MAX
                && data@.len() == 0 ==> {
                let f = old(self).rfs_files@[ino];
                let g = final(self).rfs_files@[ino];
                &&& r == Ok::<u32, FsError>(0)
                &&& final(self).rfs_files@.dom() == old(self).rfs_files@.dom()
                &&& forall|k: u64|
                    k != ino && #[trigger] old(self).rfs_files@.contains_key(k)
                        ==> final(self).rfs_files@[k] == old(self).rfs_files@[k]
                &&& same_identity(f, g)
                &&& g.write_buffer@ == f.write_buffer@
                &&& g.is_dirty
                &&& g.write_offset == changed_from(f, offset as u64)
                &&& g.file_entry == FileEntry { size: f.write_buffer@.len() as u64, ..f.file_entry }
            },
            old(self).rfs_files@.contains_key(ino) && 0 <= offset && offset + data@.len() <= usize::MAX
                && data@.len() > 0 ==> {
                let f = old(self).rfs_files@[ino];
                let g = final(self).rfs_files@[ino];
                let buf = write_at(f.write_buffer@, (offset as u64) as int, data@);
                let from = changed_from(f, offset as u64);
                &&& r == Ok::<u32, FsError>(data@.len() as u32)
                &&& final(self).rfs_files@.dom() == old(self).rfs_files@.dom()
                &&& forall|k: u64|
                    k != ino && #[trigger] old(self).rfs_files@.contains_key(k)
                        ==> final(self).rfs_files@[k] == old(self).rfs_files@[k]
                &&& same_identity(f, g)
                &&& g.write_buffer@ == buf
                &&& g.is_dirty
                &&& g.write_offset == from
                &&& g.file_entry == FileEntry { size: size_after_change(f, from, buf.len()), ..f.file_entry }
            },
    {
        if !self.rfs_files.contains_key(&ino) {
            return Err(FsError::BadDescriptor);
        }
        if offset < 0 {
            return Err(FsError::Io);
        }
        let off = offset as u64;
        if (off as u128) + (data.len() as u128) > (usize::MAX as u128) {
            return Err(FsError::Io);
        }
        let mut f = self.rfs_files.remove(&ino).unwrap();
        let ghost f0 = f;
        let from = if f.is_dirty && f.write_offset < off {
            f.write_offset
        } else {
            off
        };
        write_into(&mut f.write_buffer, off as usize, data);
        let len = f.write_buffer.len() as u64;
        if data.len() == 0 || from == 0 || f.file_entry.size < len {
            f.file_entry.size = len;
        }
        f.write_offset = from;
        f.is_dirty = true;
        self.rfs_files.insert(ino, f);
        proof {
            assert(f0 == old(self).rfs_files@[ino]);
            assert(self.rfs_files@.dom() =~= old(self).rfs_files@.dom());
            assert(self.rfs_files@.dom() =~= old(self).rfs_files@.dom().insert(ino));
            old(self).lemma_wf_insert(*self, ino);
            old(self).lemma_fds_below_update(*self, ino);
        }
        Ok(data.len() as u32)
    }

    /// First step of flushing inode `ino`: an open file with unsent changes
    /// uploads its buffer from where its changes begin (`upload_body`) to
    /// its path, at that offset.
    pub fn flush_start(&self, ino: u64) -> (r: Option<FlushPlan>)
        requires
            self.wf(),
        ensures
            match r {
                Some(p) => self.rfs_files@.contains_key(ino) && self.rfs_files@[ino].is_dirty
                    && p.path@ == self.rfs_files@[ino].file_path@ && p.data@ == upload_body(
                    self.rfs_files@[ino],
                ) && p.offset == self.rfs_files@[ino].write_offset,
                None => !(self.rfs_files@.contains_key(ino) && self.rfs_files@[ino].is_dirty),
            },
    {
        match self.rfs_files.get(&ino) {
            Some(f) => {
                if f.is_dirty {
                    Some(
                        FlushPlan {
                            path: f.file_path.clone(),
                            data: copy_from(&f.write_buffer, f.write_offset),
                            offset: f.write_offset,
                        },
                    )
                } else {
                    None
                }
            },
            None => None,
        }
    }

    /// Last step of a flush, after the upload (`ok` when it succeeded) at
    /// `now`: a failed upload is an I/O error. Otherwise the file's
    /// modification time becomes `now`, and its size the one it had reached,
    /// in the open file and in the cached copy (which becomes the most
    /// recently used); the file no longer has unsent changes, and both its
    /// buffers are emptied, so that later reads go to the server rather
    /// than serve bytes read ahead before the change.
    pub fn flush_done(&mut self, ino: u64, ok: bool, now: Timestamp) -> (r: Result<(), FsError>)
        requires
            old(self).wf(),
        ensures
            final(self).wf(),
            final(self).fds_below_counter() == old(self).fds_below_counter(),
            final(self).last_fd == old(self).last_fd,
            final(self).cache.dir_cache == old(self).cache.dir_cache,
            same_settings(*old(self), *final(self)),
            !ok ==> r == Err::<(), FsError>(FsError::Io) && *final(self) == *old(self),
            ok && !(old(self).rfs_files@.contains_key(ino) && old(self).rfs_files@[ino].is_dirty)
                ==> r == Ok::<(), FsError>(()) && *final(self) == *old(self),
            ok && old(self).rfs_files@.contains_key(ino) && old(self).rfs_files@[ino].is_dirty ==> {
                let f = old(self).rfs_files@[ino];
                let g = final(self).rfs_files@[ino];
                let size = f.file_entry.size;
                &&& r == Ok::<(), FsError>(())
                &&& final(self).rfs_files@.dom() == old(self).rfs_files@.dom()
                &&& forall|k: u64|
                    k != ino && #[trigger] old(self).rfs_files@.contains_key(k)
                        ==> final(self).rfs_files@[k] == old(self).rfs_files@[k]
                &&& same_place(f, g)
                &&& g.write_buffer@ == Seq::<u8>::empty()
                &&& g.write_offset == 0
                &&& g.read_buffer@ == Seq::<u8>::empty()
                &&& g.read_buffer_offset == 0
                &&& !g.is_dirty
                &&& g.file_entry == FileEntry { size, modified_at: now, ..f.file_entry }
                &&& final(self).files() == match lru_find(old(self).files(), ino) {
                    Some(c) => lru_put(
                        lru_promote(old(self).files(), ino),
                        old(self).cache.capacity(),
                        ino,
                        CachedFileView {
                            file_entry: FileEntry { size, modified_at: now, ..c.file_entry },
                            file_path: c.file_path,
                        },
                    ),
                    None => old(self).files(),
                }
            },
    {
        if !ok {
            return Err(FsError::Io);
        }
        let dirty = match self.rfs_files.get(&ino) {
            Some(f) => f.is_dirty,
            None => false,
        };
        if !dirty {
            return Ok(());
        }
        let mut f = self.rfs_files.remove(&ino).unwrap();
        let ghost f0 = f;
        let size = f.file_entry.size;
        f.file_entry.modified_at = now;
        f.write_buffer = Vec::new();
        f.write_offset = 0;
        f.read_buffer = Vec::new();
        f.read_buffer_offset = 0;
        match self.cache.get_file_by_ino(Inode(ino)) {
            Some(mut cached) => {
                proof {
                    old(self).lemma_cached_keyed(ino);
                }
                cached.file_entry.size = size;
                cached.file_entry.modified_at = now;
                self.cache.store_file(cached);
            },
            None => {},
        }
        f.is_dirty = false;
        self.rfs_files.insert(ino, f);
        proof {
            assert(f0 == old(self).rfs_files@[ino]);
            assert(self.rfs_files@.dom() =~= old(self).rfs_files@.dom());
            assert(self.rfs_files@.dom() =~= old(self).rfs_files@.dom().insert(ino));
            old(self).lemma_wf_insert(*self, ino);
            old(self).lemma_fds_below_update(*self, ino);
        }
        Ok(())
    }

    /// Closes descriptor `fh` of inode `ino`. When the file's last
    /// descriptor closes it stops being open; if it was deleted while open,
    /// its path comes back, to be deleted on the server.
    pub fn release(&mut self, ino: u64, fh: u64) -> (r: Option<String>)
        requires
            old(self).wf(),
        ensures
            final(self).wf(),
            old(self).fds_below_counter() ==> final(self).fds_below_counter(),
            final(self).cache == old(self).cache,
            final(self).last_fd == old(self).last_fd,
            same_settings(*old(self), *final(self)),
            !old(self).rfs_files@.contains_key(ino) ==> r == None::<String> && *final(self) == *old(self),
            old(self).rfs_files@.contains_key(ino) ==> {
                let f = old(self).rfs_files@[ino];
                let fds = f.fds@.remove(fh);
                if fds.is_empty() {
                    &&& final(self).rfs_files@ == old(self).rfs_files@.remove(ino)
                    &&& opt_string(r) == (if f.unlinked {
                        Some(f.file_path@)
                    } else {
                        None
                    })
                } else {
                    &&& r == None::<String>
                    &&& final(self).rfs_files@.dom() == old(self).rfs_files@.dom()
                    &&& forall|k: u64|
                        k != ino && #[trigger] old(self).rfs_files@.contains_key(k)
                            ==> final(self).rfs_files@[k] == old(self).rfs_files@[k]
                    &&& same_but_fds(f, final(self).rfs_files@[ino])
                    &&& final(self).rfs_files@[ino].fds@ == fds
                }
            },
    {
        if !self.rfs_files.contains_key(&ino) {
            return None;
        }
        let mut f = self.rfs_files.remove(&ino).unwrap();
        let ghost f0 = f;
        let _ = f.fds.remove(&fh);
        if f.fds.is_empty() {
            proof {
                assert(f0 == old(self).rfs_files@[ino]);
                assert forall|k: u64| #[trigger] self.rfs_files@.contains_key(k) implies {
                    &&& self.rfs_files@[k].file_entry.ino == k
                    &&& forall|d: u64| #[trigger]
                        self.rfs_files@[k].fds@.contains_key(d) ==> self.rfs_files@[k].fds@[d].fd.0 == d
                            && self.rfs_files@[k].fds@[d].ino.0 == k
                } by {
                    assert(old(self).rfs_files@.contains_key(k));
                }
                if old(self).fds_below_counter() {
                    assert forall|k: u64, d: u64|
                        #![trigger self.rfs_files@[k].fds@.contains_key(d)]
                        self.rfs_files@.contains_key(k) && self.rfs_files@[k].fds@.contains_key(d)
                            implies d < self.last_fd by {
                        assert(old(self).rfs_files@.contains_key(k));
                        assert(old(self).rfs_files@[k].fds@.contains_key(d));
                    }
                }
            }
            if f.unlinked {
                Some(f.file_path)
            } else {
                None
            }
        } else {
            self.rfs_files.insert(ino, f);
            proof {
                assert(f0 == old(self).rfs_files@[ino]);
                assert(self.rfs_files@.dom() =~= old(self).rfs_files@.dom());
                assert(self.rfs_files@.dom() =~= old(self).rfs_files@.dom().insert(ino));
                assert forall|d: u64| #[trigger]
                    self.rfs_files@[ino].fds@.contains_key(d) implies self.rfs_files@[ino].fds@[d].fd.0 == d
                        && self.rfs_files@[ino].fds@[d].ino.0 == ino by {
                    assert(f0.fds@.contains_key(d));
                }
                old(self).lemma_wf_insert(*self, ino);
                if old(self).fds_below_counter() {
                    assert forall|k: u64, d: u64|
                        #![trigger self.rfs_files@[k].fds@.contains_key(d)]
                        self.rfs_files@.contains_key(k) && self.rfs_files@[k].fds@.contains_key(d)
                            implies d < self.last_fd by {
                        assert(old(self).rfs_files@.contains_key(k));
                        assert(old(self).rfs_files@[k].fds@.contains_key(d));
                    }
                }
            }
            None
        }
    }

    /// The attributes of inode `ino` at `now`: those of the open file, else
    /// those of the cached file, which becomes the most recently used.
    pub fn getattr_at(&mut self, ino: u64, now: Timestamp) -> (r: Result<Attr, FsError>)
        requires
            old(self).wf(),
        ensures
            final(self).wf(),
            final(self).fds_below_counter() == old(self).fds_below_counter(),
            same_but_files(*old(self), *final(self)),
            old(self).rfs_files@.contains_key(ino) ==> r == Ok::<Attr, FsError>(
                open_attr(old(self).rfs_files@[ino], now),
            ) && *final(self) == *old(self),
            !old(self).rfs_files@.contains_key(ino) ==> {
                &&& final(self).files() == lru_promote(old(self).files(), ino)
                &&& r == match lru_find(old(self).files(), ino) {
                    Some(c) => Ok::<Attr, FsError>(attr_spec(c.file_entry)),
                    None => Err(FsError::NotFound),
                }
            },
    {
        match self.rfs_files.get(&ino) {
            Some(f) => {
                let mut attr = attr_of(&f.file_entry);
                if f.is_dirty {
                    attr.mtime = now;
                }
                return Ok(attr);
            },
            None => {},
        }
        let r = match self.cache.get_file_by_ino(Inode(ino)) {
            Some(c) => Ok(attr_of(&c.file_entry)),
            None => Err(FsError::NotFound),
        };
        proof {
            old(self).lemma_fds_below_same(*self);
        }
        r
    }

    /// Changes the attributes of inode `ino` at `now`: a new `size` of an
    /// open file cuts or zero-extends its buffer, marks it changed from that
    /// length on (`changed_from`) and sets its size, unless no file can have that length (past `i64::MAX`) or
    /// memory cannot address it. The reply is the attributes afterwards.
    pub fn setattr_at(&mut self, ino: u64, size: Option<u64>, now: Timestamp) -> (r: Result<Attr, FsError>)
        requires
            old(self).wf(),
        ensures
            final(self).wf(),
            final(self).fds_below_counter() == old(self).fds_below_counter(),
            final(self).last_fd == old(self).last_fd,
            final(self).cache.dir_cache == old(self).cache.dir_cache,
            same_settings(*old(self), *final(self)),
            match size {
                Some(n) if old(self).rfs_files@.contains_key(ino) && n <= i64::MAX && n <= usize::MAX => {
                    let f = old(self).rfs_files@[ino];
                    let g = final(self).rfs_files@[ino];
                    &&& final(self).cache == old(self).cache
                    &&& final(self).rfs_files@.dom() == old(self).rfs_files@.dom()
                    &&& forall|k: u64|
                        k != ino && #[trigger] old(self).rfs_files@.contains_key(k)
                            ==> final(self).rfs_files@[k] == old(self).rfs_files@[k]
                    &&& same_identity(f, g)
                    &&& g.write_buffer@ == set_len(f.write_buffer@, n as int)
                    &&& g.is_dirty
                    &&& g.write_offset == changed_from(f, n)
                    &&& g.file_entry == FileEntry { size: n, ..f.file_entry }
                    &&& r == Ok::<Attr, FsError>(open_attr(g, now))
                },
                _ => if old(self).rfs_files@.contains_key(ino) {
                    r == Ok::<Attr, FsError>(open_attr(old(self).rfs_files@[ino], now)) && *final(self)
                        == *old(self)
                } else {
                    &&& final(self).rfs_files@ == old(self).rfs_files@
                    &&& final(self).files() == lru_promote(old(self).files(), ino)
                    &&& r == match lru_find(old(self).files(), ino) {
                        Some(c) => Ok::<Attr, FsError>(attr_spec(c.file_entry)),
                        None => Err(FsError::NotFound),
                    }
                },
            },
    {
        match size {
            Some(n) => {
                if self.rfs_files.contains_key(&ino) && n <= i64::MAX as u64 && n <= usize::MAX as u64 {
                    let mut f = self.rfs_files.remove(&ino).unwrap();
                    let ghost f0 = f;
                    set_len_of(&mut f.write_buffer, n as usize);
                    if !(f.is_dirty && f.write_offset < n) {
                        f.write_offset = n;
                    }
                    f.is_dirty = true;
                    f.file_entry.size = n;
                    self.rfs_files.insert(ino, f);
                    proof {
                        assert(f0 == old(self).rfs_files@[ino]);
                        assert(self.rfs_files@.dom() =~= old(self).rfs_files@.dom());
                        assert(self.rfs_files@.dom() =~= old(self).rfs_files@.dom().insert(ino));
                        old(self).lemma_wf_insert(*self, ino);
                        old(self).lemma_fds_below_update(*self, ino);
                    }
                }
            },
            None => {},
        }
        self.getattr_at(ino, now)
    }
}

} // verus!
