//! The values that client and server exchange: file entries, inode and
//! descriptor numbers, and instants in time.

use vstd::prelude::*;

verus! {

/// An instant: whole seconds and nanoseconds since the Unix epoch.
#[derive(Clone, Copy, Debug, PartialEq, Eq, Structural)]
pub struct Timestamp {
    pub secs: u64,
    pub nanos: u32,
}

/// A length of time: whole seconds and nanoseconds.
#[derive(Clone, Copy, Debug, PartialEq, Eq, Structural)]
pub struct TimeSpan {
    pub secs: u64,
    pub nanos: u32,
}

impl Timestamp {
    pub open spec fn as_nanos(self) -> int {
        self.secs * 1_000_000_000 + self.nanos
    }

    /// The Unix epoch itself.
    pub fn epoch() -> (t: Timestamp)
        ensures
            t == (Timestamp { secs: 0, nanos: 0 }),
    {
        Timestamp { secs: 0, nanos: 0 }
    }

    /// Nanoseconds since the epoch, exactly.
    pub fn total_nanos(&self) -> (n: u128)
        ensures
            n == self.as_nanos(),
    {
        let s = self.secs as u128;
        assert(s * 1_000_000_000 <= 18446744073709551615u128 * 1_000_000_000) by (nonlinear_arith)
            requires
                s <= 18446744073709551615u128,
        ;
        s * 1_000_000_000 + self.nanos as u128
    }
}

impl TimeSpan {
    pub open spec fn as_nanos(self) -> int {
        self.secs * 1_000_000_000 + self.nanos
    }

    /// A span of whole seconds.
    pub fn from_secs(secs: u64) -> (d: TimeSpan)
        ensures
            d == (TimeSpan { secs, nanos: 0 }),
    {
        TimeSpan { secs, nanos: 0 }
    }

    /// The span of length zero.
    pub fn zero() -> (d: TimeSpan)
        ensures
            d == (TimeSpan { secs: 0, nanos: 0 }),
    {
        TimeSpan { secs: 0, nanos: 0 }
    }

    /// Nanoseconds in the span, exactly.
    pub fn total_nanos(&self) -> (n: u128)
        ensures
            n == self.as_nanos(),
    {
        let s = self.secs as u128;
        assert(s * 1_000_000_000 <= 18446744073709551615u128 * 1_000_000_000) by (nonlinear_arith)
            requires
                s <= 18446744073709551615u128,
        ;
        s * 1_000_000_000 + self.nanos as u128
    }
}

/// Whether a listing fetched at `fetched` may still be served at `now`:
/// the time elapsed since then is known and shorter than `ttl`.
pub open spec fn is_fresh(fetched: Timestamp, now: Timestamp, ttl: TimeSpan) -> bool {
    fetched.as_nanos() <= now.as_nanos() && now.as_nanos() - fetched.as_nanos() < ttl.as_nanos()
}

/// Decides `is_fresh`.
pub fn fresh(fetched: Timestamp, now: Timestamp, ttl: TimeSpan) -> (r: bool)
    ensures
        r == is_fresh(fetched, now, ttl),
{
    let f = fetched.total_nanos();
    let n = now.total_nanos();
    n >= f && n - f < ttl.total_nanos()
}

/// The number of a file on the server.
#[derive(Clone, Copy, Debug, PartialEq, Eq, Hash, Structural)]
pub struct Inode(pub u64);

/// A file descriptor handed out to the kernel.
#[derive(Clone, Copy, Debug, PartialEq, Eq, Hash, Structural)]
pub struct Fd(pub u64);

/// Metadata of one file or directory, as the server lists it.
#[derive(Debug)]
pub struct FileEntry {
    pub ino: u64,
    pub name: String,
    pub is_dir: bool,
    pub size: u64,
    pub modified_at: Timestamp,
    /// Unix mode bits, such as `0o755`.
    pub permissions: u32,
}

impl Clone for FileEntry {
    fn clone(&self) -> (r: Self)
        ensures
            r == *self,
    {
        FileEntry {
            ino: self.ino,
            name: self.name.clone(),
            is_dir: self.is_dir,
            size: self.size,
            modified_at: self.modified_at,
            permissions: self.permissions,
        }
    }
}

/// What the server reads from a file's metadata on disk.
#[derive(Clone, Copy, Debug)]
pub struct MetadataFields {
    pub ino: u64,
    pub is_dir: bool,
    pub len: u64,
    /// The modification time, where the platform reports one.
    pub modified: Option<Timestamp>,
    pub mode: u32,
}

impl FileEntry {
    /// The entry for a file named `name` with the given metadata; an
    /// unknown modification time reads as the epoch.
    pub fn from_metadata(name: String, metadata: MetadataFields) -> (e: FileEntry)
        ensures
            e.ino == metadata.ino,
            e.name == name,
            e.is_dir == metadata.is_dir,
            e.size == metadata.len,
            e.modified_at == (match metadata.modified {
                Some(t) => t,
                None => Timestamp { secs: 0, nanos: 0 },
            }),
            e.permissions == metadata.mode,
    {
        let modified_at = match metadata.modified {
            Some(t) => t,
            None => Timestamp::epoch(),
        };
        FileEntry {
            ino: metadata.ino,
            name,
            is_dir: metadata.is_dir,
            size: metadata.len,
            modified_at,
            permissions: metadata.mode,
        }
    }
}

/// A file known to the client: its metadata and its full path on the server.
#[derive(Debug)]
pub struct CachedFile {
    pub file_entry: FileEntry,
    pub file_path: String,
}

/// A `CachedFile` with its path as a sequence of characters.
pub ghost struct CachedFileView {
    pub file_entry: FileEntry,
    pub file_path: Seq<char>,
}

impl View for CachedFile {
    type V = CachedFileView;

    open spec fn view(&self) -> CachedFileView {
        CachedFileView { file_entry: self.file_entry, file_path: self.file_path@ }
    }
}

impl Clone for CachedFile {
    fn clone(&self) -> (r: Self)
        ensures
            r == *self,
    {
        CachedFile { file_entry: self.file_entry.clone(), file_path: self.file_path.clone() }
    }
}

/// The view of an optional cached file.
pub open spec fn opt_file_view(o: Option<CachedFile>) -> Option<CachedFileView> {
    match o {
        Some(f) => Some(f@),
        None => None,
    }
}

} // verus!

verus! {

/// The current time of day (`SystemTime::now`), as seconds and nanoseconds
/// since the Unix epoch; an instant before the epoch reads as the epoch.
/// Nothing is stated of which instant it is.
#[verifier::external_body]
pub fn clock_now() -> (t: Timestamp)
    ensures
        t.nanos < 1_000_000_000,
{
    match std::time::SystemTime::now().duration_since(std::time::UNIX_EPOCH) {
        Ok(d) => Timestamp { secs: d.as_secs(), nanos: d.subsec_nanos() },
        Err(_) => Timestamp { secs: 0, nanos: 0 },
    }
}

} // verus!
