//! Files the client holds open: the descriptors on each, and the bytes held
//! in memory for writing and for reading ahead.

use vstd::prelude::*;
use std::collections::HashMap;
use crate::entry::{CachedFile, Fd, FileEntry, Inode};

verus! {

broadcast use vstd::std_specs::hash::group_hash_axioms;

/// `libc::O_ACCMODE`, the bits of open flags that give the access mode.
/// The contract holds on Linux with glibc, where the crate defines it as 3
/// (`src/unix/linux_like/linux/gnu/mod.rs`); on musl the crate defines it as
/// `0o10000003`, and the contract does not hold there.
#[verifier::external_body]
fn o_accmode() -> (r: i32)
    ensures
        r == 3,
{
    libc::O_ACCMODE
}

/// `libc::O_WRONLY`, the access mode for writing only (1 on Linux,
/// `src/unix/linux_like/mod.rs`).
#[verifier::external_body]
fn o_wronly() -> (r: i32)
    ensures
        r == 1,
{
    libc::O_WRONLY
}

/// `libc::O_RDWR`, the access mode for reading and writing (2 on Linux,
/// `src/unix/linux_like/mod.rs`).
#[verifier::external_body]
fn o_rdwr() -> (r: i32)
    ensures
        r == 2,
{
    libc::O_RDWR
}

/// How a descriptor was opened: for reading, or for writing.
#[derive(Clone, Copy, Debug, PartialEq, Eq, Structural)]
pub struct OpenFlags(pub i32);

impl OpenFlags {
    /// The flags of a descriptor opened for reading.
    pub fn for_reading() -> (r: OpenFlags)
        ensures
            r == OpenFlags(1),
    {
        OpenFlags(1)
    }

    /// The flags of a descriptor opened for writing.
    pub fn for_writing() -> (r: OpenFlags)
        ensures
            r == OpenFlags(2),
    {
        OpenFlags(2)
    }

    /// Whether open flags ask for writing: their access mode is write-only
    /// or read-write.
    pub open spec fn asks_write(flags: i32) -> bool {
        (flags & 3i32) == 1i32 || (flags & 3i32) == 2i32
    }

    /// The write flags when the kernel's open flags ask for writing, else the read flags.
    pub fn from_flags(flags: i32) -> (r: OpenFlags)
        ensures
            r == (if Self::asks_write(flags) {
                OpenFlags(2)
            } else {
                OpenFlags(1)
            }),
    {
        let acc_mode = flags & o_accmode();
        if acc_mode == o_wronly() || acc_mode == o_rdwr() {
            OpenFlags(2)
        } else {
            OpenFlags(1)
        }
    }

    /// Whether these are the flags for writing.
    pub fn is_write(&self) -> (r: bool)
        ensures
            r == (self.0 == 2),
    {
        self.0 == 2
    }
}

/// One descriptor open on a file.
#[derive(Clone, Copy, Debug)]
pub struct OpenedFile {
    pub fd: Fd,
    pub ino: Inode,
    pub flags: OpenFlags,
}

/// A file the client holds open.
#[derive(Debug)]
pub struct RfsFile {
    pub file_entry: FileEntry,
    pub file_path: String,
    /// The descriptors open on this file, by number.
    pub fds: HashMap<u64, OpenedFile>,
    /// The file's bytes as written locally, from its first byte; bytes
    /// before `write_offset` that were not written read as zeros.
    pub write_buffer: Vec<u8>,
    /// Whether `write_buffer` holds changes not yet sent to the server.
    pub is_dirty: bool,
    /// Where in the file the unsent changes begin: the upload sends
    /// `write_buffer` from here on, to this offset.
    pub write_offset: u64,
    /// Bytes read ahead from the server.
    pub read_buffer: Vec<u8>,
    /// Where in the file `read_buffer` starts.
    pub read_buffer_offset: u64,
    /// Whether the file was deleted while open, to be removed on the server
    /// when its last descriptor closes.
    pub unlinked: bool,
}

impl RfsFile {
    /// A freshly opened file with no descriptors and empty buffers.
    pub fn from_cached(c: CachedFile) -> (f: RfsFile)
        ensures
            f.file_entry == c.file_entry,
            f.file_path == c.file_path,
            f.fds@ == Map::<u64, OpenedFile>::empty(),
            f.write_buffer@ == Seq::<u8>::empty(),
            !f.is_dirty,
            f.write_offset == 0,
            f.read_buffer@ == Seq::<u8>::empty(),
            f.read_buffer_offset == 0,
            !f.unlinked,
    {
        RfsFile {
            file_entry: c.file_entry,
            file_path: c.file_path,
            fds: HashMap::new(),
            write_buffer: Vec::new(),
            is_dirty: false,
            write_offset: 0,
            read_buffer: Vec::new(),
            read_buffer_offset: 0,
            unlinked: false,
        }
    }
}

pub open spec fn zeros(n: nat) -> Seq<u8> {
    Seq::new(n, |i: int| 0u8)
}

/// A file's bytes after writing `data` at offset `off`: a gap past the end
/// reads as zeros, and writing nothing changes nothing.
pub open spec fn write_at(buf: Seq<u8>, off: int, data: Seq<u8>) -> Seq<u8> {
    if data.len() == 0 {
        buf
    } else {
        let padded = if off > buf.len() {
            buf + zeros((off - buf.len()) as nat)
        } else {
            buf
        };
        let end = off + data.len();
        let tail = if end < padded.len() {
            padded.subrange(end, padded.len() as int)
        } else {
            Seq::<u8>::empty()
        };
        padded.subrange(0, off) + data + tail
    }
}

/// The bytes a read of at most `size` bytes at offset `off` finds.
pub open spec fn read_at(buf: Seq<u8>, off: int, size: int) -> Seq<u8> {
    if off >= buf.len() {
        Seq::<u8>::empty()
    } else if off + size <= buf.len() {
        buf.subrange(off, off + size)
    } else {
        buf.subrange(off, buf.len() as int)
    }
}

/// A file's bytes after setting its length to `n`: cut, or extended with zeros.
pub open spec fn set_len(buf: Seq<u8>, n: int) -> Seq<u8> {
    if n <= buf.len() {
        buf.subrange(0, n)
    } else {
        buf + zeros((n - buf.len()) as nat)
    }
}

fn pad_zeros(buf: &mut Vec<u8>, n: usize)
    requires
        old(buf)@.len() <= n,
    ensures
        final(buf)@ == old(buf)@ + zeros((n - old(buf)@.len()) as nat),
{
    let ghost b0 = buf@;
    while buf.len() < n
        invariant
            b0.len() <= buf@.len() <= n,
            buf@ == b0 + zeros((buf@.len() - b0.len()) as nat),
        decreases n - buf@.len(),
    {
        let ghost before = buf@;
        buf.push(0u8);
        assert(buf@ =~= b0 + zeros((buf@.len() - b0.len()) as nat));
    }
}

/// Writes `data` into `buf` at offset `off`.
pub fn write_into(buf: &mut Vec<u8>, off: usize, data: &[u8])
    requires
        off + data@.len() <= usize::MAX,
    ensures
        final(buf)@ == write_at(old(buf)@, off as int, data@),
{
    let ghost b0 = buf@;
    let n = data.len();
    if n == 0 {
        return;
    }
    if off > buf.len() {
        pad_zeros(buf, off);
    }
    let ghost padded = buf@;
    assert(padded == (if off > b0.len() {
        b0 + zeros((off - b0.len()) as nat)
    } else {
        b0
    }));
    let mut i: usize = 0;
    while i < n
        invariant
            i <= n,
            n == data@.len(),
            off + n <= usize::MAX,
            off <= padded.len(),
            buf@.len() == if padded.len() > off + i {
                padded.len()
            } else {
                (off + i) as nat
            },
            forall|k: int| 0 <= k < off ==> #[trigger] buf@[k] == padded[k],
            forall|k: int| off <= k < off + i ==> #[trigger] buf@[k] == data@[k - off],
            forall|k: int| off + i <= k < buf@.len() ==> #[trigger] buf@[k] == padded[k],
        decreases n - i,
    {
        let pos = off + i;
        if pos < buf.len() {
            buf.set(pos, data[i]);
        } else {
            buf.push(data[i]);
        }
        i = i + 1;
    }
    proof {
        let w = write_at(b0, off as int, data@);
        assert(buf@ =~= w);
    }
}

/// The bytes at offset `off`, at most `size` of them.
pub fn read_from(buf: &Vec<u8>, off: u64, size: u64) -> (r: Vec<u8>)
    ensures
        r@ == read_at(buf@, off as int, size as int),
{
    let len = buf.len();
    let mut r: Vec<u8> = Vec::new();
    if (off as u128) >= (len as u128) {
        return r;
    }
    let start = off as usize;
    let end: usize = if (off as u128) + (size as u128) <= (len as u128) {
        (off + size) as usize
    } else {
        len
    };
    let mut i: usize = start;
    while i < end
        invariant
            start <= i <= end <= len,
            len == buf@.len(),
            r@ == buf@.subrange(start as int, i as int),
        decreases end - i,
    {
        r.push(buf[i]);
        i = i + 1;
        assert(r@ =~= buf@.subrange(start as int, i as int));
    }
    r
}

/// Sets the length of `buf` to `n`.
pub fn set_len_of(buf: &mut Vec<u8>, n: usize)
    ensures
        final(buf)@ == set_len(old(buf)@, n as int),
{
    if n <= buf.len() {
        buf.truncate(n);
    } else {
        pad_zeros(buf, n);
    }
}

} // verus!
