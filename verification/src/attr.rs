//! File attributes as the client reports them to the kernel.

use vstd::prelude::*;
use crate::entry::{FileEntry, Timestamp};

verus! {

/// Whether an entry is a directory or a regular file.
#[derive(Clone, Copy, Debug, PartialEq, Eq, Structural)]
pub enum FileKind {
    Directory,
    RegularFile,
}

/// The attributes of a file.
#[derive(Clone, Copy, Debug, PartialEq, Eq, Structural)]
pub struct Attr {
    pub ino: u64,
    pub size: u64,
    pub blocks: u64,
    pub atime: Timestamp,
    pub mtime: Timestamp,
    pub ctime: Timestamp,
    pub crtime: Timestamp,
    pub kind: FileKind,
    pub perm: u16,
    pub nlink: u32,
    pub uid: u32,
    pub gid: u32,
    pub rdev: u32,
    pub blksize: u32,
    pub flags: u32,
}

/// The attributes of entry `e`: its size in 512-byte blocks rounded up, all
/// four times its modification time, the low 16 bits of its mode, one link,
/// owner and group 1000.
pub open spec fn attr_spec(e: FileEntry) -> Attr {
    Attr {
        ino: e.ino,
        size: e.size,
        blocks: ((e.size + 511) / 512) as u64,
        atime: e.modified_at,
        mtime: e.modified_at,
        ctime: e.modified_at,
        crtime: e.modified_at,
        kind: if e.is_dir {
            FileKind::Directory
        } else {
            FileKind::RegularFile
        },
        perm: (e.permissions % 65536) as u16,
        nlink: 1,
        uid: 1000,
        gid: 1000,
        rdev: 0,
        blksize: 512,
        flags: 0,
    }
}

/// The attributes reported for a name that does not exist: all zero.
pub open spec fn negative_attr_spec() -> Attr {
    Attr {
        ino: 0,
        size: 0,
        blocks: 0,
        atime: Timestamp { secs: 0, nanos: 0 },
        mtime: Timestamp { secs: 0, nanos: 0 },
        ctime: Timestamp { secs: 0, nanos: 0 },
        crtime: Timestamp { secs: 0, nanos: 0 },
        kind: FileKind::RegularFile,
        perm: 0,
        nlink: 0,
        uid: 0,
        gid: 0,
        rdev: 0,
        blksize: 0,
        flags: 0,
    }
}

/// The attributes of `e`.
pub fn attr_of(e: &FileEntry) -> (a: Attr)
    ensures
        a == attr_spec(*e),
{
    let blocks = e.size / 512 + if e.size % 512 != 0 {
        1
    } else {
        0
    };
    let p = e.permissions;
    let perm = (p & 0xffff) as u16;
    assert((p & 0xffff) == p % 65536) by (bit_vector);
    Attr {
        ino: e.ino,
        size: e.size,
        blocks,
        atime: e.modified_at,
        mtime: e.modified_at,
        ctime: e.modified_at,
        crtime: e.modified_at,
        kind: if e.is_dir {
            FileKind::Directory
        } else {
            FileKind::RegularFile
        },
        perm,
        nlink: 1,
        uid: 1000,
        gid: 1000,
        rdev: 0,
        blksize: 512,
        flags: 0,
    }
}

/// The all-zero attributes of a name that does not exist.
pub fn negative_attr() -> (a: Attr)
    ensures
        a == negative_attr_spec(),
{
    let t = Timestamp::epoch();
    Attr {
        ino: 0,
        size: 0,
        blocks: 0,
        atime: t,
        mtime: t,
        ctime: t,
        crtime: t,
        kind: FileKind::RegularFile,
        perm: 0,
        nlink: 0,
        uid: 0,
        gid: 0,
        rdev: 0,
        blksize: 0,
        flags: 0,
    }
}

} // verus!
