use remote_file_system::attr::{attr_of, negative_attr, FileKind};
use remote_file_system::entry::{FileEntry, Inode, TimeSpan, Timestamp};
use remote_file_system::file::{read_from, set_len_of, write_into, OpenFlags};
use remote_file_system::server::truncates_file;
use remote_file_system::fs::{readdir_entries, FsError, LookupStep, ReadStep, RemoteFs, UnlinkPlan, PREFETCH_SIZE};

fn entry(ino: u64, name: &str, is_dir: bool, size: u64) -> FileEntry {
    FileEntry {
        ino,
        name: name.to_string(),
        is_dir,
        size,
        modified_at: Timestamp { secs: 100, nanos: 0 },
        permissions: 0o100644,
    }
}

fn at(secs: u64) -> Timestamp {
    Timestamp { secs, nanos: 0 }
}

fn fs_with(listing: Vec<FileEntry>) -> RemoteFs {
    let mut fs = RemoteFs::new_at(true, 100, 1, "http://h".to_string(), at(1));
    fs.cache.record_listing_at("/", listing, at(1));
    fs
}

#[test]
fn root_is_known_from_the_start() {
    let mut fs = RemoteFs::new_at(true, 10, 3, "http://h".to_string(), at(7));
    assert_eq!(fs.get_path_str(Inode(1)), Some("/".to_string()));
    let a = fs.getattr_at(1, at(8)).unwrap();
    assert_eq!(a.kind, FileKind::Directory);
    assert_eq!(a.perm, 0o755);
    assert_eq!(a.mtime, at(7));
    assert_eq!(fs.ttl, TimeSpan::from_secs(3));
    assert_eq!(fs.last_fd, 10);
    assert_eq!(fs.getattr_at(99, at(8)), Err(FsError::NotFound));
}

#[test]
fn descriptors_are_numbered_from_ten() {
    let mut fs = fs_with(vec![]);
    assert_eq!(fs.alloc_fd().0, 10);
    assert_eq!(fs.alloc_fd().0, 11);
    fs.last_fd = u64::MAX;
    assert_eq!(fs.alloc_fd().0, u64::MAX);
    assert_eq!(fs.last_fd, 0);
}

#[test]
fn lookup_needs_listing_when_unknown() {
    let mut fs = RemoteFs::new_at(true, 10, 1, "http://h".to_string(), at(1));
    match fs.lookup_start(1, "a.txt") {
        LookupStep::ListParent(plan) => {
            assert_eq!(plan.parent_path, "/");
            assert_eq!(plan.target_path, "/a.txt");
            let neg = fs.lookup_after_listing(&plan);
            assert_eq!(neg.attr, negative_attr());
            assert_eq!(neg.ttl, TimeSpan::zero());
            fs.cache.record_listing_at("/", vec![entry(5, "a.txt", false, 3)], at(2));
            let found = fs.lookup_after_listing(&plan);
            assert_eq!(found.attr.ino, 5);
            assert_eq!(found.ttl, TimeSpan::from_secs(1));
        }
        _ => panic!("expected a listing step"),
    }
    match fs.lookup_start(1, "a.txt") {
        LookupStep::Reply(r) => assert_eq!(r.attr.ino, 5),
        _ => panic!("expected a reply"),
    }
    assert!(matches!(fs.lookup_start(77, "x"), LookupStep::Failed(FsError::NotFound)));
}

#[test]
fn readdir_skips_to_offset() {
    let es = vec![entry(5, "a", false, 1), entry(6, "b", true, 0), entry(7, "c", false, 2)];
    let all = readdir_entries(&es, 0);
    assert_eq!(all.len(), 3);
    assert_eq!(all[1].kind, FileKind::Directory);
    assert_eq!(all.iter().map(|e| e.offset).collect::<Vec<_>>(), vec![1, 2, 3]);
    let rest = readdir_entries(&es, 2);
    assert_eq!(rest.len(), 1);
    assert_eq!(rest[0].name, "c");
    assert_eq!(rest[0].offset, 3);
    assert!(readdir_entries(&es, 3).is_empty());
    assert!(readdir_entries(&es, -1).is_empty());
}

#[test]
fn mkdir_flow() {
    let mut fs = fs_with(vec![]);
    let plan = fs.resolve_child(1, "newdir").ok().unwrap();
    assert_eq!(plan.target_path, "/newdir");
    assert_eq!(fs.remote_create_done(&plan, false), Err(FsError::Io));
    assert!(fs.cache.cached_listing_at("/", at(1)).is_some());
    assert_eq!(fs.remote_create_done(&plan, true), Ok(()));
    assert!(fs.cache.cached_listing_at("/", at(1)).is_none());
    // the refreshed listing lacks the directory: the operation fails
    fs.cache.record_listing_at("/", vec![], at(2));
    assert_eq!(fs.created_entry_finish(&plan).err(), Some(FsError::Io));
    assert!(fs.cache.cached_listing_at("/", at(2)).is_none());
    fs.cache.record_listing_at("/", vec![entry(8, "newdir", true, 0)], at(3));
    let rep = fs.created_entry_finish(&plan).ok().unwrap();
    assert_eq!(rep.attr.ino, 8);
    assert_eq!(rep.attr.kind, FileKind::Directory);
}

#[test]
fn create_opens_for_writing() {
    let mut fs = fs_with(vec![]);
    let plan = fs.resolve_child(1, "f.txt").ok().unwrap();
    assert_eq!(fs.create_finish(&plan).err(), Some(FsError::Io));
    fs.cache.record_listing_at("/", vec![entry(9, "f.txt", false, 0)], at(2));
    let rep = fs.create_finish(&plan).ok().unwrap();
    assert_eq!(rep.fh, 10);
    let f = fs.rfs_files.get(&9).unwrap();
    assert!(f.is_dirty);
    assert_eq!(f.fds.get(&10).unwrap().flags, OpenFlags::for_writing());
    assert_eq!(fs.write(9, 0, b"Ciao\n"), Ok(5));
    assert_eq!(fs.getattr_at(9, at(3)).unwrap().size, 5);
}

#[test]
fn write_then_read_back() {
    let mut fs = fs_with(vec![entry(5, "a.txt", false, 0)]);
    let fd = fs.open(5, libc::O_WRONLY).ok().unwrap();
    assert_eq!(fs.rfs_files.get(&5).unwrap().fds.get(&fd.0).unwrap().flags, OpenFlags::for_writing());
    assert_eq!(fs.write(5, 0, b"Test data"), Ok(9));
    assert_eq!(fs.write(5, 12, b"!"), Ok(1));
    match fs.read_start(5, 0, 100) {
        ReadStep::Data(d) => assert_eq!(d, b"Test data\0\0\0!".to_vec()),
        _ => panic!("dirty files are read from their buffer"),
    }
    let a = fs.getattr_at(5, at(50)).unwrap();
    assert_eq!(a.size, 13);
    assert_eq!(a.mtime, at(50));
    assert_eq!(fs.write(42, 0, b"x"), Err(FsError::BadDescriptor));
}

#[test]
fn read_fetches_then_serves_from_buffer() {
    let mut fs = fs_with(vec![entry(5, "a.txt", false, 20)]);
    match fs.read_start(5, 4, 8) {
        ReadStep::Fetch { path, start, size } => {
            assert_eq!(path, "/a.txt");
            assert_eq!(start, 4);
            assert_eq!(size, PREFETCH_SIZE);
        }
        _ => panic!("expected a fetch"),
    }
    assert!(fs.rfs_files.contains_key(&5));
    assert_eq!(fs.read_fetched(5, 4, 8, None), Err(FsError::Io));
    let got = fs.read_fetched(5, 4, 8, Some(b"456789abcdefghij".to_vec())).ok().unwrap();
    assert_eq!(got, b"456789ab".to_vec());
    match fs.read_start(5, 6, 4) {
        ReadStep::Data(d) => assert_eq!(d, b"6789".to_vec()),
        _ => panic!("expected the buffer to serve the read"),
    }
    assert!(matches!(fs.read_start(5, 18, 4), ReadStep::Fetch { .. }));
    assert!(matches!(fs.read_start(99, 0, 4), ReadStep::Failed(FsError::NotFound)));
    let short = fs.read_fetched(5, 0, 8, Some(b"xy".to_vec())).ok().unwrap();
    assert_eq!(short, b"xy".to_vec());
}

#[test]
fn flush_uploads_and_clears_changes() {
    let mut fs = fs_with(vec![entry(5, "a.txt", false, 0)]);
    let fd = fs.open(5, libc::O_RDWR).ok().unwrap();
    assert!(fs.flush_start(5).is_none());
    fs.write(5, 0, b"abc").ok().unwrap();
    let plan = fs.flush_start(5).unwrap();
    assert_eq!(plan.path, "/a.txt");
    assert_eq!(plan.data, b"abc".to_vec());
    assert_eq!(plan.offset, 0);
    assert_eq!(fs.flush_done(5, false, at(9)), Err(FsError::Io));
    assert!(fs.rfs_files.get(&5).unwrap().is_dirty);
    assert_eq!(fs.flush_done(5, true, at(9)), Ok(()));
    let f = fs.rfs_files.get(&5).unwrap();
    assert!(!f.is_dirty);
    assert_eq!(f.file_entry.size, 3);
    assert_eq!(f.file_entry.modified_at, at(9));
    let c = fs.cache.peek_file_by_ino(Inode(5)).unwrap();
    assert_eq!(c.file_entry.size, 3);
    assert_eq!(c.file_entry.modified_at, at(9));
    assert_eq!(fs.release(5, fd.0), None);
    assert!(!fs.rfs_files.contains_key(&5));
}

#[test]
fn release_keeps_file_until_last_descriptor() {
    let mut fs = fs_with(vec![entry(5, "a.txt", false, 0)]);
    let a = fs.open(5, libc::O_RDONLY).ok().unwrap();
    let b = fs.open(5, libc::O_RDONLY).ok().unwrap();
    assert_ne!(a, b);
    assert_eq!(fs.rfs_files.get(&5).unwrap().fds.get(&a.0).unwrap().flags, OpenFlags::for_reading());
    assert_eq!(fs.release(5, a.0), None);
    assert!(fs.rfs_files.contains_key(&5));
    assert_eq!(fs.release(5, b.0), None);
    assert!(!fs.rfs_files.contains_key(&5));
    assert_eq!(fs.release(5, b.0), None);
    assert_eq!(fs.open(99, 0), Err(FsError::NotFound));
}

#[test]
fn unlink_of_open_file_hides_it_until_closed() {
    let mut fs = fs_with(vec![entry(5, "a.txt", false, 0)]);
    let fd = fs.open(5, libc::O_RDONLY).ok().unwrap();
    let plan = fs.unlink_start(1, "a.txt").ok().unwrap();
    match &plan {
        UnlinkPlan::Hide { target_path, hidden_name, ino, .. } => {
            assert_eq!(target_path, "/a.txt");
            assert_eq!(hidden_name, ".deleted_5_a.txt");
            assert_eq!(*ino, 5);
        }
        _ => panic!("an open file is hidden"),
    }
    assert_eq!(fs.unlink_done(&plan, false), Err(FsError::Io));
    assert_eq!(fs.unlink_done(&plan, true), Ok(Some("/".to_string())));
    let f = fs.rfs_files.get(&5).unwrap();
    assert!(f.unlinked);
    assert_eq!(f.file_path, "/.deleted_5_a.txt");
    assert_eq!(fs.release(5, fd.0), Some("/.deleted_5_a.txt".to_string()));
}

#[test]
fn unlink_of_closed_file_deletes_it() {
    let mut fs = fs_with(vec![entry(5, "a.txt", false, 0)]);
    let plan = fs.unlink_start(1, "a.txt").ok().unwrap();
    match &plan {
        UnlinkPlan::Delete { target_path, cached_ino, .. } => {
            assert_eq!(target_path, "/a.txt");
            assert_eq!(*cached_ino, Some(5));
        }
        _ => panic!("a closed file is deleted"),
    }
    assert_eq!(fs.unlink_done(&plan, true), Ok(None));
    assert!(fs.cache.peek_file_by_ino(Inode(5)).is_none());
    assert!(fs.cache.cached_listing_at("/", at(1)).is_none());
    let plan = fs.unlink_start(1, "ghost").ok().unwrap();
    assert!(matches!(plan, UnlinkPlan::Delete { cached_ino: None, .. }));
    assert!(fs.unlink_start(55, "x").is_err());
}

#[test]
fn rmdir_flow() {
    let mut fs = fs_with(vec![entry(6, "d", true, 0)]);
    let plan = fs.resolve_child(1, "d").ok().unwrap();
    assert_eq!(fs.rmdir_done(&plan, false), Err(FsError::NotEmpty));
    assert!(fs.cache.peek_file_by_ino(Inode(6)).is_some());
    assert_eq!(fs.rmdir_done(&plan, true), Ok(()));
    assert!(fs.cache.peek_file_by_ino(Inode(6)).is_none());
}

#[test]
fn rename_moves_open_file_path() {
    let mut fs = fs_with(vec![entry(5, "old.txt", false, 0), entry(6, "dir", true, 0)]);
    fs.cache.record_listing_at("/dir", vec![], at(1));
    let fd = fs.open(5, libc::O_RDONLY).ok().unwrap();
    let plan = fs.rename_start(1, "old.txt", 6, "new.txt").ok().unwrap();
    assert_eq!(plan.old_path, "/old.txt");
    // a move into another directory sends the absolute destination
    assert_eq!(plan.new_name, "/dir/new.txt");
    assert_eq!(plan.new_full_path, "/dir/new.txt");
    assert_eq!(fs.rename_done(&plan, true), Ok(()));
    assert_eq!(fs.rfs_files.get(&5).unwrap().file_path, "/dir/new.txt");
    assert!(fs.cache.peek_file_by_ino(Inode(5)).is_none());
    assert!(fs.cache.cached_listing_at("/", at(1)).is_none());
    assert!(fs.cache.cached_listing_at("/dir", at(1)).is_none());
    assert_eq!(fs.release(5, fd.0), None);
    assert!(fs.rename_start(1, "x", 77, "y").is_err());
}

#[test]
fn truncate_open_file() {
    let mut fs = fs_with(vec![entry(5, "a.txt", false, 0)]);
    fs.open(5, libc::O_WRONLY).ok().unwrap();
    fs.write(5, 0, b"hello world").ok().unwrap();
    let a = fs.setattr_at(5, Some(5), at(3)).ok().unwrap();
    assert_eq!(a.size, 5);
    match fs.read_start(5, 0, 100) {
        ReadStep::Data(d) => assert_eq!(d, b"hello".to_vec()),
        _ => panic!(),
    }
    let a = fs.setattr_at(5, Some(7), at(3)).ok().unwrap();
    assert_eq!(a.size, 7);
    // a file that is not open is not truncated
    fs.cache.record_listing_at("/", vec![entry(6, "b", false, 4)], at(3));
    let b = fs.setattr_at(6, Some(1), at(3)).ok().unwrap();
    assert_eq!(b.size, 4);
}

#[test]
fn open_flags_from_kernel_flags() {
    assert_eq!(OpenFlags::from_flags(libc::O_RDONLY), OpenFlags::for_reading());
    assert_eq!(OpenFlags::from_flags(libc::O_WRONLY), OpenFlags::for_writing());
    assert_eq!(OpenFlags::from_flags(libc::O_RDWR), OpenFlags::for_writing());
    assert_eq!(OpenFlags::from_flags(libc::O_WRONLY | libc::O_CREAT | libc::O_TRUNC), OpenFlags::for_writing());
    assert!(OpenFlags::for_writing().is_write());
    assert!(!OpenFlags::for_reading().is_write());
}

#[test]
fn buffers() {
    let mut b = b"abc".to_vec();
    write_into(&mut b, 5, b"xy");
    assert_eq!(b, b"abc\0\0xy".to_vec());
    write_into(&mut b, 1, b"ZZ");
    assert_eq!(b, b"aZZ\0\0xy".to_vec());
    write_into(&mut b, 20, b"");
    assert_eq!(b.len(), 7);
    assert_eq!(read_from(&b, 5, 10), b"xy".to_vec());
    assert_eq!(read_from(&b, 9, 10), Vec::<u8>::new());
    set_len_of(&mut b, 2);
    assert_eq!(b, b"aZ".to_vec());
    set_len_of(&mut b, 4);
    assert_eq!(b, b"aZ\0\0".to_vec());
}

#[test]
fn attributes_of_entries() {
    let e = entry(5, "a", false, 513);
    let a = attr_of(&e);
    assert_eq!(a.blocks, 2);
    assert_eq!(a.perm, 0o100644u32 as u16);
    assert_eq!(a.nlink, 1);
    assert_eq!(a.uid, 1000);
    assert_eq!(a.blksize, 512);
    assert_eq!(attr_of(&entry(5, "a", false, 512)).blocks, 1);
    assert_eq!(attr_of(&entry(5, "a", false, 0)).blocks, 0);
    assert_eq!(attr_of(&entry(5, "a", false, u64::MAX)).blocks, u64::MAX / 512 + 1);
}

#[test]
fn positions_no_file_reaches_are_refused() {
    let mut fs = fs_with(vec![entry(5, "a.txt", false, 0)]);
    fs.open(5, libc::O_WRONLY).ok().unwrap();
    assert_eq!(fs.write(5, -1, b"x"), Err(FsError::Io));
    assert_eq!(fs.write(5, 0, b"abc"), Ok(3));
    assert!(matches!(fs.read_start(5, -2, 4), ReadStep::Failed(FsError::Io)));
    // a length past what any file can have leaves the file as it was
    let a = fs.setattr_at(5, Some(u64::MAX), at(3)).ok().unwrap();
    assert_eq!(a.size, 3);
    match fs.read_start(5, 0, 10) {
        ReadStep::Data(d) => assert_eq!(d, b"abc".to_vec()),
        _ => panic!("dirty files are read from their buffer"),
    }
}

#[test]
fn rename_within_a_directory_sends_the_bare_name() {
    let mut fs = fs_with(vec![entry(5, "old.txt", false, 0)]);
    let plan = fs.rename_start(1, "old.txt", 1, "new.txt").ok().unwrap();
    assert_eq!(plan.new_name, "new.txt");
    assert_eq!(plan.new_full_path, "/new.txt");
}

#[test]
fn read_after_write_and_flush_is_not_stale() {
    let mut fs = fs_with(vec![entry(5, "a.txt", false, 20)]);
    fs.open(5, libc::O_RDWR).ok().unwrap();
    assert!(matches!(fs.read_start(5, 0, 4), ReadStep::Fetch { .. }));
    fs.read_fetched(5, 0, 4, Some(b"BBBBBBBBBBBBBBBBBBBB".to_vec())).ok().unwrap();
    assert_eq!(fs.write(5, 0, b"DD"), Ok(2));
    assert_eq!(fs.flush_done(5, true, at(9)), Ok(()));
    let f = fs.rfs_files.get(&5).unwrap();
    assert!(f.read_buffer.is_empty() && f.write_buffer.is_empty());
    match fs.read_start(5, 0, 2) {
        ReadStep::Fetch { path, start, size } => {
            assert_eq!(path, "/a.txt");
            assert_eq!(start, 0);
            assert_eq!(size, PREFETCH_SIZE);
        }
        _ => panic!("a read after a flush goes to the server"),
    }
}

#[test]
fn append_uploads_only_the_new_bytes() {
    let mut fs = fs_with(vec![entry(5, "a.txt", false, 5)]);
    fs.open(5, libc::O_WRONLY).ok().unwrap();
    assert_eq!(fs.write(5, 5, b"de"), Ok(2));
    let plan = fs.flush_start(5).unwrap();
    assert_eq!(plan.offset, 5);
    assert_eq!(plan.data, b"de".to_vec());
    assert!(!truncates_file(plan.offset));
    assert_eq!(fs.getattr_at(5, at(3)).unwrap().size, 7);
    assert_eq!(fs.flush_done(5, true, at(4)), Ok(()));
    assert_eq!(fs.rfs_files.get(&5).unwrap().file_entry.size, 7);
}

#[test]
fn changes_begin_at_the_earliest_write() {
    let mut fs = fs_with(vec![entry(5, "a.txt", false, 10)]);
    fs.open(5, libc::O_WRONLY).ok().unwrap();
    assert_eq!(fs.write(5, 6, b"yy"), Ok(2));
    assert_eq!(fs.write(5, 3, b"x"), Ok(1));
    let plan = fs.flush_start(5).unwrap();
    assert_eq!(plan.offset, 3);
    assert_eq!(plan.data, b"x\0\0yy".to_vec());
    // a write inside the file keeps its size
    assert_eq!(fs.getattr_at(5, at(3)).unwrap().size, 10);
    // writing nothing still marks the file changed, with the buffer's size
    fs.flush_done(5, true, at(4)).ok().unwrap();
    assert_eq!(fs.write(5, 2, b""), Ok(0));
    let f = fs.rfs_files.get(&5).unwrap();
    assert!(f.is_dirty);
    assert_eq!(f.file_entry.size, 0);
    let plan = fs.flush_start(5).unwrap();
    assert_eq!(plan.offset, 2);
    assert!(plan.data.is_empty());
}

#[test]
fn truncation_to_zero_uploads_from_the_start() {
    let mut fs = fs_with(vec![entry(5, "a.txt", false, 10)]);
    fs.open(5, libc::O_WRONLY).ok().unwrap();
    fs.setattr_at(5, Some(0), at(2)).ok().unwrap();
    fs.write(5, 0, b"new").ok().unwrap();
    let plan = fs.flush_start(5).unwrap();
    assert_eq!(plan.offset, 0);
    assert_eq!(plan.data, b"new".to_vec());
    assert!(truncates_file(plan.offset));
}

#[test]
fn switched_off_cache_serves_no_listing() {
    let mut off = RemoteFs::new_at(false, 10, 5, "http://h".to_string(), at(1));
    off.cache.record_listing_at("/", vec![entry(5, "a", false, 1)], at(1));
    assert!(off.listing_from_cache_at("/", at(2)).is_none());
    let mut on = RemoteFs::new_at(true, 10, 5, "http://h".to_string(), at(1));
    on.cache.record_listing_at("/", vec![entry(5, "a", false, 1)], at(1));
    assert_eq!(on.listing_from_cache_at("/", at(2)).unwrap().len(), 1);
    assert!(on.listing_from_cache_at("/", at(7)).is_none());
}
