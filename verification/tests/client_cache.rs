use remote_file_system::cache::Cache;
use remote_file_system::entry::{CachedFile, FileEntry, Inode, MetadataFields, TimeSpan, Timestamp};

fn entry(ino: u64, name: &str, is_dir: bool) -> FileEntry {
    FileEntry {
        ino,
        name: name.to_string(),
        is_dir,
        size: 3,
        modified_at: Timestamp { secs: 100, nanos: 0 },
        permissions: 0o644,
    }
}

fn at(secs: u64) -> Timestamp {
    Timestamp { secs, nanos: 0 }
}

#[test]
fn zero_capacity_means_a_thousand() {
    let c = Cache::new(0, TimeSpan::from_secs(1), "http://h".to_string());
    assert_eq!(c.files.cap().get(), 1000);
    let c = Cache::new(5, TimeSpan::from_secs(1), "http://h/".to_string());
    assert_eq!(c.files.cap().get(), 5);
    assert_eq!(c.api.base_url, "http://h/api/");
}

#[test]
fn listing_is_served_until_ttl() {
    let mut c = Cache::new(10, TimeSpan::from_secs(2), "http://h".to_string());
    assert!(c.cached_listing_at("/", at(10)).is_none());
    c.record_listing_at("/", vec![entry(5, "a.txt", false), entry(6, "d", true)], at(10));
    let hit = c.cached_listing_at("/", at(11)).unwrap();
    assert_eq!(hit.len(), 2);
    assert_eq!(hit[0].name, "a.txt");
    assert!(c.cached_listing_at("/", Timestamp { secs: 11, nanos: 999_999_999 }).is_some());
    assert!(c.cached_listing_at("/", at(12)).is_none());
    assert!(c.cached_listing_at("/", at(9)).is_none());
    assert!(c.cached_listing_at("/other", at(11)).is_none());
}

#[test]
fn invalidated_listing_is_fetched_again() {
    let mut c = Cache::new(10, TimeSpan::from_secs(60), "http://h".to_string());
    c.record_listing_at("/d", vec![entry(5, "a", false)], at(10));
    c.record_listing_at("/e", vec![entry(6, "b", false)], at(10));
    c.invalidate_dir("/d");
    assert!(c.cached_listing_at("/d", at(11)).is_none());
    assert!(c.cached_listing_at("/e", at(11)).is_some());
}

#[test]
fn recording_again_replaces_the_listing() {
    let mut c = Cache::new(10, TimeSpan::from_secs(60), "http://h".to_string());
    c.record_listing_at("/d", vec![entry(5, "a", false)], at(10));
    c.record_listing_at("/d", vec![entry(7, "z", false), entry(8, "y", false)], at(20));
    let l = c.cached_listing_at("/d", at(21)).unwrap();
    assert_eq!(l.iter().map(|e| e.ino).collect::<Vec<_>>(), vec![7, 8]);
    assert_eq!(c.dir_cache.len(), 1);
}

#[test]
fn listed_entries_are_cached_with_their_paths() {
    let mut c = Cache::new(10, TimeSpan::from_secs(60), "http://h".to_string());
    c.record_listing_at("/", vec![entry(5, "a.txt", false)], at(1));
    c.record_listing_at("/dir", vec![entry(6, "b.txt", false)], at(1));
    assert_eq!(c.peek_file_by_ino(Inode(5)).unwrap().file_path, "/a.txt");
    assert_eq!(c.peek_file_by_ino(Inode(6)).unwrap().file_path, "/dir/b.txt");
    assert_eq!(c.find_by_path("/dir/b.txt").unwrap().file_entry.ino, 6);
    assert!(c.find_by_path("/dir/none").is_none());
    // paths are compared name by name, as `Path` compares them
    assert_eq!(c.find_by_path("//dir/./b.txt/").unwrap().file_entry.ino, 6);
    assert!(c.find_by_path("dir/b.txt").is_none());
}

#[test]
fn least_recently_used_file_is_forgotten_first() {
    let mut c = Cache::new(2, TimeSpan::from_secs(60), "http://h".to_string());
    c.record_listing_at("/", vec![entry(1, "a", false), entry(2, "b", false)], at(1));
    // using 1 makes 2 the least recently used
    assert!(c.get_file_by_ino(Inode(1)).is_some());
    c.record_listing_at("/", vec![entry(3, "c", false)], at(2));
    assert!(c.peek_file_by_ino(Inode(2)).is_none());
    assert!(c.peek_file_by_ino(Inode(1)).is_some());
    assert!(c.peek_file_by_ino(Inode(3)).is_some());
}

#[test]
fn peeking_does_not_protect_from_eviction() {
    let mut c = Cache::new(2, TimeSpan::from_secs(60), "http://h".to_string());
    c.record_listing_at("/", vec![entry(1, "a", false), entry(2, "b", false)], at(1));
    assert!(c.peek_file_by_ino(Inode(1)).is_some());
    c.record_listing_at("/", vec![entry(3, "c", false)], at(2));
    assert!(c.peek_file_by_ino(Inode(1)).is_none());
}

#[test]
fn forget_and_store() {
    let mut c = Cache::new(4, TimeSpan::from_secs(60), "http://h".to_string());
    c.record_listing_at("/", vec![entry(1, "a", false)], at(1));
    assert_eq!(c.forget_file(1).unwrap().file_entry.name, "a");
    assert!(c.forget_file(1).is_none());
    c.store_file(CachedFile { file_entry: entry(9, "n", false), file_path: "/n".to_string() });
    assert_eq!(c.find_by_path("/n").unwrap().file_entry.ino, 9);
}

#[test]
fn most_recent_file_wins_a_path() {
    let mut c = Cache::new(4, TimeSpan::from_secs(60), "http://h".to_string());
    c.record_listing_at("/", vec![entry(1, "a", false)], at(1));
    c.record_listing_at("/", vec![entry(2, "a", false)], at(2));
    assert_eq!(c.find_by_path("/a").unwrap().file_entry.ino, 2);
    c.get_file_by_ino(Inode(1));
    assert_eq!(c.find_by_path("/a").unwrap().file_entry.ino, 1);
}

#[test]
fn entry_from_metadata() {
    let e = FileEntry::from_metadata(
        "f".to_string(),
        MetadataFields { ino: 3, is_dir: false, len: 12, modified: None, mode: 0o100644 },
    );
    assert_eq!(e.modified_at, Timestamp::epoch());
    assert_eq!(e.size, 12);
    assert_eq!(e.permissions, 0o100644);
    let t = Timestamp { secs: 5, nanos: 6 };
    let e = FileEntry::from_metadata(
        "g".to_string(),
        MetadataFields { ino: 4, is_dir: true, len: 0, modified: Some(t), mode: 0o40755 },
    );
    assert_eq!(e.modified_at, t);
    assert!(e.is_dir);
}
