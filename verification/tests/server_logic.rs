use remote_file_system::server::{
    delete_action, is_under, list_decision, parent_of, parse_range, path_segments, path_to_verify,
    range_reply, rename_target, resolve_safe_path, truncates_file, write_offset, DeleteAction,
    HeaderText, ListDecision, Method, RangeError, RenameError, RenameRequest, SafePathError,
    ROOT_DIR,
};

fn text(s: &str) -> HeaderText {
    HeaderText::Text(s.to_string())
}

#[test]
fn range_of_empty_file() {
    assert_eq!(parse_range(&text("bytes=5-9"), 0), Ok((0, 0)));
    assert_eq!(parse_range(&HeaderText::NotText, 0), Ok((0, 0)));
}

#[test]
fn range_without_header_is_whole_file() {
    assert_eq!(parse_range(&HeaderText::Missing, 10), Ok((0, 9)));
}

#[test]
fn range_errors() {
    assert_eq!(parse_range(&HeaderText::NotText, 10), Err(RangeError::InvalidRange));
    assert_eq!(parse_range(&text("items=0-1"), 10), Err(RangeError::InvalidUnit));
    assert_eq!(parse_range(&text("bytes=x-3"), 10), Err(RangeError::InvalidStart));
    assert_eq!(parse_range(&text("bytes=-3"), 10), Err(RangeError::InvalidStart));
}

#[test]
fn range_values() {
    assert_eq!(parse_range(&text("bytes=0-3"), 10), Ok((0, 3)));
    assert_eq!(parse_range(&text("bytes=5-"), 10), Ok((5, 9)));
    assert_eq!(parse_range(&text("bytes=5"), 10), Ok((5, 9)));
    assert_eq!(parse_range(&text("bytes=2-100"), 10), Ok((2, 9)));
    assert_eq!(parse_range(&text("bytes=2-zz"), 10), Ok((2, 9)));
    assert_eq!(parse_range(&text("bytes=1-4-7"), 10), Ok((1, 4)));
    assert_eq!(parse_range(&text("bytes=20-"), 10), Ok((20, 9)));
}

#[test]
fn range_reply_headers() {
    let r = range_reply(0, 8, 9);
    assert_eq!(r.length, 9);
    assert_eq!(r.content_range, "bytes 0-8/9");
    let r = range_reply(5, 5, 100);
    assert_eq!(r.length, 1);
    assert_eq!(r.content_range, "bytes 5-5/100");
}

#[test]
fn write_offsets() {
    assert_eq!(write_offset(&HeaderText::Missing), 0);
    assert_eq!(write_offset(&HeaderText::NotText), 0);
    assert_eq!(write_offset(&text("4096")), 4096);
    assert_eq!(write_offset(&text("abc")), 0);
    assert!(truncates_file(0));
    assert!(!truncates_file(1));
}

#[test]
fn handler_decisions() {
    assert_eq!(list_decision(false, true), ListDecision::NotFound);
    assert_eq!(list_decision(true, false), ListDecision::NotADirectory);
    assert_eq!(list_decision(true, true), ListDecision::List);
    assert_eq!(delete_action(false, false), DeleteAction::NotFound);
    assert_eq!(delete_action(true, true), DeleteAction::RemoveDir);
    assert_eq!(delete_action(true, false), DeleteAction::RemoveFile);
}

#[test]
fn segments_and_parents() {
    assert_eq!(path_segments("/tmp//rfs_storage/./a/"), vec!["tmp", "rfs_storage", "a"]);
    assert_eq!(parent_of("/tmp/rfs_storage/hello.txt"), Some("/tmp/rfs_storage".to_string()));
    assert_eq!(parent_of("/tmp/rfs_storage/dir/"), Some("/tmp/rfs_storage".to_string()));
    assert_eq!(parent_of("/a"), Some("/".to_string()));
    assert_eq!(parent_of("/"), None);
    assert!(is_under("/tmp/rfs_storage/a", ROOT_DIR));
    assert!(is_under("/tmp/rfs_storage", ROOT_DIR));
    assert!(!is_under("/tmp/rfs_storagex", ROOT_DIR));
    assert!(!is_under("/etc/passwd", ROOT_DIR));
    assert!(!is_under("tmp/rfs_storage/a", ROOT_DIR));
}

#[test]
fn paths_to_verify() {
    assert_eq!(path_to_verify(Method::Get, "hello.txt"), "/tmp/rfs_storage/hello.txt");
    assert_eq!(path_to_verify(Method::Put, "hello.txt"), "/tmp/rfs_storage");
    assert_eq!(path_to_verify(Method::Post, "a/b"), "/tmp/rfs_storage/a");
    assert_eq!(path_to_verify(Method::Delete, ""), "/tmp/rfs_storage/");
}

#[test]
fn safe_paths() {
    let p = resolve_safe_path(Method::Get, "hello.txt", true).ok().unwrap();
    assert_eq!(p.into_inner(), "/tmp/rfs_storage/hello.txt");
    let p = resolve_safe_path(Method::Put, "new.txt", false).ok().unwrap();
    assert_eq!(p.into_inner(), "/tmp/rfs_storage/new.txt");
    match resolve_safe_path(Method::Get, "missing.txt", false) {
        Err(SafePathError::NotFound(p)) => assert_eq!(p, "/tmp/rfs_storage/missing.txt"),
        other => panic!("unexpected {:?}", other.map(|p| p.into_inner())),
    }
    assert!(matches!(resolve_safe_path(Method::Get, "/etc/passwd", true), Err(SafePathError::Traversal)));
    let p = resolve_safe_path(Method::Get, "/tmp/rfs_storage/x", true).ok().unwrap();
    assert_eq!(p.into_inner(), "/tmp/rfs_storage/x");
}

#[test]
fn rename_in_same_directory() {
    let req = RenameRequest { new_name: "new_name.txt".to_string() };
    let p = resolve_safe_path(Method::Patch, "old_name.txt", true).ok().unwrap();
    assert_eq!(rename_target(&p, &req.new_name, "/tmp/rfs_storage_test_env"), Ok("/tmp/rfs_storage/new_name.txt".to_string()));
}

#[test]
fn rename_moves_to_path_from_storage_root() {
    let p = resolve_safe_path(Method::Patch, "to_move.txt", true).ok().unwrap();
    assert_eq!(
        rename_target(&p, "/target_folder/moved.txt", "/tmp/rfs_storage_test_env"),
        Ok("/tmp/rfs_storage_test_env/target_folder/moved.txt".to_string())
    );
    assert_eq!(rename_target(&p, "//x", "/root"), Ok("/root/x".to_string()));
}

#[test]
fn parent_names_are_refused() {
    for rel in ["..", "../../etc/passwd", "a/../../x", "/tmp/rfs_storage/.."] {
        for m in [Method::Get, Method::Put, Method::Post, Method::Delete, Method::Patch] {
            assert!(matches!(resolve_safe_path(m, rel, true), Err(SafePathError::Traversal)), "{} accepted", rel);
        }
    }
    let p = resolve_safe_path(Method::Patch, "dir/f.txt", true).ok().unwrap();
    assert_eq!(rename_target(&p, "../../x", "/r"), Err(RenameError::Traversal));
    assert_eq!(rename_target(&p, "/../etc/x", "/r"), Err(RenameError::Traversal));
    assert_eq!(rename_target(&p, "g.txt", "/r"), Ok("/tmp/rfs_storage/dir/g.txt".to_string()));
}

#[test]
fn parent_names_inside_the_root_are_resolved() {
    let p = resolve_safe_path(Method::Get, "a/../b", true).ok().unwrap();
    assert_eq!(p.into_inner(), "/tmp/rfs_storage/b");
    let p = resolve_safe_path(Method::Put, "a/b/../../c.txt", true).ok().unwrap();
    assert_eq!(p.into_inner(), "/tmp/rfs_storage/c.txt");
    let p = resolve_safe_path(Method::Patch, "dir/f.txt", true).ok().unwrap();
    assert_eq!(rename_target(&p, "../g.txt", "/r"), Ok("/tmp/rfs_storage/g.txt".to_string()));
    assert_eq!(rename_target(&p, "/a/../b.txt", "/r"), Ok("/r/b.txt".to_string()));
}
