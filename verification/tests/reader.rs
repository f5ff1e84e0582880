use qshare::reader::{
    assemble_listing, build_entry, compare_entries, compute_parent, encode, join_url_path,
    paginate, skip_entry, sort_entries, DirEntry, SortKey, SortOrder,
};

#[test]
fn parent_of_root_is_none() {
    assert_eq!(compute_parent("/"), None);
    assert_eq!(compute_parent(""), None);
}

#[test]
fn parent_of_first_level() {
    assert_eq!(compute_parent("/foo"), Some("/".into()));
}

#[test]
fn parent_of_nested() {
    assert_eq!(compute_parent("/foo/bar/baz"), Some("/foo/bar".into()));
}

#[test]
fn join_handles_empty_base() {
    assert_eq!(join_url_path("", "a"), "/a");
    assert_eq!(join_url_path("/", "a"), "/a");
}

#[test]
fn join_handles_existing_base() {
    assert_eq!(join_url_path("/foo", "bar"), "/foo/bar");
    assert_eq!(join_url_path("/foo/", "bar"), "/foo/bar");
}

#[test]
fn join_percent_encodes_the_name() {
    assert_eq!(join_url_path("/", "a b"), "/a%20b");
    assert_eq!(join_url_path("/docs", "ü.txt"), "/docs/%C3%BC.txt");
}

#[test]
fn encode_keeps_unreserved_bytes() {
    assert_eq!(encode("AZaz09-._~"), "AZaz09-._~");
    assert_eq!(encode("a/b?c"), "a%2Fb%3Fc");
}

#[test]
fn sort_key_and_order_parse_with_defaults() {
    assert_eq!(SortKey::parse("size"), SortKey::Size);
    assert_eq!(SortKey::parse("modified"), SortKey::Modified);
    assert_eq!(SortKey::parse("mtime"), SortKey::Modified);
    assert_eq!(SortKey::parse("bogus"), SortKey::Name);
    assert_eq!(SortOrder::parse("desc"), SortOrder::Desc);
    assert_eq!(SortOrder::parse("asc"), SortOrder::Asc);
    assert_eq!(SortOrder::parse("whatever"), SortOrder::Asc);
}

#[test]
fn hidden_entries_are_skipped_unless_asked() {
    assert!(skip_entry(".git", false));
    assert!(!skip_entry(".git", true));
    assert!(!skip_entry("readme.md", false));
}

fn entry(name: &str, is_dir: bool, size: u64, modified: u64) -> DirEntry {
    build_entry("/", name.to_string(), is_dir, size, modified)
}

#[test]
fn build_entry_fills_path_mime_and_preview() {
    let e = entry("photo.jpg", false, 10, 20);
    assert_eq!(e.path, "/photo.jpg");
    assert_eq!(e.mime.as_deref(), Some("image/jpeg"));
    assert!(e.previewable);
    let d = entry("docs", true, 0, 0);
    assert_eq!(d.mime, None);
    assert!(!d.previewable);
}

#[test]
fn directories_sort_first_then_by_name() {
    let v = vec![
        entry("b.txt", false, 1, 1),
        entry("Zdir", true, 0, 0),
        entry("A.txt", false, 2, 2),
        entry("adir", true, 0, 0),
    ];
    let sorted = sort_entries(v, SortKey::Name, SortOrder::Asc);
    let names: Vec<&str> = sorted.iter().map(|e| e.name.as_str()).collect();
    assert_eq!(names, vec!["adir", "Zdir", "A.txt", "b.txt"]);
}

#[test]
fn size_descending_keeps_directories_first() {
    let v = vec![
        entry("small", false, 1, 0),
        entry("big", false, 100, 0),
        entry("dir", true, 0, 0),
    ];
    let sorted = sort_entries(v, SortKey::Size, SortOrder::Desc);
    let names: Vec<&str> = sorted.iter().map(|e| e.name.as_str()).collect();
    assert_eq!(names, vec!["dir", "big", "small"]);
    assert!(compare_entries(&sorted[0], &sorted[1], SortKey::Size, SortOrder::Desc) < 0);
}

#[test]
fn paginate_and_assemble_listing() {
    let v: Vec<DirEntry> = (0..5).map(|i| entry(&format!("f{i}"), false, i, 0)).collect();
    let page = paginate(v, 3, 10);
    assert_eq!(page.len(), 2);
    assert_eq!(page[0].name, "f3");
    let v2: Vec<DirEntry> = (0..5).map(|i| entry(&format!("f{i}"), false, i, 0)).collect();
    let l = assemble_listing("/docs/sub", v2, 1, 2);
    assert_eq!(l.total, 5);
    assert_eq!(l.entries.len(), 2);
    assert_eq!(l.entries[0].name, "f1");
    assert_eq!(l.parent.as_deref(), Some("/docs"));
    assert_eq!(l.path, "/docs/sub");
}

#[test]
fn equal_keys_keep_their_input_order() {
    let v = vec![
        entry("b.TXT", false, 5, 0),
        entry("a", false, 7, 0),
        entry("B.txt", false, 5, 0),
        entry("c", false, 5, 0),
    ];
    let by_size = sort_entries(v.clone(), SortKey::Size, SortOrder::Asc);
    let names: Vec<&str> = by_size.iter().map(|e| e.name.as_str()).collect();
    assert_eq!(names, vec!["b.TXT", "B.txt", "c", "a"]);
    let by_name = sort_entries(v, SortKey::Name, SortOrder::Desc);
    let names: Vec<&str> = by_name.iter().map(|e| e.name.as_str()).collect();
    assert_eq!(names, vec!["c", "b.TXT", "B.txt", "a"]);
}
