use qshare::dir_cache::DirCache;
use qshare::poll::{get_request, http_target, json_body_start};
use qshare::qr::{qr_grid, qr_terminal_text};
use qshare::range::is_positive_suffix_header;
use qshare::reader::{build_entries, DirListing, RawEntry};
use qshare::routes::asset_name;
use qshare::sandbox::Sandbox;
use qshare::tui::stamped_line;
use qshare::watcher::{batch_changes, FsChange, FsEvent, ObservedChange, WatchEventKind, WatcherRegistry, SubscribePlan};
use qshare::ws::WsSession;
use qshare::error::QshareError;

fn comps(v: &[&str]) -> Vec<String> {
    v.iter().map(|s| s.to_string()).collect()
}

#[test]
fn http_targets_and_requests() {
    assert_eq!(
        http_target("http://127.0.0.1:8888/api/log?tail=500"),
        Ok(("127.0.0.1:8888".to_string(), "/api/log?tail=500".to_string()))
    );
    assert_eq!(http_target("https://host:1"), Ok(("host:1".to_string(), "/".to_string())));
    assert_eq!(http_target("localhost:80/x"), Ok(("localhost:80".to_string(), "/x".to_string())));
    assert_eq!(http_target("http:///x"), Err("bad url".to_string()));
    assert_eq!(http_target(""), Err("bad url".to_string()));
    assert_eq!(
        get_request("h:1", "/api/stats"),
        "GET /api/stats HTTP/1.1\r\nHost: h:1\r\nConnection: close\r\nUser-Agent: qshare\r\n\r\n"
    );
}

#[test]
fn json_body_is_found_after_the_headers() {
    let resp = b"HTTP/1.1 200 OK\r\nTransfer-Encoding: chunked\r\n\r\n1a\r\n{\"active\":1}\r\n0\r\n\r\n";
    let i = json_body_start(resp).unwrap();
    assert_eq!(resp[i], b'{');
    let plain = b"HTTP/1.1 200 OK\r\n\r\n[1,2]";
    assert_eq!(json_body_start(plain), Ok(19));
    let nojson = b"HTTP/1.1 204 No Content\r\n\r\nxyz";
    assert_eq!(json_body_start(nojson), Ok(27));
    assert_eq!(json_body_start(b"HTTP/1.1 200 OK\r\n"), Err("no body separator".to_string()));
}

#[test]
fn qr_codes_of_short_urls() {
    let grid = qr_grid("http://192.168.1.5:8888").unwrap();
    assert_eq!(grid.len(), 25);
    assert!(grid.iter().all(|row| row.len() == 25));
    // Finder pattern corner is dark.
    assert!(grid[0][0]);
    let text = qr_terminal_text("http://192.168.1.5:8888").unwrap();
    assert!(text.contains('█'));
    assert!(text.lines().count() > 10);
    assert!(qr_grid(&"x".repeat(10_000)).is_none());
}

#[test]
fn asset_names() {
    assert_eq!(asset_name("/"), Some("index.html".to_string()));
    assert_eq!(asset_name(""), Some("index.html".to_string()));
    assert_eq!(asset_name("//assets/app.js"), Some("assets/app.js".to_string()));
    assert_eq!(asset_name("/assets/app.js.map"), None);
}

#[test]
fn positive_suffix_detection() {
    assert!(is_positive_suffix_header("bytes=-5"));
    assert!(!is_positive_suffix_header("bytes=-0"));
    assert!(!is_positive_suffix_header("bytes=0-5"));
    assert!(!is_positive_suffix_header("nonsense"));
}

#[test]
fn build_entries_hides_dot_files() {
    let raw = vec![
        RawEntry { name: ".git".into(), is_dir: true, size: 0, modified: 0 },
        RawEntry { name: "a.txt".into(), is_dir: false, size: 3, modified: 9 },
    ];
    let v = build_entries("/d", &raw, false);
    assert_eq!(v.len(), 1);
    assert_eq!(v[0].path, "/d/a.txt");
    assert_eq!(v[0].mime.as_deref(), Some("text/plain"));
    assert_eq!(build_entries("/d", &raw, true).len(), 2);
}

#[test]
fn confine_keeps_paths_inside_the_root() {
    let s = Sandbox::from_canonical_root(comps(&["srv"]));
    assert_eq!(s.confine(true, comps(&["srv", "a"])).unwrap(), comps(&["srv", "a"]));
    assert!(matches!(s.confine(true, comps(&["etc", "passwd"])), Err(QshareError::Forbidden(m)) if m == "path escapes root"));
    assert_eq!(s.confine(false, comps(&["srv", "new.txt"])).unwrap(), comps(&["srv", "new.txt"]));
    assert!(s.confine(false, comps(&["srv"])).is_err());
    assert!(s.confine(false, vec![]).is_err());
}

#[test]
fn debounce_window_becomes_one_batch() {
    let root = comps(&["srv"]);
    let observed = vec![
        ObservedChange { kind: WatchEventKind::Create, path: comps(&["srv", "a"]), is_dir: true },
        ObservedChange { kind: WatchEventKind::Other, path: comps(&["srv", "b"]), is_dir: false },
        ObservedChange { kind: WatchEventKind::Modify, path: comps(&["elsewhere"]), is_dir: false },
        ObservedChange { kind: WatchEventKind::RenameFrom, path: comps(&["srv", "c.txt"]), is_dir: false },
    ];
    match batch_changes(&observed, &root, 7) {
        Some(FsEvent::Batch(v)) => {
            assert_eq!(v.len(), 2);
            assert!(matches!(&v[0], FsChange::Created { path, is_dir: true, ts: 7 } if path == "a"));
            assert!(matches!(&v[1], FsChange::Removed { path, is_dir: false, ts: 7 } if path == "c.txt"));
        }
        other => panic!("{other:?}"),
    }
    assert!(batch_changes(&observed[1..3].to_vec(), &root, 7).is_none());
}

#[test]
fn dashboard_log_lines_are_stamped() {
    assert_eq!(stamped_line("12:00:01", "running · http://x"), "[12:00:01] running · http://x");
}

#[test]
fn unwatch_after_watch_restores_the_session() {
    let mut s = WsSession::new("c".into());
    s.on_subscribed("/keep".into(), false, Ok("1".into()));
    s.on_subscribed("/tmp".into(), true, Ok("2".into()));
    s.on_message(qshare::ws::ClientMsg::Unwatch { path: "/tmp".into() });
    assert_eq!(s.close_paths(), vec!["/keep".to_string()]);
}

#[test]
fn subscribe_then_unsubscribe_leaves_the_count() {
    let mut w = WatcherRegistry::new(comps(&["srv"]));
    if let SubscribePlan::MustArm { key } = w.plan_subscribe("/a", "x", 0).unwrap() {
        w.add_watcher(key, "/a", "w".into(), false, "x", 0);
    }
    w.plan_subscribe("/a", "y", 1).unwrap();
    assert_eq!(w.snapshot()[0].2, 2);
    w.unsubscribe("/a", "y", 2);
    assert_eq!(w.snapshot()[0].2, 1);
    assert!(w.sweep(1_000_000).is_empty());
}

#[test]
fn invalidated_entries_miss() {
    let mut c = DirCache::new();
    c.put("/k".into(), DirListing { path: "/".into(), parent: None, entries: vec![], total: 0 }, 0);
    assert!(c.get("/k", 10, 0).is_some());
    c.invalidate("/k");
    assert!(c.get("/k", 10, 0).is_none());
    assert_eq!(c.len(), 0);
}

/// Resolution of `url_path` under a root `/tmp/qshare-sandbox` whose tree
/// holds `file.txt` and `sub/dir`: the lexical checks, then the join
/// (these paths are their own canonical form), then confinement.
fn resolve_in_sandbox(url_path: &str) -> Result<Vec<String>, QshareError> {
    let root = comps(&["tmp", "qshare-sandbox"]);
    let s = Sandbox::from_canonical_root(root.clone());
    let rel = Sandbox::check_request_path(url_path)?;
    let mut joined = root;
    joined.extend(rel.split('/').filter(|c| !c.is_empty()).map(|c| c.to_string()));
    let exists = matches!(joined.last().map(|s| s.as_str()), Some("file.txt") | Some("dir"));
    s.confine(exists, joined)
}

#[test]
fn resolve_normal_path() {
    let p = resolve_in_sandbox("/file.txt").unwrap();
    assert!(p.ends_with(&comps(&["file.txt"])));
}

#[test]
fn resolve_nested_path() {
    let p = resolve_in_sandbox("/sub/dir").unwrap();
    assert!(p.ends_with(&comps(&["sub", "dir"])));
}

#[test]
fn reject_traversal() {
    assert!(matches!(resolve_in_sandbox("/../etc/passwd"), Err(QshareError::Forbidden(_))));
    assert!(matches!(resolve_in_sandbox("/sub/../../etc/passwd"), Err(QshareError::Forbidden(_))));
}

#[test]
fn reject_nul() {
    assert!(matches!(resolve_in_sandbox("/foo\0bar"), Err(QshareError::Forbidden(_))));
}

#[test]
fn reject_absolute_segment() {
    let root = comps(&["tmp", "qshare-sandbox"]);
    let res = resolve_in_sandbox("/file.txt").unwrap();
    assert!(res.starts_with(&root));
    assert!(!res.starts_with(&comps(&["etc"])));
}

#[test]
fn encoded_parent_segments_are_rejected() {
    assert!(matches!(resolve_in_sandbox("/%2e%2e/x"), Err(QshareError::Forbidden(_))));
    assert!(matches!(resolve_in_sandbox("/sub/%2E%2E/%2e%2e/etc"), Err(QshareError::Forbidden(_))));
    let s = Sandbox::from_canonical_root(comps(&["srv"]));
    assert!(s.confine(false, comps(&["srv", "..", "x"])).is_err());
    assert!(s.confine(true, comps(&["srv", "a", "..", "b"])).is_err());
}
