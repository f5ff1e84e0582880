use qshare::conn::{millis_since_epoch, secs_since_epoch, ConnEvent, ConnectionRegistry, LogBuffer};
use qshare::dir_cache::DirCache;
use qshare::error::{IoKind, QshareError};
use qshare::mdns::{instance_name, root_label, sanitize_hostname, service_host};
use qshare::mime::{mime_for, preview_kind, PreviewKind};
use qshare::paths::split_components;
use qshare::reader::{build_entry, DirListing};
use qshare::sandbox::Sandbox;
use qshare::search::{
    abs_to_url_path, filter_accepts, name_filter, parse_kind_filter, search_needle, shallow_hits,
    shallow_response, walk_hit, HitCollector, KindFilter, NameFilter, SearchQuery,
};
use qshare::stats::Stats;
use qshare::watcher::{convert, FsChange, SubscribePlan, WatchEventKind, WatcherRegistry};

fn comps(v: &[&str]) -> Vec<String> {
    v.iter().map(|s| s.to_string()).collect()
}

#[test]
fn stats_count_requests_bytes_and_errors() {
    let mut s = Stats::new();
    s.on_request_start();
    s.on_request_start();
    s.add_bytes(100);
    s.record_error();
    s.on_request_end();
    let snap = s.snapshot();
    assert_eq!((snap.active, snap.bytes_served, snap.errors), (1, 100, 1));
    s.on_request_end();
    s.on_request_end();
    assert_eq!(s.snapshot().active, 0);
}

#[test]
fn connection_registry_lifecycle() {
    let mut reg = ConnectionRegistry::new();
    let (info, ev) = reg.register_at("c1".into(), "10.0.0.7".into(), "curl".into(), 5_000, 5_000);
    assert_eq!(info.id, "c1");
    assert!(matches!(ev, ConnEvent::Opened { ts: 5, .. }));
    assert_eq!(reg.len(), 1);
    let ev = reg.set_watching_at("c1", "/photos".into(), 6_000);
    assert!(matches!(ev, Some(ConnEvent::Subscribed { .. })));
    reg.add_bytes_at("c1", 42, 7_000);
    let snap = reg.snapshot_at(12_000);
    assert_eq!(snap.len(), 1);
    assert_eq!(snap[0].watching, "/photos");
    assert_eq!(snap[0].bytes_sent, 42);
    assert_eq!(snap[0].uptime_secs, 7);
    assert_eq!(snap[0].last_seen_unix_ms, 7_000);
    assert!(reg.sweep_stale_at(50_000).is_empty());
    let gone = reg.sweep_stale_at(7_000 + 90_001);
    assert_eq!(gone.len(), 1);
    assert!(reg.is_empty());
    assert!(reg.unregister_at("c1", "client-close", 1).is_none());
}

#[test]
fn register_then_unregister_restores_registry() {
    let mut reg = ConnectionRegistry::new();
    reg.register_at("a".into(), "1.1.1.1".into(), "ua".into(), 0, 0);
    let ev = reg.unregister_at("a", "client-close", 3_000);
    assert!(matches!(ev, Some(ConnEvent::Closed { ref reason, ts: 3, .. }) if reason == "client-close"));
    assert_eq!(reg.len(), 0);
}

#[test]
fn log_buffer_drops_oldest_at_capacity() {
    let mut log = LogBuffer::with_capacity(3);
    for i in 0..5u64 {
        log.push_at("info", format!("m{i}"), i);
    }
    assert_eq!(log.len(), 3);
    let tail = log.tail(2);
    assert_eq!(tail.iter().map(|l| l.msg.as_str()).collect::<Vec<_>>(), vec!["m3", "m4"]);
    assert_eq!(log.tail(usize::MAX).len(), 3);
    assert_eq!(LogBuffer::new().len(), 0);
}

fn listing(path: &str) -> DirListing {
    DirListing { path: path.into(), parent: None, entries: vec![], total: 0 }
}

#[test]
fn dir_cache_ttl_and_invalidation() {
    let mut c = DirCache::new();
    c.put("/srv/a".into(), listing("/a"), 1_000);
    c.put("/srv/a/b".into(), listing("/a/b"), 1_000);
    c.put("/srv/ab".into(), listing("/ab"), 1_000);
    let hit = c.get("/srv/a", 5_000, 3_000).unwrap();
    assert_eq!(hit.age_ms, 2_000);
    assert_eq!(hit.listing.path, "/a");
    assert!(c.get("/srv/a", 5_000, 7_000).is_none());
    c.invalidate_prefix("/srv/a");
    assert!(c.get("/srv/a", 5_000, 1_000).is_none());
    assert!(c.get("/srv/a/b", 5_000, 1_000).is_none());
    assert!(c.get("/srv/ab", 5_000, 1_000).is_some());
    c.invalidate("/srv/ab");
    assert!(c.is_empty());
}

#[test]
fn error_codes_and_messages() {
    let e = QshareError::NotFound("x".into());
    assert_eq!((e.status_code(), e.error_code()), (404, "not_found"));
    assert_eq!(QshareError::Forbidden("no".into()).status_code(), 403);
    assert_eq!(QshareError::BadRequest("bad".into()).status_code(), 400);
    assert!(QshareError::Forbidden("no".into()).is_forbidden());
    let io = QshareError::Io(IoKind::NotFound, "missing".into());
    assert_eq!(io.status_code(), 404);
}

#[test]
fn sandbox_rejects_traversal_nul_and_bad_escapes() {
    assert!(matches!(Sandbox::check_request_path("/../etc/passwd"), Err(QshareError::Forbidden(_))));
    assert!(matches!(Sandbox::check_request_path("/sub/../../etc/passwd"), Err(QshareError::Forbidden(_))));
    assert!(matches!(Sandbox::check_request_path("/foo\0bar"), Err(QshareError::Forbidden(_))));
    assert!(matches!(Sandbox::check_request_path("/%ff"), Err(QshareError::BadRequest(_))));
    assert_eq!(Sandbox::check_request_path("/sub/a%20b.txt").unwrap(), "sub/a b.txt");
    assert_eq!(Sandbox::check_request_path("/file.txt").unwrap(), "file.txt");
}

#[test]
fn sandbox_containment_and_url_paths() {
    let s = Sandbox::from_canonical_root(comps(&["tmp", "share"]));
    assert!(s.contains(&comps(&["tmp", "share", "file.txt"])));
    assert!(s.contains(&comps(&["tmp", "share"])));
    assert!(!s.contains(&comps(&["etc", "passwd"])));
    assert!(!s.contains(&comps(&["tmp"])));
    assert_eq!(s.to_url_path(&comps(&["tmp", "share", "a b", "c.txt"])), Some("a%20b/c.txt".into()));
    assert_eq!(s.to_url_path(&comps(&["etc"])), None);
    assert_eq!(split_components("/a//b/./c/"), comps(&["a", "b", "c"]));
}

#[test]
fn watcher_subscriptions_share_one_watcher() {
    let mut w = WatcherRegistry::new(comps(&["srv"]));
    let key = match w.plan_subscribe("/photos", "c1", 1_000).unwrap() {
        SubscribePlan::MustArm { key } => key,
        other => panic!("{other:?}"),
    };
    assert_eq!(key, "/srv/photos");
    assert!(w.add_watcher(key, "/photos", "w1".into(), false, "c1", 1_000).is_some());
    match w.plan_subscribe("/photos/", "c2", 2_000).unwrap() {
        SubscribePlan::Joined { watcher_id } => assert_eq!(watcher_id, "w1"),
        other => panic!("{other:?}"),
    }
    assert_eq!(w.active_count(), 1);
    assert_eq!(w.snapshot()[0].2, 2);
    assert!(matches!(w.plan_subscribe("/a/../b", "c1", 0), Err(QshareError::BadRequest(_))));
    w.unsubscribe("/photos", "c1", 3_000);
    w.unsubscribe("/photos", "c2", 3_000);
    assert!(w.sweep(3_000 + 29_000).is_empty());
    let released = w.sweep(3_000 + 30_000);
    assert_eq!(released.len(), 1);
    assert_eq!(released[0].1, "w1");
    assert_eq!(w.active_count(), 0);
}

#[test]
fn fs_changes_convert_relative_to_the_root() {
    let root = comps(&["srv"]);
    let abs = comps(&["srv", "docs", "new file.txt"]);
    match convert(WatchEventKind::RenameTo, &abs, &root, false, 9).unwrap() {
        FsChange::Created { path, is_dir, ts } => {
            assert_eq!(path, "docs/new%20file.txt");
            assert!(!is_dir);
            assert_eq!(ts, 9);
        }
        other => panic!("{other:?}"),
    }
    assert!(matches!(convert(WatchEventKind::Remove, &abs, &root, false, 1), Some(FsChange::Removed { .. })));
    assert!(convert(WatchEventKind::Other, &abs, &root, false, 1).is_none());
    assert!(convert(WatchEventKind::Modify, &comps(&["etc"]), &root, false, 1).is_none());
}

#[test]
fn search_helpers() {
    assert_eq!(search_needle("  PhOtO "), "photo");
    assert_eq!(parse_kind_filter(Some("FILE")), KindFilter::File);
    assert_eq!(parse_kind_filter(Some("directory")), KindFilter::Dir);
    assert_eq!(parse_kind_filter(None), KindFilter::Any);
    let q = SearchQuery {
        q: "x".into(),
        path: Some(String::new()),
        limit: None,
        recursive: true,
        depth: Some(99),
        max_results: Some(0),
        kind: None,
        regex: false,
    };
    assert_eq!(q.walk_limits(), (8, 1, 9));
    assert_eq!(q.search_root(), "/");
    assert_eq!(q.shallow_limit(), 100);
    assert_eq!(abs_to_url_path(&comps(&["a b", "c"])), "/a%20b/c");
    assert_eq!(abs_to_url_path(&vec![]), "/");
}

#[test]
fn shallow_search_filters_and_caps() {
    let entries = vec![
        build_entry("/d", "Photo1.jpg".into(), false, 1, 1),
        build_entry("/d", "photos".into(), true, 0, 0),
        build_entry("/d", "notes.txt".into(), false, 1, 1),
        build_entry("/d", "PHOTO2.png".into(), false, 1, 1),
    ];
    let hits = shallow_hits(&entries, "/d", &sub("photo"), 10, KindFilter::File);
    let names: Vec<&str> = hits.iter().map(|h| h.entry.name.as_str()).collect();
    assert_eq!(names, vec!["Photo1.jpg", "PHOTO2.png"]);
    assert_eq!(hits[0].parent_dir, "/d");
    let capped = shallow_hits(&entries, "/d", &sub("photo"), 1, KindFilter::Any);
    assert_eq!(capped.len(), 1);
    let resp = shallow_response("Photo".into(), "/d", capped);
    assert_eq!((resp.total, resp.truncated, resp.recursive), (1, false, false));
}

#[test]
fn recursive_hits_and_collector() {
    let hit = walk_hit(&comps(&["docs", "My File.txt"]), false, &sub("file"), KindFilter::Any, 3, 4).unwrap();
    assert_eq!(hit.entry.path, "/docs/My%20File%2Etxt");
    assert_eq!(hit.rel_path, "docs/My%20File%2Etxt");
    assert_eq!(hit.parent_dir, "/docs");
    assert_eq!(hit.depth, 1);
    assert!(walk_hit(&comps(&["docs"]), true, &sub("file"), KindFilter::Any, 0, 0).is_none());
    assert!(walk_hit(&vec![], true, &sub(""), KindFilter::Any, 0, 0).is_none());
    let mut c = HitCollector::new(2);
    assert!(c.wants_more());
    assert!(c.offer(walk_hit(&comps(&["a"]), false, &sub(""), KindFilter::Any, 0, 0).unwrap()));
    assert!(!c.offer(walk_hit(&comps(&["b"]), false, &sub(""), KindFilter::Any, 0, 0).unwrap()));
    let resp = c.finish("q".into(), "/".into());
    assert!(resp.truncated);
    assert_eq!(resp.total, 2);
}

#[test]
fn mime_guess_and_preview_kinds() {
    assert_eq!(mime_for("a.JPG"), "image/jpeg");
    assert_eq!(mime_for("noext"), "application/octet-stream");
    assert_eq!(preview_kind("video/mp4"), PreviewKind::Video);
    assert_eq!(preview_kind("text/plain"), PreviewKind::Text);
    assert!(!preview_kind("application/zip").is_previewable());
}

#[test]
fn mdns_names() {
    assert_eq!(sanitize_hostname("my_box.local."), "my-box");
    assert_eq!(sanitize_hostname("host.local.local"), "host");
    assert_eq!(sanitize_hostname(".local."), "qshare");
    assert_eq!(sanitize_hostname("Büro-PC"), "Büro-PC");
    assert_eq!(instance_name("box"), "qshare-box");
    assert_eq!(service_host("box"), "box.local.");
    assert_eq!(root_label(&comps(&["home", "me", "Documents"])), "Documents");
    assert_eq!(root_label(&vec![]), "share");
    assert_eq!(root_label(&comps(&["a", ".."])), "share");
}

#[test]
fn clock_readings_convert() {
    assert_eq!(millis_since_epoch(Some(1_700_000_000_123)), 1_700_000_000_123);
    assert_eq!(millis_since_epoch(Some((1u128 << 64) + 5)), 5);
    assert_eq!(millis_since_epoch(None), 0);
    assert_eq!(secs_since_epoch(Some(42)), 42);
    assert_eq!(secs_since_epoch(None), 0);
}

#[test]
fn sweep_and_touch_with_the_clock() {
    let mut reg = ConnectionRegistry::new();
    let (id, _, _) = reg.register("10.0.0.1".into(), "ua".into());
    reg.add_bytes(&id, 7);
    reg.touch(&id);
    let snap = reg.snapshot();
    assert_eq!(snap.len(), 1);
    assert_eq!(snap[0].bytes_sent, 7);
    // Seen just now: nothing is stale.
    assert!(reg.sweep_stale().is_empty());
    assert_eq!(reg.len(), 1);
}

fn sub(needle: &str) -> NameFilter {
    NameFilter::Substring(needle.to_string())
}

#[test]
fn regex_search_over_names() {
    let entries = vec![
        build_entry("/", "notes.md".into(), false, 1, 1),
        build_entry("/", "report.txt".into(), false, 1, 1),
    ];
    let f = name_filter("^rep.*txt$", true).unwrap();
    let hits = shallow_hits(&entries, "/", &f, 10, KindFilter::Any);
    let names: Vec<&str> = hits.iter().map(|h| h.entry.name.as_str()).collect();
    assert_eq!(names, vec!["report.txt"]);
    assert!(filter_accepts(&name_filter("  REPORT ", true).unwrap(), "report.txt"));
    assert!(!filter_accepts(&name_filter("^notes$", true).unwrap(), "notes.md"));
    assert!(walk_hit(&comps(&["d", "report.txt"]), false, &f, KindFilter::Any, 0, 0).is_some());
    assert!(matches!(name_filter("(unclosed", true), Err(QshareError::BadRequest(m)) if m == "invalid regex"));
    assert!(matches!(name_filter("  PhOtO ", false), Ok(NameFilter::Substring(n)) if n == "photo"));
    assert!(filter_accepts(&name_filter("a.c", false).unwrap(), "A.C") && !filter_accepts(&name_filter("a.c", false).unwrap(), "abc"));
}

#[test]
fn stats_snapshot_holds_running_totals() {
    let mut st = Stats::new();
    assert_eq!(st.snapshot(), qshare::stats::StatsSnapshot { active: 0, bytes_served: 0, errors: 0 });
    st.on_request_start();
    st.on_request_start();
    st.add_bytes(100);
    st.on_request_end();
    st.record_error();
    st.add_bytes(23);
    st.on_request_start();
    let s1 = st.snapshot();
    assert_eq!((s1.active, s1.bytes_served, s1.errors), (2, 123, 1));
    assert_eq!(st.snapshot(), s1);
}

#[test]
fn new_connection_ids_are_uuid_v4_text() {
    let mut reg = ConnectionRegistry::new();
    let (id, _, _) = reg.register("10.0.0.2".into(), "ua".into());
    assert_eq!(id.len(), 36);
    for (i, c) in id.chars().enumerate() {
        if [8, 13, 18, 23].contains(&i) {
            assert_eq!(c, '-');
        } else {
            assert!(c.is_ascii_digit() || ('a'..='f').contains(&c));
        }
    }
    assert_eq!(id.chars().nth(14), Some('4'));
    assert!(matches!(id.chars().nth(19), Some('8' | '9' | 'a' | 'b')));
}
