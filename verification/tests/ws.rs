use qshare::stats::StatsSnapshot;
use qshare::ws::{
    connected_line, contains_str, disconnected_line, effective_recursive, forwarders_to_start,
    is_top_level, short, stats_msg, truncate, welcome, ClientMsg, ServerMsg, WsSession, WsStep,
};

#[test]
fn top_level_paths() {
    assert!(is_top_level("/"));
    assert!(is_top_level(""));
    assert!(is_top_level("/photos"));
    assert!(is_top_level("//photos"));
    assert!(!is_top_level("/photos/summer"));
}

#[test]
fn watch_recursion_defaults_by_depth() {
    assert!(!effective_recursive("/photos", None));
    assert!(effective_recursive("/photos/summer", None));
    assert!(effective_recursive("/photos", Some(true)));
    assert!(!effective_recursive("/a/b", Some(false)));
}

#[test]
fn truncate_and_short_ids() {
    assert_eq!(truncate("abcdef", 3), "abc…");
    assert_eq!(truncate("abc", 3), "abc");
    assert_eq!(short("0123456789abcdef"), "01234567");
    assert_eq!(short("abc"), "abc");
}

#[test]
fn connect_and_disconnect_lines() {
    assert_eq!(connected_line("10.0.0.7", "curl/8"), "[+] 10.0.0.7 connected  ua=\"curl/8\"");
    let long = "x".repeat(50);
    assert_eq!(
        connected_line("1.1.1.1", &long),
        format!("[+] 1.1.1.1 connected  ua=\"{}…\"", "x".repeat(40))
    );
    assert_eq!(disconnected_line("10.0.0.7"), "[-] 10.0.0.7 disconnected");
}

#[test]
fn ping_pong_and_bye() {
    let mut s = WsSession::new("abcdefgh-1234".into());
    assert!(matches!(s.on_message(ClientMsg::Ping), WsStep::Reply(ServerMsg::Pong)));
    assert!(matches!(s.on_message(ClientMsg::Bye), WsStep::Close));
}

#[test]
fn watch_then_unwatch_round_trip() {
    let mut s = WsSession::new("abcdefgh-1234".into());
    let step = s.on_message(ClientMsg::Watch { path: "/photos/summer".into(), recursive: None });
    assert!(matches!(&step, WsStep::Subscribe { path, recursive: true } if path == "/photos/summer"));
    assert!(!s.is_watching("/photos/summer"));
    let out = s.on_subscribed("/photos/summer".into(), true, Ok("w-1".into()));
    assert!(matches!(&out.reply, ServerMsg::Watching { path, watcher_id, recursive: true } if path == "/photos/summer" && watcher_id == "w-1"));
    assert_eq!(out.log.level, "info");
    assert_eq!(out.log.msg, "[→] abcdefgh watch /photos/summer");
    assert_eq!(out.watching.as_deref(), Some("/photos/summer"));
    assert!(s.is_watching("/photos/summer"));
    // Watching again is idempotent.
    s.on_subscribed("/photos/summer".into(), true, Ok("w-1".into()));
    assert_eq!(s.close_paths().len(), 1);
    let step = s.on_message(ClientMsg::Unwatch { path: "/photos/summer".into() });
    match step {
        WsStep::Unwatch { path, log, reply: ServerMsg::Unwatched { path: p2 } } => {
            assert_eq!(path, "/photos/summer");
            assert_eq!(p2, "/photos/summer");
            assert_eq!(log.msg, "[←] abcdefgh unwatch /photos/summer");
        }
        other => panic!("unexpected {other:?}"),
    }
    assert!(!s.is_watching("/photos/summer"));
    assert!(s.close_paths().is_empty());
}

#[test]
fn failed_watch_is_reported_and_not_recorded() {
    let mut s = WsSession::new("id".into());
    let out = s.on_subscribed("/x/../y".into(), true, Err("invalid path: /x/../y".into()));
    assert!(matches!(&out.reply, ServerMsg::Error { op, message } if op == "watch" && message == "invalid path: /x/../y"));
    assert_eq!(out.log.level, "warn");
    assert_eq!(out.log.msg, "[!] id watch /x/../y failed: invalid path: /x/../y");
    assert!(out.watching.is_none());
    assert!(s.close_paths().is_empty());
}

#[test]
fn close_lists_every_watched_path_once() {
    let mut s = WsSession::new("id".into());
    s.on_subscribed("/a".into(), false, Ok("1".into()));
    s.on_subscribed("/b/c".into(), true, Ok("2".into()));
    let mut paths = s.close_paths();
    paths.sort();
    assert_eq!(paths, vec!["/a".to_string(), "/b/c".to_string()]);
}

#[test]
fn forwarders_start_only_for_new_paths() {
    let cur = vec!["/a".to_string(), "/b".to_string(), "/c".to_string()];
    let known = vec!["/b".to_string()];
    assert_eq!(forwarders_to_start(&cur, &known), vec!["/a".to_string(), "/c".to_string()]);
    assert!(contains_str(&known, "/b"));
    assert!(!contains_str(&known, "/a"));
}

#[test]
fn welcome_and_stats_frames() {
    assert!(matches!(welcome("id", "0.1.0", "1.2.3.4"), ServerMsg::Welcome { id, server_version, ip } if id == "id" && server_version == "0.1.0" && ip == "1.2.3.4"));
    let snap = StatsSnapshot { active: 1, bytes_served: 2, errors: 3 };
    assert!(matches!(stats_msg(&snap), ServerMsg::Stats { active: 1, bytes_served: 2, errors: 3 }));
}
