use qshare::gui::{
    campfire, default_ip, format_ts_ms, format_uptime, idle_campfire, ip_options_from,
    is_noise_interface, level_tag, rebuild_url, server_urls, sparks_for_tick, truncate_str,
    GuiEffect, GuiModel, GuiMsg, GuiStyle, IpOption, ServerStatus, CAMPFIRE_BASE,
    CAMPFIRE_FLAME_0, CAMPFIRE_FLAME_1, SVG_HEAD,
};
use qshare::stats::StatsSnapshot;

fn opt(name: &str, ip: &str) -> IpOption {
    IpOption { name: name.to_string(), ip: ip.to_string() }
}

#[test]
fn styles_cycle_through_all_five() {
    let mut s = GuiStyle::Hacker;
    let mut names = Vec::new();
    for _ in 0..5 {
        names.push(s.name());
        s = s.next();
    }
    assert_eq!(names, vec!["hacker", "tech", "retro", "anime", "mac"]);
    assert_eq!(s, GuiStyle::Hacker);
}

#[test]
fn campfire_svg_is_base_plus_pose() {
    let svg = campfire(5);
    assert_eq!(svg, format!("{SVG_HEAD}{CAMPFIRE_BASE}{CAMPFIRE_FLAME_1}</svg>"));
    assert_eq!(campfire(0), campfire(4));
    assert!(campfire(0).contains(CAMPFIRE_FLAME_0));
}

#[test]
fn sparks_at_tick_zero() {
    assert_eq!(
        sparks_for_tick(0),
        "<rect x='4' y='2' width='1' height='1' fill='#FFEC4A'/>\
<rect x='7' y='0' width='1' height='1' fill='#FFEC4A'/>\
<rect x='9' y='1' width='1' height='1' fill='#FFEC4A'/>"
    );
    assert!(idle_campfire(0).ends_with(&format!("{}</svg>", sparks_for_tick(0))));
    // The tick wraps around like a u32.
    assert_eq!(sparks_for_tick(u32::MAX).len() > 0, true);
}

#[test]
fn level_tags() {
    assert_eq!(level_tag("warn"), "WARN");
    assert_eq!(level_tag("error"), "ERR ");
    assert_eq!(level_tag("debug"), "DBG ");
    assert_eq!(level_tag("trace"), "TRC ");
    assert_eq!(level_tag("info"), "INFO");
    assert_eq!(level_tag("anything"), "INFO");
}

#[test]
fn timestamp_and_uptime_text() {
    assert_eq!(format_ts_ms(3_723_456), "01:02:03.456");
    assert_eq!(format_ts_ms(5), "00:00:00.005");
    assert_eq!(format_uptime(59), "59s");
    assert_eq!(format_uptime(61), "1m");
    assert_eq!(format_uptime(3661), "1h1m");
}

#[test]
fn truncate_str_keeps_room_for_the_ellipsis() {
    assert_eq!(truncate_str("hello", 3), "he…");
    assert_eq!(truncate_str("hi", 3), "hi");
    assert_eq!(truncate_str("abc", 0), "…");
}

#[test]
fn default_ip_prefers_hint_then_lan_then_loopback() {
    let opts = vec![opt("en0", "192.168.1.5"), opt("lo0", "127.0.0.1")];
    assert_eq!(default_ip(&opts, Some("127.0.0.1".into())), "127.0.0.1");
    assert_eq!(default_ip(&opts, Some("10.0.0.1".into())), "192.168.1.5");
    assert_eq!(default_ip(&opts, None), "192.168.1.5");
    assert_eq!(default_ip(&vec![opt("lo0", "127.0.0.1")], None), "127.0.0.1");
    assert_eq!(default_ip(&vec![], None), "127.0.0.1");
}

#[test]
fn interface_list_hides_noise_and_puts_loopback_last() {
    assert!(is_noise_interface("utun3"));
    assert!(is_noise_interface("p2p0"));
    assert!(!is_noise_interface("en0"));
    let raw = vec![
        opt("utun0", "10.8.0.1"),
        opt("lo0", "127.0.0.1"),
        opt("en1", "192.168.1.9"),
        opt("en0", "10.0.0.2"),
    ];
    let out = ip_options_from(raw);
    let names: Vec<&str> = out.iter().map(|o| o.name.as_str()).collect();
    assert_eq!(names, vec!["en0", "en1", "lo0"]);
    let out = ip_options_from(vec![opt("wlan0", "192.168.0.3")]);
    assert_eq!(out.len(), 2);
    assert_eq!((out[1].name.as_str(), out[1].ip.as_str()), ("lo", "127.0.0.1"));
    assert_eq!(out[0].label(), "wlan0 · 192.168.0.3");
}

#[test]
fn displayed_url_follows_the_selected_address() {
    assert_eq!(rebuild_url("http://192.168.1.5:8888", "10.0.0.2"), "http://10.0.0.2:8888");
    let (url, poll) = server_urls("192.168.1.5", 8080);
    assert_eq!(url, "http://192.168.1.5:8080");
    assert_eq!(poll, "http://127.0.0.1:8080");
}

fn model() -> GuiModel {
    GuiModel::new(
        "/srv".to_string(),
        8888,
        vec![opt("en0", "192.168.1.5"), opt("lo0", "127.0.0.1")],
        None,
    )
}

#[test]
fn start_refusals_set_failed_status() {
    let mut m = model();
    assert!(matches!(m.update(GuiMsg::Start { root_is_dir: false, options: vec![], hint: None }), GuiEffect::Nothing));
    assert!(matches!(&m.status, ServerStatus::Failed(e) if e == "> ERR: not a directory: /srv"));
    let mut m = model();
    m.update(GuiMsg::RootChanged("   ".into()));
    m.update(GuiMsg::Start { root_is_dir: true, options: vec![], hint: None });
    assert!(matches!(&m.status, ServerStatus::Failed(e) if e == "> ERR: target directory not set"));
    let mut m = model();
    m.update(GuiMsg::PortChanged("http".into()));
    m.update(GuiMsg::Start { root_is_dir: true, options: vec![], hint: None });
    assert!(matches!(&m.status, ServerStatus::Failed(e) if e == "> ERR: port must be 1-65535"));
    m.update(GuiMsg::DismissError);
    assert!(matches!(m.status, ServerStatus::Idle));
}

#[test]
fn start_run_poll_and_stop() {
    let mut m = model();
    let eff = m.update(GuiMsg::Start {
        root_is_dir: true,
        options: vec![opt("en0", "192.168.1.5"), opt("lo0", "127.0.0.1")],
        hint: None,
    });
    assert!(matches!(&eff, GuiEffect::StartServer { root, port: 8888, display_host } if root == "/srv" && display_host == "192.168.1.5"));
    assert!(matches!(m.status, ServerStatus::Starting));
    // A second start while booting is ignored.
    assert!(matches!(m.update(GuiMsg::Start { root_is_dir: true, options: vec![], hint: None }), GuiEffect::Nothing));
    m.update(GuiMsg::ServerReady(Ok(("http://192.168.1.5:8888".into(), "http://127.0.0.1:8888".into()))));
    assert!(matches!(&m.status, ServerStatus::Running { url, .. } if url == "http://192.168.1.5:8888"));
    assert_eq!(m.toast.as_deref(), Some("server up"));
    assert_eq!(m.qr_url.as_deref(), Some("http://192.168.1.5:8888"));
    assert!(matches!(m.update(GuiMsg::PollStats), GuiEffect::PollStats(u) if u == "http://127.0.0.1:8888"));
    let snap = StatsSnapshot { active: 2, bytes_served: 10, errors: 1 };
    m.update(GuiMsg::StatsUpdated(Some(snap)));
    assert_eq!(m.stats, snap);
    m.update(GuiMsg::IpSelected("10.0.0.2".into()));
    assert!(matches!(&m.status, ServerStatus::Running { url, poll_url } if url == "http://10.0.0.2:8888" && poll_url == "http://127.0.0.1:8888"));
    assert_eq!(m.toast.as_deref(), Some("url updated"));
    assert!(matches!(m.update(GuiMsg::CopyUrl), GuiEffect::CopyToClipboard(u) if u == "http://10.0.0.2:8888"));
    assert!(matches!(m.update(GuiMsg::Stop), GuiEffect::StopServer));
    assert!(matches!(m.status, ServerStatus::Idle));
    assert_eq!(m.stats, StatsSnapshot::default());
    assert_eq!(m.toast.as_deref(), Some("server stopped"));
    assert!(m.qr_url.is_none());
    // Polls and late results are dropped once stopped.
    assert!(matches!(m.update(GuiMsg::PollLog), GuiEffect::Nothing));
    m.update(GuiMsg::StatsUpdated(Some(snap)));
    assert_eq!(m.stats, StatsSnapshot::default());
}

#[test]
fn ticks_wrap_and_styles_cycle() {
    let mut m = model();
    m.tick = u32::MAX;
    m.update(GuiMsg::Tick);
    assert_eq!(m.tick, 0);
    m.update(GuiMsg::CycleStyle);
    assert_eq!(m.style, GuiStyle::Tech);
    m.update(GuiMsg::ToggleConnections);
    assert!(m.show_connections);
    m.update(GuiMsg::CloseConnections);
    assert!(!m.show_connections);
    m.update(GuiMsg::DirectoryPicked(Some("/home/me".into())));
    assert_eq!(m.root_input, "/home/me");
    assert!(matches!(m.update(GuiMsg::PickDirectory), GuiEffect::PickDirectory));
}

#[test]
fn refresh_keeps_a_selection_that_is_still_offered() {
    let mut m = model();
    assert_eq!(m.selected_ip, "192.168.1.5");
    m.update(GuiMsg::RefreshIps { options: vec![opt("en0", "192.168.1.5"), opt("en1", "10.1.1.1")], hint: None });
    assert_eq!(m.selected_ip, "192.168.1.5");
    m.update(GuiMsg::RefreshIps { options: vec![opt("en1", "10.1.1.1")], hint: None });
    assert_eq!(m.selected_ip, "10.1.1.1");
    assert_eq!(m.ip_options.len(), 1);
}

#[test]
fn same_named_interfaces_keep_their_order() {
    let out = ip_options_from(vec![
        opt("eth0", "10.0.0.2"),
        opt("eth0", "10.0.0.1"),
        opt("lo", "127.0.0.1"),
        opt("en1", "192.168.1.4"),
    ]);
    let ips: Vec<&str> = out.iter().map(|o| o.ip.as_str()).collect();
    assert_eq!(ips, vec!["192.168.1.4", "10.0.0.2", "10.0.0.1", "127.0.0.1"]);
}

#[test]
fn campfire_poses_are_four_pictures() {
    let poses: Vec<String> = (0..4).map(campfire).collect();
    for i in 0..4 {
        for j in (i + 1)..4 {
            assert_ne!(poses[i], poses[j]);
        }
    }
    assert_eq!(campfire(6), campfire(2));
    for f in [0u32, 1, 5, 11] {
        let c = campfire(f);
        let body = c.strip_suffix("</svg>").unwrap();
        assert_eq!(idle_campfire(f), format!("{body}{}</svg>", sparks_for_tick(f)));
    }
}
