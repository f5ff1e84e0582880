use qshare::conn::LogLine;
use qshare::stats::StatsSnapshot;
use qshare::tui::{
    chrono_like_now, clock_hms, flame_lines, human_duration, log_line_string, new_log_lines,
    next_focus, prev_focus, qr_text_rows, sample, Command, Focus, KeyAction, KeyCode, KeyPress,
    LiveData, Status, TuiState,
};

fn key(code: KeyCode) -> KeyPress {
    KeyPress::new(code, false)
}

fn state() -> TuiState {
    TuiState::new("/tmp".to_string(), 8888, "0.0.0.0".to_string())
}

#[test]
fn command_q_quits() {
    let mut st = state();
    assert_eq!(st.on_key(key(KeyCode::Char('q'))).0, KeyAction::Quit);
}

#[test]
fn editing_types_q_instead_of_quitting() {
    let mut st = state();
    st.focus = Some(Focus::Root);
    let before = st.root.clone();
    assert_eq!(st.on_key(key(KeyCode::Char('q'))).0, KeyAction::Consumed);
    assert_eq!(st.root, format!("{before}q"));
}

#[test]
fn editing_types_s_instead_of_starting() {
    let mut st = state();
    st.focus = Some(Focus::Root);
    let before = st.root.clone();
    assert_eq!(st.on_key(key(KeyCode::Char('s'))).0, KeyAction::Consumed);
    assert_eq!(st.root, format!("{before}s"));
    assert_eq!(st.status, Status::Idle);
}

#[test]
fn ctrl_c_always_quits_even_mid_edit() {
    let mut st = state();
    st.focus = Some(Focus::Port);
    assert_eq!(
        st.on_key(KeyPress::new(KeyCode::Char('c'), true)).0,
        KeyAction::Quit
    );
}

#[test]
fn tab_enters_edit_then_cycles_fields() {
    let mut st = state();
    assert_eq!(st.on_key(key(KeyCode::Tab)).0, KeyAction::Consumed);
    assert_eq!(st.focus, Some(Focus::Root));
    assert_eq!(st.on_key(key(KeyCode::Tab)).0, KeyAction::Consumed);
    assert_eq!(st.focus, Some(Focus::Port));
    assert_eq!(st.on_key(key(KeyCode::Tab)).0, KeyAction::Consumed);
    assert_eq!(st.focus, Some(Focus::Bind));
}

#[test]
fn esc_and_enter_leave_edit_mode() {
    let mut st = state();
    st.focus = Some(Focus::Port);
    assert_eq!(st.on_key(key(KeyCode::Esc)).0, KeyAction::Consumed);
    assert_eq!(st.focus, None);
    st.focus = Some(Focus::Bind);
    assert_eq!(st.on_key(key(KeyCode::Enter)).0, KeyAction::Consumed);
    assert_eq!(st.focus, None);
}

#[test]
fn port_editing_rejects_letters() {
    let mut st = state();
    st.focus = Some(Focus::Port);
    let before = st.port.clone();
    assert_eq!(st.on_key(key(KeyCode::Char('a'))).0, KeyAction::Ignored);
    assert_eq!(st.port, before);
}

#[test]
fn stop_only_works_in_command_mode_when_running() {
    let mut st = state();
    st.status = Status::Running;
    assert_eq!(st.on_key(key(KeyCode::Char('x'))).0, KeyAction::Consumed);
    assert_eq!(st.status, Status::Idle);
}

#[test]
fn up_down_cycles_fields() {
    let mut st = state();
    st.focus = Some(Focus::Port);
    assert_eq!(st.on_key(key(KeyCode::Down)).0, KeyAction::Consumed);
    assert_eq!(st.focus, Some(Focus::Bind));
    assert_eq!(st.on_key(key(KeyCode::Up)).0, KeyAction::Consumed);
    assert_eq!(st.focus, Some(Focus::Port));
    assert_eq!(st.on_key(key(KeyCode::Up)).0, KeyAction::Consumed);
    assert_eq!(st.focus, Some(Focus::Root));
}

#[test]
fn new_log_lines_dedups_across_polls() {
    let one = LogLine { ts_ms: 1000, level: "info".into(), msg: "one".into() };
    let two = LogLine { ts_ms: 1000, level: "info".into(), msg: "two".into() };
    let prev = vec![one.clone(), two.clone()];
    let next = vec![
        one,
        two,
        LogLine { ts_ms: 3000, level: "warn".into(), msg: "three".into() },
    ];
    let fresh = new_log_lines(&prev, &next);
    assert_eq!(fresh.len(), 1);
    assert_eq!(fresh[0].msg, "three");
}

#[test]
fn new_log_lines_first_poll_and_rotated_ring_take_everything() {
    let a = LogLine { ts_ms: 1, level: "info".into(), msg: "a".into() };
    let b = LogLine { ts_ms: 2, level: "info".into(), msg: "b".into() };
    let gone = LogLine { ts_ms: 0, level: "info".into(), msg: "gone".into() };
    assert_eq!(new_log_lines(&[], &[a.clone(), b.clone()]).len(), 2);
    assert_eq!(new_log_lines(&[gone], &[a.clone(), b.clone()]).len(), 2);
    assert!(new_log_lines(&[a, b.clone()], &[b]).is_empty());
}

#[test]
fn start_and_stop_commands_follow_the_status() {
    let mut st = state();
    assert_eq!(st.on_key(key(KeyCode::Char('s'))), (KeyAction::Consumed, Command::Start));
    st.status = Status::Starting;
    assert_eq!(st.on_key(key(KeyCode::Char('s'))), (KeyAction::Consumed, Command::Nothing));
    assert_eq!(st.on_key(key(KeyCode::Char('x'))), (KeyAction::Consumed, Command::Nothing));
    st.status = Status::Running;
    st.url = Some("http://1.2.3.4:8888".into());
    assert_eq!(st.on_key(key(KeyCode::Char('x'))), (KeyAction::Consumed, Command::Stop));
    assert_eq!(st.url, None);
    let mut released = KeyPress::new(KeyCode::Char('q'), false);
    released.press = false;
    assert_eq!(st.on_key(released).0, KeyAction::Ignored);
}

#[test]
fn backspace_deletes_in_the_focused_field() {
    let mut st = state();
    st.focus = Some(Focus::Port);
    st.on_key(key(KeyCode::Backspace));
    assert_eq!(st.port, "888");
    st.port.clear();
    st.on_key(key(KeyCode::Backspace));
    assert_eq!(st.port, "");
    assert_eq!(st.root, "/tmp");
}

#[test]
fn focus_helpers_cycle() {
    assert_eq!(next_focus(Focus::Bind), Focus::Root);
    assert_eq!(prev_focus(Focus::Root), Focus::Bind);
    assert_eq!(prev_focus(next_focus(Focus::Port)), Focus::Port);
}

#[test]
fn check_start_refuses_bad_fields() {
    let mut st = state();
    assert_eq!(st.check_start(false), Err("start failed: invalid root directory".to_string()));
    assert_eq!(st.status, Status::Failed);
    let mut st = state();
    st.port = "99999".into();
    assert_eq!(st.check_start(true), Err("start failed: bad port".to_string()));
    let mut st = state();
    st.root = "  /srv/share ".into();
    st.port = " 8080 ".into();
    assert_eq!(st.check_start(true), Ok(("/srv/share".to_string(), 8080)));
    assert_eq!(st.status, Status::Idle);
}

#[test]
fn live_log_keeps_two_hundred_lines() {
    let mut live = LiveData::new();
    assert_eq!(live.log, vec!["ready · s start · Tab edit · q quit".to_string()]);
    assert_eq!(live.stats, StatsSnapshot::default());
    for i in 0..250 {
        live.push_log(format!("line {i}"));
    }
    assert_eq!(live.log.len(), 200);
    assert_eq!(live.log[0], "line 50");
    assert_eq!(live.log[199], "line 249");
}

#[test]
fn durations_and_clock_text() {
    assert_eq!(human_duration(42), "42s");
    assert_eq!(human_duration(187), "3m07s");
    assert_eq!(human_duration(7500), "2h05m");
    assert_eq!(clock_hms(3661), "01:01:01");
    assert_eq!(clock_hms(86400 + 59), "00:00:59");
    assert_eq!(chrono_like_now().len(), 8);
}

#[test]
fn log_line_text_pads_the_level() {
    let l = LogLine { ts_ms: 3_723_456, level: "warn".into(), msg: "disk".into() };
    assert_eq!(log_line_string(&l), "[01:02:03] warn  disk");
    let l = LogLine { ts_ms: 0, level: "system".into(), msg: "up".into() };
    assert_eq!(log_line_string(&l), "[00:00:00] system up");
}

#[test]
fn flame_poses_cycle_every_four_frames() {
    assert_eq!(flame_lines(0), flame_lines(4));
    assert_ne!(flame_lines(0), flame_lines(1));
    assert_eq!(flame_lines(2).len(), 16);
    assert_eq!(flame_lines(3)[14], "..DSSSSSSSSD...");
}

#[test]
fn sample_clamps_to_the_grid() {
    let grid = vec![vec![true, false], vec![false, true]];
    assert!(sample(&grid, 0, 0));
    assert!(!sample(&grid, 1, 0));
    assert!(sample(&grid, 7, 9));
}

#[test]
fn qr_rows_use_half_blocks_and_centre() {
    let grid = vec![vec![true, false], vec![false, true]];
    let rows = qr_text_rows(&grid, 10, 10);
    assert_eq!(rows, vec!["    ▀▄".to_string()]);
    assert!(qr_text_rows(&[], 10, 10).is_empty());
    let big: Vec<Vec<bool>> = (0..8).map(|y| (0..8).map(|x| (x + y) % 2 == 0).collect()).collect();
    let small = qr_text_rows(&big, 6, 3);
    assert_eq!(small.len(), 2);
    assert_eq!(small[0].chars().count(), 1 + 4);
    assert!(small[0].starts_with(' '));
}

#[test]
fn shown_url_maps_any_address_to_the_lan() {
    assert_eq!(qshare::tui::shown_url("0.0.0.0", 8888, Some("192.168.1.7".into())), "http://192.168.1.7:8888");
    assert_eq!(qshare::tui::shown_url("::", 80, None), "http://127.0.0.1:80");
    assert_eq!(qshare::tui::shown_url("10.0.0.5", 9000, Some("192.168.1.7".into())), "http://10.0.0.5:9000");
}
