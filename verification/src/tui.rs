//! Logic of the keyboard-driven terminal dashboard.
//!
//! Two modes: in command mode `s` starts, `x` stops, `q` quits and `Tab`
//! enters edit mode; in edit mode every printable key types into the
//! focused field (`root`, `port`, `bind`), arrows and `Tab` move between
//! fields, `Enter`/`Esc` go back. `Ctrl+C` / `Ctrl+Q` always quit.
//!
//! Drawing, the terminal, the server runtime and the HTTP polling belong
//! to the caller; this module holds the state machine, the live-feed
//! bookkeeping and the text the dashboard shows.
use vstd::prelude::*;

use crate::conn::{last_n, unix_secs, LogLine};
use crate::error::text_of;
use crate::num::{
    dec_chars, dec_str, pad_left, pad_right, parse_u16, parse_u16_spec, push_dec, push_dec2,
    push_padded_right,
};
use crate::stats::StatsSnapshot;
use crate::text::{chars_eq, chars_vec, push_char, push_str, string_from_chars, sub_vec, trim, trim_string};

verus! {

broadcast use vstd::string::group_string_axioms;

/// The settings field being edited.
#[derive(Clone, Copy, Debug, PartialEq, Eq, Structural)]
pub enum Focus {
    Root,
    Port,
    Bind,
}

/// Server state as the dashboard shows it.
#[derive(Clone, Copy, Debug, PartialEq, Eq, Structural)]
pub enum Status {
    Idle,
    Starting,
    Running,
    Failed,
}

/// The keys the dashboard distinguishes.
#[derive(Clone, Copy, Debug, PartialEq, Eq, Structural)]
pub enum KeyCode {
    Char(char),
    Tab,
    BackTab,
    Esc,
    Enter,
    Up,
    Down,
    Backspace,
    Other,
}

/// One key event: the key, whether Control was held, and whether it is a
/// press (repeats and releases are ignored).
#[derive(Clone, Copy, Debug, PartialEq, Eq, Structural)]
pub struct KeyPress {
    pub code: KeyCode,
    pub ctrl: bool,
    pub press: bool,
}

impl KeyPress {
    /// A plain press of `code`.
    pub fn new(code: KeyCode, ctrl: bool) -> (r: KeyPress)
        ensures
            r == (KeyPress { code, ctrl, press: true }),
    {
        KeyPress { code, ctrl, press: true }
    }
}

/// Result of handling one key press.
#[derive(Clone, Copy, Debug, PartialEq, Eq, Structural)]
pub enum KeyAction {
    /// The key was handled.
    Consumed,
    /// The app should exit.
    Quit,
    /// Nothing to do.
    Ignored,
}

/// Server work a key asks of the caller.
#[derive(Clone, Copy, Debug, PartialEq, Eq, Structural)]
pub enum Command {
    Nothing,
    Start,
    Stop,
}

pub open spec fn next_focus_of(f: Focus) -> Focus {
    match f {
        Focus::Root => Focus::Port,
        Focus::Port => Focus::Bind,
        Focus::Bind => Focus::Root,
    }
}

pub open spec fn prev_focus_of(f: Focus) -> Focus {
    match f {
        Focus::Root => Focus::Bind,
        Focus::Port => Focus::Root,
        Focus::Bind => Focus::Port,
    }
}

pub fn next_focus(f: Focus) -> (r: Focus)
    ensures
        r == next_focus_of(f),
{
    match f {
        Focus::Root => Focus::Port,
        Focus::Port => Focus::Bind,
        Focus::Bind => Focus::Root,
    }
}

pub fn prev_focus(f: Focus) -> (r: Focus)
    ensures
        r == prev_focus_of(f),
{
    match f {
        Focus::Root => Focus::Bind,
        Focus::Port => Focus::Root,
        Focus::Bind => Focus::Port,
    }
}

/// `Ctrl+C` or `Ctrl+Q`.
pub open spec fn ctrl_quit(k: KeyPress) -> bool {
    k.ctrl && (k.code == KeyCode::Char('c') || k.code == KeyCode::Char('q'))
}

/// The key reaches the mode-specific handling.
pub open spec fn handled(k: KeyPress) -> bool {
    k.press && !ctrl_quit(k)
}

pub open spec fn ascii_digit(c: char) -> bool {
    '0' <= c && c <= '9'
}

/// What a key press answers.
pub open spec fn key_action(focus: Option<Focus>, k: KeyPress) -> KeyAction {
    if !k.press {
        KeyAction::Ignored
    } else if ctrl_quit(k) {
        KeyAction::Quit
    } else {
        match focus {
            None => match k.code {
                KeyCode::Char(c) => if c == 'q' {
                    KeyAction::Quit
                } else if c == 's' || c == 'x' {
                    KeyAction::Consumed
                } else {
                    KeyAction::Ignored
                },
                KeyCode::Tab | KeyCode::BackTab => KeyAction::Consumed,
                _ => KeyAction::Ignored,
            },
            Some(f) => match k.code {
                KeyCode::Char(c) => if f == Focus::Port && !ascii_digit(c) {
                    KeyAction::Ignored
                } else {
                    KeyAction::Consumed
                },
                KeyCode::Other => KeyAction::Ignored,
                _ => KeyAction::Consumed,
            },
        }
    }
}

/// The server work a key press asks for: `s` starts unless a server is
/// starting or running, `x` stops a running one; only in command mode.
pub open spec fn key_command(focus: Option<Focus>, status: Status, k: KeyPress) -> Command {
    if !handled(k) || focus is Some {
        Command::Nothing
    } else if k.code == KeyCode::Char('s') && status != Status::Running && status != Status::Starting {
        Command::Start
    } else if k.code == KeyCode::Char('x') && status == Status::Running {
        Command::Stop
    } else {
        Command::Nothing
    }
}

/// The focus after a key press.
pub open spec fn key_focus(focus: Option<Focus>, k: KeyPress) -> Option<Focus> {
    if !handled(k) {
        focus
    } else {
        match focus {
            None => match k.code {
                KeyCode::Tab | KeyCode::BackTab => Some(Focus::Root),
                _ => None,
            },
            Some(f) => match k.code {
                KeyCode::Esc | KeyCode::Enter => None,
                KeyCode::Tab | KeyCode::Down => Some(next_focus_of(f)),
                KeyCode::BackTab | KeyCode::Up => Some(prev_focus_of(f)),
                _ => Some(f),
            },
        }
    }
}

/// The text of field `which` after a key press: edited only while it has
/// the focus; the port field takes digits only.
pub open spec fn key_edit(text: Seq<char>, which: Focus, focus: Option<Focus>, k: KeyPress) -> Seq<char> {
    if handled(k) && focus == Some(which) {
        match k.code {
            KeyCode::Backspace => if text.len() > 0 {
                text.drop_last()
            } else {
                text
            },
            KeyCode::Char(c) => if which == Focus::Port && !ascii_digit(c) {
                text
            } else {
                text.push(c)
            },
            _ => text,
        }
    } else {
        text
    }
}

/// The host a running dashboard shows: the LAN address (else the
/// loopback) when the server listens on every interface (`0.0.0.0` or
/// `::`), the bound address otherwise.
pub open spec fn shown_host(host: Seq<char>, lan_ip: Option<String>) -> Seq<char> {
    if host == "0.0.0.0"@ || host == "::"@ {
        match lan_ip {
            Some(ip) => ip@,
            None => "127.0.0.1"@,
        }
    } else {
        host
    }
}

/// The URL the dashboard shows and encodes in its QR code, for a server
/// bound to `host` (the address as text) on `port`, with `lan_ip` the
/// machine's LAN address when known.
pub fn shown_url(host: &str, port: u16, lan_ip: Option<String>) -> (r: String)
    ensures
        r@ == "http://"@ + shown_host(host@, lan_ip) + ":"@ + dec_str(port as nat),
{
    let h = chars_vec(host);
    let any4 = chars_vec("0.0.0.0");
    let any6 = chars_vec("::");
    let mut s = text_of("http://");
    if chars_eq(h.as_slice(), any4.as_slice()) || chars_eq(h.as_slice(), any6.as_slice()) {
        match lan_ip {
            Some(ip) => push_str(&mut s, ip.as_str()),
            None => push_str(&mut s, "127.0.0.1"),
        }
    } else {
        push_str(&mut s, host);
    }
    push_str(&mut s, ":");
    push_dec(&mut s, port as u64);
    s
}

/// The dashboard's editable settings and server status.
#[derive(Debug)]
pub struct TuiState {
    pub root: String,
    pub port: String,
    pub bind: String,
    /// `Some(field)` = editing that field; `None` = command mode.
    pub focus: Option<Focus>,
    pub status: Status,
    /// The advertised URL while running.
    pub url: Option<String>,
}

fn pop_char(s: &String) -> (r: String)
    ensures
        r@ == (if s@.len() > 0 {
            s@.drop_last()
        } else {
            s@
        }),
{
    let v = chars_vec(s.as_str());
    if v.len() == 0 {
        string_from_chars(v.as_slice())
    } else {
        let w = sub_vec(v.as_slice(), 0, v.len() - 1);
        assert(w@ =~= s@.drop_last());
        string_from_chars(w.as_slice())
    }
}

fn typed_char(s: &String, c: char) -> (r: String)
    ensures
        r@ == s@.push(c),
{
    let mut out = s.clone();
    push_char(&mut out, c);
    out
}

impl TuiState {
    /// Command mode, idle, with the given settings (the port as text).
    pub fn new(root: String, port: u16, bind: String) -> (r: TuiState)
        ensures
            r.root == root,
            r.port@ == dec_str(port as nat),
            r.bind == bind,
            r.focus is None,
            r.status == Status::Idle,
            r.url is None,
    {
        let p = dec_chars(port as u64);
        TuiState { root, port: string_from_chars(p.as_slice()), bind, focus: None, status: Status::Idle, url: None }
    }

    /// Handles one key press. Stopping takes effect here (the status goes
    /// back to idle and the URL is cleared); the caller shuts the server
    /// down on `Command::Stop` and starts one on `Command::Start`.
    pub fn on_key(&mut self, key: KeyPress) -> (r: (KeyAction, Command))
        ensures
            r.0 == key_action(old(self).focus, key),
            r.1 == key_command(old(self).focus, old(self).status, key),
            final(self).focus == key_focus(old(self).focus, key),
            final(self).root@ == key_edit(old(self).root@, Focus::Root, old(self).focus, key),
            final(self).port@ == key_edit(old(self).port@, Focus::Port, old(self).focus, key),
            final(self).bind@ == key_edit(old(self).bind@, Focus::Bind, old(self).focus, key),
            r.1 == Command::Stop ==> final(self).status == Status::Idle && final(self).url is None,
            r.1 != Command::Stop ==> final(self).status == old(self).status && final(self).url
                == old(self).url,
    {
        if !key.press {
            return (KeyAction::Ignored, Command::Nothing);
        }
        if key.ctrl && (key.code == KeyCode::Char('c') || key.code == KeyCode::Char('q')) {
            return (KeyAction::Quit, Command::Nothing);
        }
        match self.focus {
            None => match key.code {
                KeyCode::Char(c) => {
                    if c == 'q' {
                        (KeyAction::Quit, Command::Nothing)
                    } else if c == 's' {
                        if self.status != Status::Running && self.status != Status::Starting {
                            (KeyAction::Consumed, Command::Start)
                        } else {
                            (KeyAction::Consumed, Command::Nothing)
                        }
                    } else if c == 'x' {
                        if self.status == Status::Running {
                            self.status = Status::Idle;
                            self.url = None;
                            (KeyAction::Consumed, Command::Stop)
                        } else {
                            (KeyAction::Consumed, Command::Nothing)
                        }
                    } else {
                        (KeyAction::Ignored, Command::Nothing)
                    }
                },
                KeyCode::Tab | KeyCode::BackTab => {
                    self.focus = Some(Focus::Root);
                    (KeyAction::Consumed, Command::Nothing)
                },
                _ => (KeyAction::Ignored, Command::Nothing),
            },
            Some(field) => match key.code {
                KeyCode::Esc | KeyCode::Enter => {
                    self.focus = None;
                    (KeyAction::Consumed, Command::Nothing)
                },
                KeyCode::Tab | KeyCode::Down => {
                    self.focus = Some(next_focus(field));
                    (KeyAction::Consumed, Command::Nothing)
                },
                KeyCode::BackTab | KeyCode::Up => {
                    self.focus = Some(prev_focus(field));
                    (KeyAction::Consumed, Command::Nothing)
                },
                KeyCode::Backspace => {
                    match field {
                        Focus::Root => {
                            self.root = pop_char(&self.root);
                        },
                        Focus::Port => {
                            self.port = pop_char(&self.port);
                        },
                        Focus::Bind => {
                            self.bind = pop_char(&self.bind);
                        },
                    }
                    (KeyAction::Consumed, Command::Nothing)
                },
                KeyCode::Char(c) => {
                    if field == Focus::Port && !('0' <= c && c <= '9') {
                        return (KeyAction::Ignored, Command::Nothing);
                    }
                    match field {
                        Focus::Root => {
                            self.root = typed_char(&self.root, c);
                        },
                        Focus::Port => {
                            self.port = typed_char(&self.port, c);
                        },
                        Focus::Bind => {
                            self.bind = typed_char(&self.bind, c);
                        },
                    }
                    (KeyAction::Consumed, Command::Nothing)
                },
                KeyCode::Other => (KeyAction::Ignored, Command::Nothing),
            },
        }
    }
}

/// Why the dashboard refused to start a server.
pub open spec fn start_refusal(root: Seq<char>, root_is_dir: bool, port: Seq<char>) -> Option<Seq<char>> {
    if trim(root).len() == 0 || !root_is_dir {
        Some("start failed: invalid root directory"@)
    } else if parse_u16_spec(trim(port)) is None {
        Some("start failed: bad port"@)
    } else {
        None
    }
}

impl TuiState {
    /// Checks the root and port fields before a start (`root_is_dir`: the
    /// trimmed root names a directory). On success gives the trimmed root
    /// and the port; on refusal the status becomes `Failed` and the log
    /// line is returned.
    pub fn check_start(&mut self, root_is_dir: bool) -> (r: Result<(String, u16), String>)
        ensures
            final(self).root == old(self).root,
            final(self).port == old(self).port,
            final(self).bind == old(self).bind,
            final(self).focus == old(self).focus,
            final(self).url == old(self).url,
            match start_refusal(old(self).root@, root_is_dir, old(self).port@) {
                Some(msg) => r matches Err(m) && m@ == msg && final(self).status == Status::Failed,
                None => r matches Ok((root, port)) && root@ == trim(old(self).root@) && Some(port)
                    == parse_u16_spec(trim(old(self).port@)) && final(self).status == old(self).status,
            },
    {
        let root = trim_string(self.root.as_str());
        if chars_vec(root.as_str()).len() == 0 || !root_is_dir {
            self.status = Status::Failed;
            return Err(text_of("start failed: invalid root directory"));
        }
        let p = trim_string(self.port.as_str());
        match parse_u16(p.as_str()) {
            None => {
                self.status = Status::Failed;
                Err(text_of("start failed: bad port"))
            },
            Some(port) => Ok((root, port)),
        }
    }
}

/// The campfire art, pose `k` (of four): sixteen half-rows; `.` is
/// empty, letters pick the colour.
pub open spec fn flame_art(k: int) -> Seq<Seq<char>> {
    if k == 0 {
        seq![
            ".......yY......"@,
            ".......yY......"@,
            ".....yyyyYY...."@,
            ".....yyyyYY...."@,
            "....oooyyYYY..."@,
            "....oooyyYYY..."@,
            "...Rroooooooo.."@,
            "...Rroooooooo.."@,
            "...RRroooooOO.."@,
            "...RRroooooOO.."@,
            ".....RRrooo...."@,
            ".....RRrooo...."@,
            ".....LLLLLL...."@,
            ".....LLLLLL...."@,
            "..DSSSSSSSSD..."@,
            "..DSSSSSSSSD..."@,
        ]
    } else if k == 1 {
        seq![
            "......yY......."@,
            "......yY......."@,
            ".....yYYy....."@,
            ".....yYYy....."@,
            "....oOoyYY...."@,
            "....oOoyYY...."@,
            "...Rroooyy...."@,
            "...Rroooyy...."@,
            "..RRrooooo...."@,
            "..RRrooooo...."@,
            "...RRRooo....."@,
            "...RRRooo....."@,
            ".....LLLLLL...."@,
            ".....LLLLLL...."@,
            "..DSSSSSSSSD..."@,
            "..DSSSSSSSSD..."@,
        ]
    } else if k == 2 {
        seq![
            ".......yY......"@,
            ".......yY......"@,
            "......yyyY....."@,
            "......yyyY....."@,
            ".....yyyYYY...."@,
            ".....yyyYYY...."@,
            "....oooyyYYy..."@,
            "....oooyyYYy..."@,
            "...RroooooYY..."@,
            "...RroooooYY..."@,
            "...RRrooooOO..."@,
            "...RRrooooOO..."@,
            ".....LLLLLL...."@,
            ".....LLLLLL...."@,
            "..DSSSSSSSSD..."@,
            "..DSSSSSSSSD..."@,
        ]
    } else {
        seq![
            ".........yY...."@,
            ".........yY...."@,
            "........yyyYY.."@,
            "........yyyYY.."@,
            "........yYOOo.."@,
            "........yYOOo.."@,
            ".......yYOOooR."@,
            ".......yYOOooR."@,
            ".......OOOOooRR"@,
            ".......OOOOooRR"@,
            "........OOORR.."@,
            "........OOORR.."@,
            ".....LLLLLL...."@,
            ".....LLLLLL...."@,
            "..DSSSSSSSSD..."@,
            "..DSSSSSSSSD..."@,
        ]
    }
}

/// The rows of campfire pose `frame % 4`.
pub fn flame_lines(frame: usize) -> (r: Vec<&'static str>)
    ensures
        r@.map_values(|l: &str| l@) == flame_art((frame % 4) as int),
{
    let k = frame % 4;
    let r: Vec<&'static str> = if k == 0 {
        vec![
            ".......yY......",
            ".......yY......",
            ".....yyyyYY....",
            ".....yyyyYY....",
            "....oooyyYYY...",
            "....oooyyYYY...",
            "...Rroooooooo..",
            "...Rroooooooo..",
            "...RRroooooOO..",
            "...RRroooooOO..",
            ".....RRrooo....",
            ".....RRrooo....",
            ".....LLLLLL....",
            ".....LLLLLL....",
            "..DSSSSSSSSD...",
            "..DSSSSSSSSD...",
        ]
    } else if k == 1 {
        vec![
            "......yY.......",
            "......yY.......",
            ".....yYYy.....",
            ".....yYYy.....",
            "....oOoyYY....",
            "....oOoyYY....",
            "...Rroooyy....",
            "...Rroooyy....",
            "..RRrooooo....",
            "..RRrooooo....",
            "...RRRooo.....",
            "...RRRooo.....",
            ".....LLLLLL....",
            ".....LLLLLL....",
            "..DSSSSSSSSD...",
            "..DSSSSSSSSD...",
        ]
    } else if k == 2 {
        vec![
            ".......yY......",
            ".......yY......",
            "......yyyY.....",
            "......yyyY.....",
            ".....yyyYYY....",
            ".....yyyYYY....",
            "....oooyyYYy...",
            "....oooyyYYy...",
            "...RroooooYY...",
            "...RroooooYY...",
            "...RRrooooOO...",
            "...RRrooooOO...",
            ".....LLLLLL....",
            ".....LLLLLL....",
            "..DSSSSSSSSD...",
            "..DSSSSSSSSD...",
        ]
    } else {
        vec![
            ".........yY....",
            ".........yY....",
            "........yyyYY..",
            "........yyyYY..",
            "........yYOOo..",
            "........yYOOo..",
            ".......yYOOooR.",
            ".......yYOOooR.",
            ".......OOOOooRR",
            ".......OOOOooRR",
            "........OOORR..",
            "........OOORR..",
            ".....LLLLLL....",
            ".....LLLLLL....",
            "..DSSSSSSSSD...",
            "..DSSSSSSSSD...",
        ]
    };
    assert(r@.map_values(|l: &str| l@) =~= flame_art(k as int));
    r
}

/// The most lines the live log panel keeps.
pub const LIVE_LOG_CAP: usize = 200;

/// Live dashboard data, written by the poller and read every frame.
#[derive(Debug)]
pub struct LiveData {
    pub stats: StatsSnapshot,
    pub log: Vec<String>,
}

impl LiveData {
    /// Zero counters and the greeting line.
    pub fn new() -> (r: LiveData)
        ensures
            r.stats == (StatsSnapshot { active: 0, bytes_served: 0, errors: 0 }),
            r.log@.len() == 1,
            r.log@[0]@ == "ready · s start · Tab edit · q quit"@,
    {
        let mut log: Vec<String> = Vec::new();
        log.push(text_of("ready · s start · Tab edit · q quit"));
        LiveData { stats: StatsSnapshot { active: 0, bytes_served: 0, errors: 0 }, log }
    }

    /// Appends a line, keeping only the newest `LIVE_LOG_CAP` lines.
    pub fn push_log(&mut self, line: String)
        ensures
            final(self).log@ == last_n(old(self).log@.push(line), LIVE_LOG_CAP as nat),
            final(self).stats == old(self).stats,
    {
        self.log.push(line);
        let len = self.log.len();
        if len > LIVE_LOG_CAP {
            let start = len - LIVE_LOG_CAP;
            let mut kept: Vec<String> = Vec::new();
            let mut i: usize = start;
            while i < len
                invariant
                    len == self.log@.len(),
                    start <= i <= len,
                    kept@ == self.log@.subrange(start as int, i as int),
                decreases len - i,
            {
                kept.push(self.log[i].clone());
                assert(self.log@.subrange(start as int, i + 1) =~= self.log@.subrange(
                    start as int,
                    i as int,
                ).push(self.log@[i as int]));
                i = i + 1;
            }
            self.log = kept;
        }
    }
}

/// The two lines name the same event: same time stamp, same message.
pub open spec fn same_event(a: LogLine, b: LogLine) -> bool {
    a.ts_ms == b.ts_ms && a.msg@ == b.msg@
}

/// Index of the last line of `s` naming the same event as `l`.
pub open spec fn last_same(s: Seq<LogLine>, l: LogLine) -> Option<int>
    decreases s.len(),
{
    if s.len() == 0 {
        None
    } else if same_event(s.last(), l) {
        Some(s.len() - 1)
    } else {
        last_same(s.drop_last(), l)
    }
}

/// The lines of a fresh poll the dashboard has not shown yet: those after
/// the newest line it already has, or the whole poll when that line is
/// gone (or nothing was polled before).
pub open spec fn fresh_lines(prev: Seq<LogLine>, new: Seq<LogLine>) -> Seq<LogLine> {
    if prev.len() == 0 {
        new
    } else {
        match last_same(new, prev.last()) {
            Some(i) => new.skip(i + 1),
            None => new,
        }
    }
}

fn same_line(a: &LogLine, b: &LogLine) -> (r: bool)
    ensures
        r == same_event(*a, *b),
{
    if a.ts_ms != b.ts_ms {
        return false;
    }
    let x = chars_vec(a.msg.as_str());
    let y = chars_vec(b.msg.as_str());
    crate::text::chars_eq(x.as_slice(), y.as_slice())
}

fn copy_from(s: &[LogLine], from: usize) -> (r: Vec<LogLine>)
    requires
        from <= s@.len(),
    ensures
        r@ == s@.skip(from as int),
{
    let mut out: Vec<LogLine> = Vec::new();
    let mut i: usize = from;
    while i < s.len()
        invariant
            from <= i <= s@.len(),
            out@ == s@.subrange(from as int, i as int),
        decreases s@.len() - i,
    {
        out.push(s[i].duplicate());
        assert(s@.subrange(from as int, i + 1) =~= s@.subrange(from as int, i as int).push(s@[i as int]));
        i = i + 1;
    }
    assert(s@.subrange(from as int, s@.len() as int) =~= s@.skip(from as int));
    out
}

pub fn new_log_lines(prev: &[LogLine], new: &[LogLine]) -> (r: Vec<LogLine>)
    ensures
        r@ == fresh_lines(prev@, new@),
{
    if prev.len() == 0 {
        return copy_from(new, 0);
    }
    let last = &prev[prev.len() - 1];
    let mut i: usize = new.len();
    assert(new@.take(new@.len() as int) =~= new@);
    while i > 0
        invariant
            i <= new@.len(),
            prev@.len() > 0,
            *last == prev@.last(),
            last_same(new@, prev@.last()) == last_same(new@.take(i as int), prev@.last()),
        decreases i,
    {
        assert(new@.take(i as int).drop_last() =~= new@.take(i - 1));
        if same_line(&new[i - 1], last) {
            assert(new@.take(i as int).last() == new@[i - 1]);
            assert(last_same(new@.take(i as int), prev@.last()) == Some((i - 1) as int));
            return copy_from(new, i);
        }
        i = i - 1;
    }
    assert(new@.take(0) =~= Seq::<LogLine>::empty());
    copy_from(new, 0)
}

/// `{:02}` of `n`.
pub open spec fn two_digits(n: nat) -> Seq<char> {
    pad_left(dec_str(n), 2, '0')
}

/// `HH:MM:SS` of the time of day `secs` seconds after midnight (mod one
/// day).
pub open spec fn hms(secs: nat) -> Seq<char> {
    let t = secs % 86400;
    two_digits(t / 3600) + ":"@ + two_digits((t % 3600) / 60) + ":"@ + two_digits(t % 60)
}

fn push_hms(out: &mut String, secs: u64)
    ensures
        final(out)@ == old(out)@ + hms(secs as nat),
{
    let t = secs % 86400;
    push_dec2(out, t / 3600);
    push_str(out, ":");
    push_dec2(out, (t % 3600) / 60);
    push_str(out, ":");
    push_dec2(out, t % 60);
}

/// `HH:MM:SS` of a Unix time (UTC).
pub fn clock_hms(secs: u64) -> (r: String)
    ensures
        r@ == hms(secs as nat),
{
    let mut s = String::new();
    push_hms(&mut s, secs);
    s
}

/// The current UTC time of day as `HH:MM:SS`.
pub fn chrono_like_now() -> (r: String)
    ensures
        exists|secs: nat| r@ == hms(secs),
{
    let now = unix_secs();
    let r = clock_hms(now);
    assert(r@ == hms(now as nat));
    r
}

/// A dashboard log line: `[HH:MM:SS] line`.
pub fn stamped_line(clock: &str, line: &str) -> (r: String)
    ensures
        r@ == "["@ + clock@ + "] "@ + line@,
{
    let mut s = text_of("[");
    push_str(&mut s, clock);
    push_str(&mut s, "] ");
    push_str(&mut s, line);
    s
}

/// `"[HH:MM:SS] level msg"`, the level padded to five characters.
pub fn log_line_string(l: &LogLine) -> (r: String)
    ensures
        r@ == "["@ + hms((l.ts_ms / 1000) as nat) + "] "@ + pad_right(l.level@, 5, ' ') + " "@ + l.msg@,
{
    let mut s = text_of("[");
    push_hms(&mut s, l.ts_ms / 1000);
    push_str(&mut s, "] ");
    push_padded_right(&mut s, l.level.as_str(), 5, ' ');
    push_str(&mut s, " ");
    push_str(&mut s, l.msg.as_str());
    s
}

/// `42s`, `3m07s`, `2h05m`.
pub open spec fn duration_text(s: nat) -> Seq<char> {
    if s < 60 {
        dec_str(s) + "s"@
    } else if s < 3600 {
        dec_str(s / 60) + "m"@ + two_digits(s % 60) + "s"@
    } else {
        dec_str(s / 3600) + "h"@ + two_digits((s % 3600) / 60) + "m"@
    }
}

/// Up-time text of a duration of `secs` whole seconds.
pub fn human_duration(secs: u64) -> (r: String)
    ensures
        r@ == duration_text(secs as nat),
{
    let mut out = String::new();
    if secs < 60 {
        push_dec(&mut out, secs);
        push_str(&mut out, "s");
    } else if secs < 3600 {
        push_dec(&mut out, secs / 60);
        push_str(&mut out, "m");
        push_dec2(&mut out, secs % 60);
        push_str(&mut out, "s");
    } else {
        push_dec(&mut out, secs / 3600);
        push_str(&mut out, "h");
        push_dec2(&mut out, (secs % 3600) / 60);
        push_str(&mut out, "m");
    }
    out
}

// ─── QR code in half-block characters ──────────────────────────────────────

/// `v` clamped to the last index of a sequence of length `len`.
pub open spec fn clamp_index(v: int, len: int) -> int {
    let last = if len > 0 {
        len - 1
    } else {
        0
    };
    if v < last {
        v
    } else {
        last
    }
}

/// The module at (`x`, `y`), both clamped to the grid.
pub open spec fn sample_at(grid: Seq<Vec<bool>>, x: int, y: int) -> bool {
    let yi = clamp_index(y, grid.len() as int);
    let xi = clamp_index(x, grid[0]@.len() as int);
    grid[yi]@[xi]
}

/// Every row is at least as long as the first, which is not empty.
pub open spec fn grid_ok(grid: Seq<Vec<bool>>) -> bool {
    &&& grid.len() > 0
    &&& grid[0]@.len() > 0
    &&& forall|i: int| 0 <= i < grid.len() ==> #[trigger] grid[i]@.len() >= grid[0]@.len()
}

/// Whether the module at (`x`, `y`) is dark, reading past the edge as
/// the edge.
pub fn sample(grid: &[Vec<bool>], x: u32, y: u32) -> (r: bool)
    requires
        grid_ok(grid@),
    ensures
        r == sample_at(grid@, x as int, y as int),
{
    let n0 = grid[0].len();
    let xl = n0 - 1;
    let yl = grid.len() - 1;
    let xi: usize = if (x as u64) < (xl as u64) {
        x as usize
    } else {
        xl
    };
    let yi: usize = if (y as u64) < (yl as u64) {
        y as usize
    } else {
        yl
    };
    assert(grid@[yi as int]@.len() >= n0);
    grid[yi][xi]
}

/// One character cell showing two modules, the upper and the lower.
pub open spec fn half_block(top: bool, bottom: bool) -> char {
    if top && bottom {
        '█'
    } else if top {
        '▀'
    } else if bottom {
        '▄'
    } else {
        ' '
    }
}

/// Distance from `x` to `len`, zero past it.
pub open spec fn gap(len: int, x: int) -> nat {
    if x < len {
        (len - x) as nat
    } else {
        0
    }
}

/// The cells of the screen row showing module rows `y` and `y + s`, from
/// column `x` on in steps of `s`.
pub open spec fn qr_cells(grid: Seq<Vec<bool>>, s: nat, y: int, x: int) -> Seq<char>
    decreases gap(grid.len() as int, x),
{
    if s == 0 || x < 0 || x >= grid.len() {
        Seq::empty()
    } else {
        seq![half_block(sample_at(grid, x, y), sample_at(grid, x, y + s))] + qr_cells(grid, s, y, x + s)
    }
}

/// The screen rows from module row `y` on, each `pad` spaces then its
/// cells; a screen row covers `2 * s` module rows.
pub open spec fn qr_lines(grid: Seq<Vec<bool>>, s: nat, pad: nat, y: int) -> Seq<Seq<char>>
    decreases gap(grid.len() as int, y),
{
    if s == 0 || y < 0 || y >= grid.len() {
        Seq::empty()
    } else {
        seq![Seq::new(pad, |_i: int| ' ') + qr_cells(grid, s, y, 0)] + qr_lines(grid, s, pad, y + 2 * s)
    }
}

pub open spec fn ceil_div(a: int, b: int) -> int {
    (a + b - 1) / b
}

/// Modules per cell so that an `n`-module code fits a panel whose inside
/// is `w` × `h` cells (one cell of margin left and right, one row at the
/// bottom; a cell holds two module rows).
pub open spec fn qr_scale(n: int, w: int, h: int) -> int {
    let aw = if w - 2 > 1 {
        w - 2
    } else {
        1
    };
    let ah = (if h - 1 > 1 {
        h - 1
    } else {
        1
    }) * 2;
    let a = ceil_div(n, aw);
    let b = ceil_div(n, ah);
    let m = if a > b {
        a
    } else {
        b
    };
    if m > 1 {
        m
    } else {
        1
    }
}

/// Left padding that centres `n` modules at `s` per cell in `w` cells.
pub open spec fn qr_pad(n: int, s: int, w: int) -> nat {
    let cw = ceil_div(n, s);
    if w > cw {
        ((w - cw) / 2) as nat
    } else {
        0
    }
}

proof fn lemma_ceil_div_bound(n: int, aw: int, s: int)
    requires
        n >= 1,
        aw >= 1,
        s >= ceil_div(n, aw),
        s >= 1,
    ensures
        ceil_div(n, s) <= aw,
        ceil_div(n, s) >= 1,
{
    assert(ceil_div(n, aw) * aw >= n) by (nonlinear_arith)
        requires
            n >= 1,
            aw >= 1,
    ;
    assert(s * aw >= n) by (nonlinear_arith)
        requires
            s >= ceil_div(n, aw),
            ceil_div(n, aw) * aw >= n,
            aw >= 1,
    ;
    assert((n + s - 1) / s <= aw) by (nonlinear_arith)
        requires
            s * aw >= n,
            s >= 1,
            aw >= 1,
            n >= 1,
    ;
    assert((n + s - 1) / s >= 1) by (nonlinear_arith)
        requires
            n >= 1,
            s >= 1,
    ;
}

fn qr_row(grid: &[Vec<bool>], s: u64, y: u64, pad: u64) -> (r: String)
    requires
        grid_ok(grid@),
        grid@.len() <= u32::MAX,
        s >= 1,
        s <= grid@.len(),
        y < grid@.len(),
    ensures
        r@ == Seq::new(pad as nat, |_i: int| ' ') + qr_cells(grid@, s as nat, y as int, 0),
{
    let n = grid.len() as u64;
    let mut out = String::new();
    let mut k: u64 = 0;
    while k < pad
        invariant
            k <= pad,
            out@ == Seq::new(k as nat, |_i: int| ' '),
        decreases pad - k,
    {
        push_char(&mut out, ' ');
        assert(out@ =~= Seq::new((k + 1) as nat, |_i: int| ' '));
        k = k + 1;
    }
    let ghost head = out@;
    let mut x: u64 = 0;
    while x < n
        invariant
            grid_ok(grid@),
            n == grid@.len(),
            n <= u32::MAX,
            1 <= s <= n,
            y < n,
            x <= 2 * n,
            head == Seq::new(pad as nat, |_i: int| ' '),
            out@ + qr_cells(grid@, s as nat, y as int, x as int) == head + qr_cells(
                grid@,
                s as nat,
                y as int,
                0,
            ),
        decreases 2 * n - x,
    {
        let yb: u64 = y + s;
        let top = sample(grid, x as u32, y as u32);
        let bot = sample(grid, x as u32, if yb <= u32::MAX as u64 {
            yb as u32
        } else {
            u32::MAX
        });
        assert(bot == sample_at(grid@, x as int, y + s));
        let ch = if top && bot {
            '█'
        } else if top {
            '▀'
        } else if bot {
            '▄'
        } else {
            ' '
        };
        let ghost before = out@;
        push_char(&mut out, ch);
        assert(qr_cells(grid@, s as nat, y as int, x as int) == seq![ch] + qr_cells(
            grid@,
            s as nat,
            y as int,
            x + s,
        ));
        assert(out@ + qr_cells(grid@, s as nat, y as int, x + s) =~= before + qr_cells(
            grid@,
            s as nat,
            y as int,
            x as int,
        ));
        x = x + s;
    }
    assert(qr_cells(grid@, s as nat, y as int, x as int) =~= Seq::<char>::empty());
    assert(out@ =~= out@ + qr_cells(grid@, s as nat, y as int, x as int));
    out
}

/// The text rows of a QR code drawn in a panel whose inside is
/// `inner_w` × `inner_h` cells: scaled down until it fits, centred.
/// An empty grid draws nothing.
pub fn qr_text_rows(grid: &[Vec<bool>], inner_w: u16, inner_h: u16) -> (r: Vec<String>)
    requires
        grid@.len() > 0 ==> grid_ok(grid@),
        grid@.len() <= u32::MAX,
    ensures
        grid@.len() == 0 ==> r@.len() == 0,
        grid@.len() > 0 ==> {
            let n = grid@.len() as int;
            let s = qr_scale(n, inner_w as int, inner_h as int);
            r@.map_values(|l: String| l@) == qr_lines(
                grid@,
                s as nat,
                qr_pad(n, s, inner_w as int),
                0,
            )
        },
{
    let mut out: Vec<String> = Vec::new();
    let n = grid.len() as u64;
    if n == 0 {
        return out;
    }
    let w = inner_w as u64;
    let h = inner_h as u64;
    let aw: u64 = if w >= 3 {
        w - 2
    } else {
        1
    };
    let ah: u64 = (if h >= 2 {
        h - 1
    } else {
        1
    }) * 2;
    let a = (n + aw - 1) / aw;
    let b = (n + ah - 1) / ah;
    let m = if a > b {
        a
    } else {
        b
    };
    let s: u64 = if m > 1 {
        m
    } else {
        1
    };
    proof {
        assert(s == qr_scale(n as int, inner_w as int, inner_h as int));
        lemma_ceil_div_bound(n as int, aw as int, s as int);
        assert(a <= n) by (nonlinear_arith)
            requires
                a as int == (n as int + aw as int - 1) / (aw as int),
                aw >= 1,
                n >= 1,
        ;
        assert(b <= n) by (nonlinear_arith)
            requires
                b as int == (n as int + ah as int - 1) / (ah as int),
                ah >= 1,
                n >= 1,
        ;
    }
    let cw: u64 = (n + s - 1) / s;
    let pad: u64 = if w > cw {
        (w - cw) / 2
    } else {
        0
    };
    assert(pad == qr_pad(n as int, s as int, inner_w as int));
    let mut y: u64 = 0;
    while y < n
        invariant
            grid_ok(grid@),
            n == grid@.len(),
            n <= u32::MAX,
            1 <= s <= n,
            y <= 3 * n,
            out@.map_values(|l: String| l@) + qr_lines(grid@, s as nat, pad as nat, y as int)
                == qr_lines(grid@, s as nat, pad as nat, 0),
        decreases 3 * n - y,
    {
        let line = qr_row(grid, s, y, pad);
        let ghost before = out@.map_values(|l: String| l@);
        out.push(line);
        assert(out@.map_values(|l: String| l@) =~= before.push(line@));
        assert(qr_lines(grid@, s as nat, pad as nat, y as int) == seq![line@] + qr_lines(
            grid@,
            s as nat,
            pad as nat,
            y + 2 * s,
        ));
        assert(before.push(line@) + qr_lines(grid@, s as nat, pad as nat, y + 2 * s) =~= before
            + qr_lines(grid@, s as nat, pad as nat, y as int));
        y = y + 2 * s;
    }
    assert(qr_lines(grid@, s as nat, pad as nat, y as int) =~= Seq::<Seq<char>>::empty());
    assert(out@.map_values(|l: String| l@) =~= out@.map_values(|l: String| l@) + qr_lines(
        grid@,
        s as nat,
        pad as nat,
        y as int,
    ));
    out
}

/// In command mode a plain `s` asks for a start whenever no server is
/// running or starting (also after a failed start), and `x` asks for a
/// stop exactly when one is running.
pub proof fn command_keys_start_and_stop(status: Status)
    ensures
        (status == Status::Idle || status == Status::Failed) ==> key_command(
            None,
            status,
            KeyPress { code: KeyCode::Char('s'), ctrl: false, press: true },
        ) == Command::Start,
        (status == Status::Running || status == Status::Starting) ==> key_command(
            None,
            status,
            KeyPress { code: KeyCode::Char('s'), ctrl: false, press: true },
        ) == Command::Nothing,
        key_command(None, status, KeyPress { code: KeyCode::Char('x'), ctrl: false, press: true })
            == (if status == Status::Running {
            Command::Stop
        } else {
            Command::Nothing
        }),
        key_action(None, KeyPress { code: KeyCode::Char('s'), ctrl: false, press: true })
            == KeyAction::Consumed,
{
}

/// `Ctrl+C` and `Ctrl+Q` quit in every mode, and change nothing.
pub proof fn ctrl_c_always_quits(focus: Option<Focus>, status: Status, text: Seq<char>, which: Focus, c: char)
    requires
        c == 'c' || c == 'q',
    ensures
        key_action(focus, KeyPress { code: KeyCode::Char(c), ctrl: true, press: true }) == KeyAction::Quit,
        key_command(focus, status, KeyPress { code: KeyCode::Char(c), ctrl: true, press: true }) == Command::Nothing,
        key_focus(focus, KeyPress { code: KeyCode::Char(c), ctrl: true, press: true }) == focus,
        key_edit(text, which, focus, KeyPress { code: KeyCode::Char(c), ctrl: true, press: true }) == text,
{
}

/// While a field is edited no key starts, stops or quits: letters are
/// typed into the field (digits only into the port).
pub proof fn editing_types_letters(f: Focus, status: Status, text: Seq<char>, c: char)
    ensures
        key_command(Some(f), status, KeyPress { code: KeyCode::Char(c), ctrl: false, press: true })
            == Command::Nothing,
        key_action(Some(f), KeyPress { code: KeyCode::Char(c), ctrl: false, press: true }) != KeyAction::Quit,
        (f != Focus::Port || ascii_digit(c)) ==> key_edit(
            text,
            f,
            Some(f),
            KeyPress { code: KeyCode::Char(c), ctrl: false, press: true },
        ) == text.push(c),
        (f == Focus::Port && !ascii_digit(c)) ==> key_edit(
            text,
            f,
            Some(f),
            KeyPress { code: KeyCode::Char(c), ctrl: false, press: true },
        ) == text,
{
}

/// Moving the focus forward three times, or forward then back, returns to
/// the same field.
pub proof fn focus_cycles(f: Focus)
    ensures
        next_focus_of(next_focus_of(next_focus_of(f))) == f,
        prev_focus_of(next_focus_of(f)) == f,
        next_focus_of(prev_focus_of(f)) == f,
{
}

/// The live log keeps at most `LIVE_LOG_CAP` lines, and the newest one is
/// the line just pushed.
pub proof fn live_log_bounded(log: Seq<String>, line: String)
    ensures
        last_n(log.push(line), LIVE_LOG_CAP as nat).len() <= LIVE_LOG_CAP,
        last_n(log.push(line), LIVE_LOG_CAP as nat).last() == line,
        log.len() < LIVE_LOG_CAP ==> last_n(log.push(line), LIVE_LOG_CAP as nat) == log.push(line),
{
}

/// Polling a log that grew by `extra` after the lines already shown hands
/// over exactly `extra`, provided none of the new lines repeats the last
/// one shown (same time stamp and message).
pub proof fn fresh_lines_after_growth(prev: Seq<LogLine>, older: Seq<LogLine>, extra: Seq<LogLine>)
    requires
        prev.len() > 0,
        forall|i: int| 0 <= i < extra.len() ==> !same_event(#[trigger] extra[i], prev.last()),
    ensures
        fresh_lines(prev, older + seq![prev.last()] + extra) == extra,
{
    let new = older + seq![prev.last()] + extra;
    lemma_last_same_suffix(older + seq![prev.last()], extra, prev.last());
    assert(new.skip(older.len() + 1int) =~= extra);
}

proof fn lemma_last_same_suffix(head: Seq<LogLine>, extra: Seq<LogLine>, l: LogLine)
    requires
        head.len() > 0,
        same_event(head.last(), l),
        forall|i: int| 0 <= i < extra.len() ==> !same_event(#[trigger] extra[i], l),
    ensures
        last_same(head + extra, l) == Some(head.len() - 1),
    decreases extra.len(),
{
    if extra.len() == 0 {
        assert(head + extra =~= head);
    } else {
        let e2 = extra.drop_last();
        assert((head + extra).drop_last() =~= head + e2);
        assert((head + extra).last() == extra.last());
        assert(!same_event(extra[extra.len() - 1], l));
        lemma_last_same_suffix(head, e2, l);
    }
}

} // verus!
