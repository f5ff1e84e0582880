//! Logic of the desktop window: visual styles, the pixel-art campfire,
//! the interface picker, the labels the panels show, and the window's
//! state machine. Widgets, windows, the clipboard and the server thread
//! belong to the caller.
use vstd::prelude::*;

use crate::conn::{ConnInfo, LogLine};
use crate::error::text_of;
use crate::num::{dec_str, pad_left, parse_u16, parse_u16_spec, push_dec, push_dec2};
use crate::stats::StatsSnapshot;
use crate::text::{
    chars_eq, chars_vec, has_char, has_prefix_at, last_pos, push_all, push_char, push_str, rfind_char, starts_with,
    string_from_chars, sub_vec, trim, trim_string,
};
use crate::tui::two_digits;
use crate::reader::{compare_bytes, lemma_lex_order_props, lex_order};
use vstd::utf8::encode_utf8;

verus! {

broadcast use vstd::string::group_string_axioms;

/// The five colour stories of the window.
#[derive(Clone, Copy, Debug, PartialEq, Eq, Structural)]
pub enum GuiStyle {
    Hacker,
    Tech,
    Retro,
    Anime,
    Mac,
}

impl GuiStyle {
    pub open spec fn name_of(self) -> Seq<char> {
        match self {
            GuiStyle::Hacker => "hacker"@,
            GuiStyle::Tech => "tech"@,
            GuiStyle::Retro => "retro"@,
            GuiStyle::Anime => "anime"@,
            GuiStyle::Mac => "mac"@,
        }
    }

    /// The style after this one, wrapping around.
    pub open spec fn next_of(self) -> GuiStyle {
        match self {
            GuiStyle::Hacker => GuiStyle::Tech,
            GuiStyle::Tech => GuiStyle::Retro,
            GuiStyle::Retro => GuiStyle::Anime,
            GuiStyle::Anime => GuiStyle::Mac,
            GuiStyle::Mac => GuiStyle::Hacker,
        }
    }

    pub fn name(self) -> (r: &'static str)
        ensures
            r@ == self.name_of(),
    {
        match self {
            GuiStyle::Hacker => "hacker",
            GuiStyle::Tech => "tech",
            GuiStyle::Retro => "retro",
            GuiStyle::Anime => "anime",
            GuiStyle::Mac => "mac",
        }
    }

    pub fn next(self) -> (r: GuiStyle)
        ensures
            r == self.next_of(),
    {
        match self {
            GuiStyle::Hacker => GuiStyle::Tech,
            GuiStyle::Tech => GuiStyle::Retro,
            GuiStyle::Retro => GuiStyle::Anime,
            GuiStyle::Anime => GuiStyle::Mac,
            GuiStyle::Mac => GuiStyle::Hacker,
        }
    }
}

// ─── Pixel campfire ────────────────────────────────────────────────────────

/// The logs and stones under the fire, the same in every pose.
pub const CAMPFIRE_BASE: &'static str = "<rect x='5' y='11' width='7' height='1' fill='#6B3410'/><rect x='6' y='12' width='7' height='1' fill='#6B3410'/><rect x='7' y='10' width='2' height='1' fill='#FFEC4A'/><rect x='4' y='13' width='1' height='1' fill='#3F4148'/><rect x='5' y='13' width='6' height='1' fill='#6E7079'/><rect x='11' y='13' width='1' height='1' fill='#3F4148'/><rect x='3' y='14' width='1' height='1' fill='#6E7079'/><rect x='4' y='14' width='8' height='1' fill='#6E7079'/><rect x='12' y='14' width='1' height='1' fill='#3F4148'/><rect x='3' y='15' width='9' height='1' fill='#3F4148'/>";

/// Flame pose 0: neutral, slightly right-leaning.
pub const CAMPFIRE_FLAME_0: &'static str = "<rect x='3' y='9' width='1' height='1' fill='#E63E2A'/><rect x='4' y='8' width='1' height='1' fill='#E63E2A'/><rect x='4' y='9' width='1' height='1' fill='#E63E2A'/><rect x='4' y='10' width='2' height='1' fill='#E63E2A'/><rect x='5' y='6' width='1' height='1' fill='#FF8C2A'/><rect x='5' y='7' width='1' height='1' fill='#FF8C2A'/><rect x='5' y='8' width='1' height='1' fill='#FF8C2A'/><rect x='6' y='8' width='1' height='1' fill='#FF8C2A'/><rect x='7' y='8' width='1' height='1' fill='#FF8C2A'/><rect x='8' y='8' width='1' height='1' fill='#FF8C2A'/><rect x='6' y='9' width='1' height='1' fill='#FF8C2A'/><rect x='7' y='9' width='1' height='1' fill='#FF8C2A'/><rect x='8' y='9' width='1' height='1' fill='#FF8C2A'/><rect x='6' y='10' width='2' height='1' fill='#FF8C2A'/><rect x='7' y='4' width='2' height='1' fill='#FFEC4A'/><rect x='6' y='5' width='4' height='1' fill='#FFEC4A'/><rect x='6' y='6' width='1' height='1' fill='#FFEC4A'/><rect x='7' y='6' width='1' height='1' fill='#FFEC4A'/><rect x='6' y='7' width='4' height='1' fill='#FFEC4A'/><rect x='9' y='8' width='1' height='1' fill='#FFEC4A'/>";

/// Flame pose 1: leaning left.
pub const CAMPFIRE_FLAME_1: &'static str = "<rect x='2' y='9' width='1' height='1' fill='#E63E2A'/><rect x='3' y='8' width='1' height='1' fill='#E63E2A'/><rect x='3' y='9' width='1' height='1' fill='#E63E2A'/><rect x='3' y='10' width='2' height='1' fill='#E63E2A'/><rect x='4' y='6' width='1' height='1' fill='#FF8C2A'/><rect x='4' y='7' width='1' height='1' fill='#FF8C2A'/><rect x='4' y='8' width='1' height='1' fill='#FF8C2A'/><rect x='5' y='8' width='1' height='1' fill='#FF8C2A'/><rect x='6' y='8' width='1' height='1' fill='#FF8C2A'/><rect x='7' y='8' width='1' height='1' fill='#FF8C2A'/><rect x='5' y='9' width='1' height='1' fill='#FF8C2A'/><rect x='6' y='9' width='1' height='1' fill='#FF8C2A'/><rect x='7' y='9' width='1' height='1' fill='#FF8C2A'/><rect x='5' y='10' width='2' height='1' fill='#FF8C2A'/><rect x='5' y='4' width='2' height='1' fill='#FFEC4A'/><rect x='4' y='5' width='4' height='1' fill='#FFEC4A'/><rect x='5' y='6' width='1' height='1' fill='#FFEC4A'/><rect x='6' y='6' width='1' height='1' fill='#FFEC4A'/><rect x='5' y='7' width='4' height='1' fill='#FFEC4A'/><rect x='8' y='8' width='1' height='1' fill='#FFEC4A'/>";

/// Flame pose 2: the tall reach.
pub const CAMPFIRE_FLAME_2: &'static str = "<rect x='4' y='9' width='1' height='1' fill='#E63E2A'/><rect x='5' y='10' width='2' height='1' fill='#E63E2A'/><rect x='4' y='7' width='1' height='1' fill='#FF8C2A'/><rect x='4' y='8' width='1' height='1' fill='#FF8C2A'/><rect x='5' y='8' width='1' height='1' fill='#FF8C2A'/><rect x='6' y='8' width='1' height='1' fill='#FF8C2A'/><rect x='7' y='8' width='1' height='1' fill='#FF8C2A'/><rect x='5' y='9' width='1' height='1' fill='#FF8C2A'/><rect x='6' y='9' width='1' height='1' fill='#FF8C2A'/><rect x='7' y='9' width='1' height='1' fill='#FF8C2A'/><rect x='7' y='3' width='2' height='1' fill='#FFEC4A'/><rect x='6' y='4' width='4' height='1' fill='#FFEC4A'/><rect x='6' y='5' width='4' height='1' fill='#FFEC4A'/><rect x='5' y='6' width='1' height='1' fill='#FFEC4A'/><rect x='6' y='6' width='1' height='1' fill='#FFEC4A'/><rect x='7' y='6' width='1' height='1' fill='#FFEC4A'/><rect x='5' y='7' width='1' height='1' fill='#FFEC4A'/><rect x='6' y='7' width='1' height='1' fill='#FFEC4A'/><rect x='7' y='7' width='1' height='1' fill='#FFEC4A'/><rect x='8' y='7' width='2' height='1' fill='#FFEC4A'/><rect x='8' y='8' width='2' height='1' fill='#FFEC4A'/>";

/// Flame pose 3: leaning right.
pub const CAMPFIRE_FLAME_3: &'static str = "<rect x='11' y='9' width='1' height='1' fill='#E63E2A'/><rect x='10' y='8' width='1' height='1' fill='#E63E2A'/><rect x='10' y='9' width='1' height='1' fill='#E63E2A'/><rect x='9' y='10' width='2' height='1' fill='#E63E2A'/><rect x='10' y='6' width='1' height='1' fill='#FF8C2A'/><rect x='10' y='7' width='1' height='1' fill='#FF8C2A'/><rect x='10' y='8' width='1' height='1' fill='#FF8C2A'/><rect x='9' y='8' width='1' height='1' fill='#FF8C2A'/><rect x='8' y='8' width='1' height='1' fill='#FF8C2A'/><rect x='7' y='8' width='1' height='1' fill='#FF8C2A'/><rect x='9' y='9' width='1' height='1' fill='#FF8C2A'/><rect x='8' y='9' width='1' height='1' fill='#FF8C2A'/><rect x='7' y='9' width='1' height='1' fill='#FF8C2A'/><rect x='8' y='10' width='2' height='1' fill='#FF8C2A'/><rect x='9' y='4' width='2' height='1' fill='#FFEC4A'/><rect x='8' y='5' width='4' height='1' fill='#FFEC4A'/><rect x='9' y='6' width='1' height='1' fill='#FFEC4A'/><rect x='8' y='6' width='1' height='1' fill='#FFEC4A'/><rect x='7' y='7' width='4' height='1' fill='#FFEC4A'/><rect x='6' y='8' width='1' height='1' fill='#FFEC4A'/>";

/// Flame pose `k` (of four).
pub open spec fn flame_pose(k: int) -> Seq<char> {
    if k == 1 {
        CAMPFIRE_FLAME_1@
    } else if k == 2 {
        CAMPFIRE_FLAME_2@
    } else if k == 3 {
        CAMPFIRE_FLAME_3@
    } else {
        CAMPFIRE_FLAME_0@
    }
}

fn flame_for(frame: u32) -> (r: &'static str)
    ensures
        r@ == flame_pose((frame % 4) as int),
{
    let k = frame % 4;
    if k == 1 {
        CAMPFIRE_FLAME_1
    } else if k == 2 {
        CAMPFIRE_FLAME_2
    } else if k == 3 {
        CAMPFIRE_FLAME_3
    } else {
        CAMPFIRE_FLAME_0
    }
}

/// Head of the 16×16 pixel-art SVG.
pub const SVG_HEAD: &'static str = "<svg xmlns='http://www.w3.org/2000/svg' viewBox='0 0 16 16' shape-rendering='crispEdges'>";

/// The text of the campfire SVG at `frame`.
pub open spec fn campfire_text(frame: u32) -> Seq<char> {
    SVG_HEAD@ + CAMPFIRE_BASE@ + flame_pose((frame % 4) as int) + "</svg>"@
}

/// The campfire SVG, pose `frame % 4`.
pub fn campfire(frame: u32) -> (r: String)
    ensures
        r@ == SVG_HEAD@ + CAMPFIRE_BASE@ + flame_pose((frame % 4) as int) + "</svg>"@,
        r@ == campfire_text(frame),
{
    let mut s = text_of(SVG_HEAD);
    push_str(&mut s, CAMPFIRE_BASE);
    push_str(&mut s, flame_for(frame));
    push_str(&mut s, "</svg>");
    s
}

/// Column of spark `i`.
pub open spec fn spark_x(i: int) -> nat {
    if i == 0 {
        4
    } else if i == 1 {
        5
    } else if i == 2 {
        7
    } else if i == 3 {
        8
    } else if i == 4 {
        9
    } else {
        11
    }
}

/// Phase offset of spark `i` within the seven-tick cycle.
pub open spec fn spark_phase(i: int) -> nat {
    if i == 0 {
        0
    } else if i == 1 {
        4
    } else if i == 2 {
        2
    } else if i == 3 {
        6
    } else if i == 4 {
        1
    } else {
        5
    }
}

/// Colour of spark `i`.
pub open spec fn spark_color(i: int) -> Seq<char> {
    if i == 3 {
        "#E63E2A"@
    } else if i == 1 || i == 5 {
        "#FF8C2A"@
    } else {
        "#FFEC4A"@
    }
}

/// Where spark `i` is in its cycle at `tick` (the tick advances modulo
/// 2^32).
pub open spec fn spark_t(tick: u32, i: int) -> nat {
    (((tick + spark_phase(i)) % 0x1_0000_0000) % 7) as nat
}

/// One one-pixel rectangle.
pub open spec fn pixel(x: nat, y: nat, color: Seq<char>) -> Seq<char> {
    "<rect x='"@ + dec_str(x) + "' y='"@ + dec_str(y) + "' width='1' height='1' fill='"@ + color + "'/>"@
}

/// The sparks `i..6` at `tick`: a spark shows during the first three
/// ticks of its cycle, rising from row 2 to row 0.
pub open spec fn sparks_from(tick: u32, i: int) -> Seq<char>
    decreases 6 - i,
{
    if i < 0 || i >= 6 {
        Seq::empty()
    } else {
        spark_at(tick, i) + sparks_from(tick, i + 1)
    }
}

fn spark_params(i: usize) -> (r: (u64, u32, &'static str))
    requires
        i < 6,
    ensures
        r.0 == spark_x(i as int),
        r.1 == spark_phase(i as int),
        r.2@ == spark_color(i as int),
{
    if i == 0 {
        (4, 0, "#FFEC4A")
    } else if i == 1 {
        (5, 4, "#FF8C2A")
    } else if i == 2 {
        (7, 2, "#FFEC4A")
    } else if i == 3 {
        (8, 6, "#E63E2A")
    } else if i == 4 {
        (9, 1, "#FFEC4A")
    } else {
        (11, 5, "#FF8C2A")
    }
}

/// Spark `i` at `tick`, or nothing when it is out of sight.
pub open spec fn spark_at(tick: u32, i: int) -> Seq<char> {
    let t = spark_t(tick, i);
    if t < 3 {
        pixel(spark_x(i), (2 - t) as nat, spark_color(i))
    } else {
        Seq::empty()
    }
}

fn push_spark(out: &mut String, tick: u32, i: usize)
    requires
        i < 6,
    ensures
        final(out)@ == old(out)@ + spark_at(tick, i as int),
{
    let (x, phase, color) = spark_params(i);
    let t = tick.wrapping_add(phase) % 7;
    if t < 3 {
        push_str(out, "<rect x='");
        push_dec(out, x);
        push_str(out, "' y='");
        push_dec(out, (2 - t) as u64);
        push_str(out, "' width='1' height='1' fill='");
        push_str(out, color);
        push_str(out, "'/>");
        assert(final(out)@ =~= old(out)@ + spark_at(tick, i as int));
    } else {
        assert(final(out)@ =~= old(out)@ + spark_at(tick, i as int));
    }
}

/// The drifting sparks over the flame at `tick`.
pub fn sparks_for_tick(tick: u32) -> (r: String)
    ensures
        r@ == sparks_from(tick, 0),
{
    let mut out = String::new();
    let mut i: usize = 0;
    while i < 6
        invariant
            i <= 6,
            out@ + sparks_from(tick, i as int) == sparks_from(tick, 0),
        decreases 6 - i,
    {
        let ghost before = out@;
        push_spark(&mut out, tick, i);
        assert(sparks_from(tick, i as int) == spark_at(tick, i as int) + sparks_from(tick, i + 1));
        assert(out@ + sparks_from(tick, i + 1) =~= before + sparks_from(tick, i as int));
        i = i + 1;
    }
    assert(out@ =~= out@ + sparks_from(tick, 6));
    out
}

/// The text of the idle campfire SVG at `frame`.
pub open spec fn idle_campfire_text(frame: u32) -> Seq<char> {
    SVG_HEAD@ + CAMPFIRE_BASE@ + flame_pose((frame % 4) as int) + sparks_from(frame, 0) + "</svg>"@
}

/// The idle campfire is the campfire of the same frame with the sparks of
/// that tick drawn just before the closing `</svg>`.
pub proof fn idle_campfire_adds_sparks(frame: u32)
    ensures
        campfire_text(frame).len() >= 6,
        idle_campfire_text(frame) == campfire_text(frame).take(campfire_text(frame).len() - 6)
            + sparks_from(frame, 0) + "</svg>"@,
{
    reveal_strlit("</svg>");
    let body = SVG_HEAD@ + CAMPFIRE_BASE@ + flame_pose((frame % 4) as int);
    assert(campfire_text(frame) == body + "</svg>"@);
    assert(campfire_text(frame).take(campfire_text(frame).len() - 6) =~= body);
}

/// The campfire with drifting sparks, pose `frame % 4`, sparks at tick
/// `frame`.
pub fn idle_campfire(frame: u32) -> (r: String)
    ensures
        r@ == SVG_HEAD@ + CAMPFIRE_BASE@ + flame_pose((frame % 4) as int) + sparks_from(frame, 0)
            + "</svg>"@,
        r@ == idle_campfire_text(frame),
{
    let mut s = text_of(SVG_HEAD);
    push_str(&mut s, CAMPFIRE_BASE);
    push_str(&mut s, flame_for(frame));
    let sp = sparks_for_tick(frame);
    push_str(&mut s, sp.as_str());
    push_str(&mut s, "</svg>");
    s
}

// ─── Labels ────────────────────────────────────────────────────────────────

/// The four-character tag of a log level.
pub open spec fn level_tag_of(level: Seq<char>) -> Seq<char> {
    if level == "warn"@ {
        "WARN"@
    } else if level == "error"@ {
        "ERR "@
    } else if level == "debug"@ {
        "DBG "@
    } else if level == "trace"@ {
        "TRC "@
    } else {
        "INFO"@
    }
}

fn str_eq(a: &str, b: &str) -> (r: bool)
    ensures
        r == (a@ == b@),
{
    let x = chars_vec(a);
    let y = chars_vec(b);
    chars_eq(x.as_slice(), y.as_slice())
}

pub fn level_tag(level: &str) -> (r: &'static str)
    ensures
        r@ == level_tag_of(level@),
{
    if str_eq(level, "warn") {
        "WARN"
    } else if str_eq(level, "error") {
        "ERR "
    } else if str_eq(level, "debug") {
        "DBG "
    } else if str_eq(level, "trace") {
        "TRC "
    } else {
        "INFO"
    }
}

/// `HH:MM:SS.mmm` of a millisecond time stamp (UTC time of day).
pub open spec fn ts_text(ts_ms: nat) -> Seq<char> {
    let t = (ts_ms / 1000) % 86400;
    two_digits(t / 3600) + ":"@ + two_digits((t % 3600) / 60) + ":"@ + two_digits(t % 60) + "."@
        + pad_left(dec_str(ts_ms % 1000), 3, '0')
}

pub fn format_ts_ms(ts_ms: u64) -> (r: String)
    ensures
        r@ == ts_text(ts_ms as nat),
{
    let t = (ts_ms / 1000) % 86400;
    let mut s = String::new();
    push_dec2(&mut s, t / 3600);
    push_str(&mut s, ":");
    push_dec2(&mut s, (t % 3600) / 60);
    push_str(&mut s, ":");
    push_dec2(&mut s, t % 60);
    push_str(&mut s, ".");
    let ms = crate::num::pad_left_vec(crate::num::dec_chars(ts_ms % 1000), 3, '0');
    push_all(&mut s, ms.as_slice());
    s
}

/// `s` when it has at most `max` characters, else its first `max - 1`
/// characters and `…`.
pub open spec fn clipped(s: Seq<char>, max: nat) -> Seq<char> {
    if s.len() <= max {
        s
    } else {
        s.take(if max >= 1 {
            max - 1
        } else {
            0
        }).push('…')
    }
}

pub fn truncate_str(s: &str, max: usize) -> (r: String)
    ensures
        r@ == clipped(s@, max as nat),
{
    let v = chars_vec(s);
    if v.len() <= max {
        string_from_chars(v.as_slice())
    } else {
        let k: usize = if max >= 1 {
            max - 1
        } else {
            0
        };
        let head = sub_vec(v.as_slice(), 0, k);
        let mut out = string_from_chars(head.as_slice());
        push_char(&mut out, '…');
        assert(head@ =~= s@.take(k as int));
        out
    }
}

/// `42s`, `3m`, `2h5m`.
pub open spec fn uptime_text(s: nat) -> Seq<char> {
    if s < 60 {
        dec_str(s) + "s"@
    } else if s < 3600 {
        dec_str(s / 60) + "m"@
    } else {
        dec_str(s / 3600) + "h"@ + dec_str((s % 3600) / 60) + "m"@
    }
}

pub fn format_uptime(secs: u64) -> (r: String)
    ensures
        r@ == uptime_text(secs as nat),
{
    let mut s = String::new();
    if secs < 60 {
        push_dec(&mut s, secs);
        push_str(&mut s, "s");
    } else if secs < 3600 {
        push_dec(&mut s, secs / 60);
        push_str(&mut s, "m");
    } else {
        push_dec(&mut s, secs / 3600);
        push_str(&mut s, "h");
        push_dec(&mut s, (secs % 3600) / 60);
        push_str(&mut s, "m");
    }
    s
}

// ─── Interface picker ──────────────────────────────────────────────────────

/// One selectable network interface (IPv4 address as text).
#[derive(Debug, Clone)]
pub struct IpOption {
    pub name: String,
    pub ip: String,
}

pub open spec fn loopback_ip() -> Seq<char> {
    "127.0.0.1"@
}

impl IpOption {
    /// What the picker shows: `"name · ip"`.
    pub fn label(&self) -> (r: String)
        ensures
            r@ == self.name@ + " · "@ + self.ip@,
    {
        let mut s = self.name.clone();
        push_str(&mut s, " · ");
        push_str(&mut s, self.ip.as_str());
        s
    }

    pub fn duplicate(&self) -> (r: IpOption)
        ensures
            r == *self,
    {
        IpOption { name: self.name.clone(), ip: self.ip.clone() }
    }
}

/// Some option carries address `ip`.
pub open spec fn offers(opts: Seq<IpOption>, ip: Seq<char>) -> bool {
    exists|i: int| 0 <= i < opts.len() && #[trigger] opts[i].ip@ == ip
}

/// The address of the first option that is not the loopback.
pub open spec fn first_lan(opts: Seq<IpOption>) -> Option<Seq<char>>
    decreases opts.len(),
{
    if opts.len() == 0 {
        None
    } else if opts[0].ip@ != loopback_ip() {
        Some(opts[0].ip@)
    } else {
        first_lan(opts.drop_first())
    }
}

/// The initial selection: the default-route address `hint` when offered,
/// else the first non-loopback address, else the loopback.
pub open spec fn default_ip_of(opts: Seq<IpOption>, hint: Option<Seq<char>>) -> Seq<char> {
    if hint matches Some(h) && offers(opts, h) {
        hint->0
    } else {
        match first_lan(opts) {
            Some(ip) => ip,
            None => loopback_ip(),
        }
    }
}

fn offers_ip(opts: &Vec<IpOption>, ip: &str) -> (r: bool)
    ensures
        r == offers(opts@, ip@),
{
    let mut i: usize = 0;
    while i < opts.len()
        invariant
            i <= opts@.len(),
            forall|j: int| 0 <= j < i ==> opts@[j].ip@ != ip@,
        decreases opts@.len() - i,
    {
        if str_eq(opts[i].ip.as_str(), ip) {
            return true;
        }
        i = i + 1;
    }
    false
}

pub fn default_ip(options: &Vec<IpOption>, hint: Option<String>) -> (r: String)
    ensures
        r@ == default_ip_of(options@, match hint {
            Some(h) => Some(h@),
            None => None,
        }),
{
    let ghost hv = match hint {
        Some(ref h) => Some(h@),
        None => None,
    };
    if let Some(h) = hint {
        if offers_ip(options, h.as_str()) {
            return h;
        }
    }
    let mut i: usize = 0;
    assert(options@.skip(0) =~= options@);
    while i < options.len()
        invariant
            i <= options@.len(),
            hv is Some ==> !offers(options@, hv->0),
            hv == (match hint {
                Some(h) => Some(h@),
                None => None,
            }),
            first_lan(options@) == first_lan(options@.skip(i as int)),
        decreases options@.len() - i,
    {
        assert(options@.skip(i as int).drop_first() =~= options@.skip(i + 1));
        assert(options@.skip(i as int)[0] == options@[i as int]);
        if !str_eq(options[i].ip.as_str(), "127.0.0.1") {
            return options[i].ip.clone();
        }
        i = i + 1;
    }
    text_of("127.0.0.1")
}

/// The selection after the interface list was refreshed: kept while it
/// is still offered, else chosen afresh.
pub open spec fn refreshed_ip(opts: Seq<IpOption>, prev: Seq<char>, hint: Option<Seq<char>>) -> Seq<char> {
    if offers(opts, prev) {
        prev
    } else {
        default_ip_of(opts, hint)
    }
}

/// Tunnel and virtual interfaces the picker hides.
pub open spec fn noise_interface(name: Seq<char>) -> bool {
    ||| starts_with(name, "utun"@)
    ||| starts_with(name, "awdl"@)
    ||| starts_with(name, "llw"@)
    ||| starts_with(name, "anpi"@)
    ||| starts_with(name, "gif"@)
    ||| starts_with(name, "stf"@)
    ||| starts_with(name, "xnu"@)
    ||| starts_with(name, "p2p"@)
}

fn prefixed(name: &Vec<char>, p: &str) -> (r: bool)
    ensures
        r == starts_with(name@, p@),
{
    let pv = chars_vec(p);
    assert(name@.skip(0) =~= name@);
    has_prefix_at(name.as_slice(), 0, pv.as_slice())
}

pub fn is_noise_interface(name: &str) -> (r: bool)
    ensures
        r == noise_interface(name@),
{
    let v = chars_vec(name);
    prefixed(&v, "utun") || prefixed(&v, "awdl") || prefixed(&v, "llw") || prefixed(&v, "anpi")
        || prefixed(&v, "gif") || prefixed(&v, "stf") || prefixed(&v, "xnu") || prefixed(&v, "p2p")
}

/// Picker order: loopback last, otherwise by interface name (byte order).
pub open spec fn ip_rank(a: IpOption, b: IpOption) -> int {
    let al = a.ip@ == loopback_ip();
    let bl = b.ip@ == loopback_ip();
    if al && !bl {
        1
    } else if !al && bl {
        -1
    } else {
        lex_order(encode_utf8(a.name@), encode_utf8(b.name@))
    }
}

pub open spec fn ip_le(a: IpOption, b: IpOption) -> bool {
    ip_rank(a, b) <= 0
}

proof fn lemma_ip_rank(a: IpOption, b: IpOption, c: IpOption)
    ensures
        ip_rank(b, a) == -ip_rank(a, b),
        ip_le(a, b) && ip_le(b, c) ==> ip_le(a, c),
{
    let (x, y, z) = (encode_utf8(a.name@), encode_utf8(b.name@), encode_utf8(c.name@));
    lemma_lex_order_props(x, y, z);
    lemma_lex_order_props(y, x, z);
    lemma_lex_order_props(x, z, y);
}

fn compare_ip(a: &IpOption, b: &IpOption) -> (r: i8)
    ensures
        r == ip_rank(*a, *b),
{
    let al = str_eq(a.ip.as_str(), "127.0.0.1");
    let bl = str_eq(b.ip.as_str(), "127.0.0.1");
    if al && !bl {
        1
    } else if !al && bl {
        -1
    } else {
        compare_bytes(a.name.as_str().as_bytes(), b.name.as_str().as_bytes())
    }
}

proof fn lemma_insert_multiset(s: Seq<IpOption>, j: int, x: IpOption)
    requires
        0 <= j <= s.len(),
    ensures
        s.insert(j, x).to_multiset() == s.to_multiset().insert(x),
{
    let a = s.subrange(0, j);
    let b = s.subrange(j, s.len() as int);
    assert(s =~= a + b);
    vstd::seq_lib::lemma_multiset_commutative(a, b);
    vstd::seq_lib::lemma_multiset_commutative(a.push(x), b);
    vstd::seq_lib::to_multiset_build(a, x);
    assert(s.insert(j, x) =~= a.push(x) + b);
    assert(s.insert(j, x).to_multiset() =~= s.to_multiset().insert(x));
}

/// `s` with `x` placed right after the last option that strictly
/// precedes it.
pub open spec fn insert_ip_in_order(x: IpOption, s: Seq<IpOption>) -> Seq<IpOption>
    decreases s.len(),
{
    if s.len() == 0 {
        seq![x]
    } else if ip_rank(x, s.last()) > 0 {
        s.push(x)
    } else {
        insert_ip_in_order(x, s.drop_last()).push(s.last())
    }
}

/// The stable picker order of `s`: options that compare equal keep their
/// relative order.
pub open spec fn ip_sort(s: Seq<IpOption>) -> Seq<IpOption>
    decreases s.len(),
{
    if s.len() == 0 {
        s
    } else {
        insert_ip_in_order(s[0], ip_sort(s.drop_first()))
    }
}

proof fn lemma_insert_ip_in_order(x: IpOption, s: Seq<IpOption>, j: int)
    requires
        0 <= j <= s.len(),
        forall|t: int| j <= t < s.len() ==> ip_rank(x, #[trigger] s[t]) <= 0,
        j > 0 ==> ip_rank(x, s[j - 1]) > 0,
    ensures
        insert_ip_in_order(x, s) == s.insert(j, x),
    decreases s.len(),
{
    if s.len() == 0 {
        assert(s.insert(j, x) =~= seq![x]);
    } else if j == s.len() {
        assert(s.insert(j, x) =~= s.push(x));
    } else {
        let t = s.len() - 1;
        assert(ip_rank(x, s[t]) <= 0);
        let d = s.drop_last();
        assert forall|u: int| j <= u < d.len() implies ip_rank(x, #[trigger] d[u]) <= 0 by {
            assert(d[u] == s[u]);
        }
        lemma_insert_ip_in_order(x, d, j);
        assert(d.insert(j, x).push(s.last()) =~= s.insert(j, x));
    }
}

/// Sorts the options into picker order; options that compare equal keep
/// their relative order.
pub fn sort_ip_options(opts: Vec<IpOption>) -> (r: Vec<IpOption>)
    ensures
        r@ == ip_sort(opts@),
        r@.to_multiset() == opts@.to_multiset(),
        forall|p: int, q: int| 0 <= p < q < r@.len() ==> ip_le(#[trigger] r@[p], #[trigger] r@[q]),
{
    let mut src = opts;
    let ghost orig = src@;
    let mut out: Vec<IpOption> = Vec::new();
    proof {
        broadcast use vstd::seq_lib::group_to_multiset_ensures, vstd::multiset::group_multiset_axioms;

        assert(out@.to_multiset() =~= vstd::multiset::Multiset::empty());
        assert(out@.to_multiset().add(src@.to_multiset()) =~= orig.to_multiset());
    }
    proof {
        assert(orig.skip(orig.len() as int) =~= Seq::<IpOption>::empty());
    }
    while src.len() > 0
        invariant
            out@.to_multiset().add(src@.to_multiset()) == orig.to_multiset(),
            forall|p: int, q: int| 0 <= p < q < out@.len() ==> ip_le(#[trigger] out@[p], #[trigger] out@[q]),
            src@ == orig.take(src@.len() as int),
            src@.len() <= orig.len(),
            out@ == ip_sort(orig.skip(src@.len() as int)),
        decreases src@.len(),
    {
        let ghost before = src@;
        let ghost sorted_rest = out@;
        let x = src.pop().unwrap();
        proof {
            assert(before =~= src@.push(x));
            vstd::seq_lib::to_multiset_build(src@, x);
            assert(src@ =~= orig.take(src@.len() as int));
            let n = src@.len() as int;
            assert(orig[n] == before[n]);
            assert(orig.skip(n).drop_first() =~= orig.skip(n + 1));
            assert(orig.skip(n)[0] == x);
            assert(ip_sort(orig.skip(n)) == insert_ip_in_order(x, sorted_rest));
        }
        let mut j: usize = out.len();
        loop
            invariant
                j <= out@.len(),
                forall|t: int| j <= t < out@.len() ==> ip_rank(x, #[trigger] out@[t]) <= 0,
            ensures
                j <= out@.len(),
                forall|t: int| j <= t < out@.len() ==> ip_rank(x, #[trigger] out@[t]) <= 0,
                j > 0 ==> ip_rank(x, out@[j - 1]) > 0,
            decreases j,
        {
            if j == 0 {
                break;
            }
            if compare_ip(&x, &out[j - 1]) > 0 {
                break;
            }
            j = j - 1;
        }
        let ghost old_out = out@;
        out.insert(j, x);
        proof {
            lemma_insert_ip_in_order(x, old_out, j as int);
            old_out.insert_ensures(j as int, x);
            lemma_insert_multiset(old_out, j as int, x);
            assert forall|p: int, q: int| 0 <= p < q < out@.len() implies ip_le(
                #[trigger] out@[p],
                #[trigger] out@[q],
            ) by {
                if q < j {
                } else if q == j {
                    let y = old_out[j - 1];
                    lemma_ip_rank(x, y, x);
                    if p < j - 1 {
                        lemma_ip_rank(old_out[p], y, x);
                    }
                } else if p == j {
                    assert(out@[q] == old_out[q - 1]);
                } else if p < j {
                    assert(out@[q] == old_out[q - 1]);
                } else {
                    assert(out@[p] == old_out[p - 1]);
                    assert(out@[q] == old_out[q - 1]);
                }
            }
        }
    }
    proof {
        broadcast use vstd::seq_lib::group_to_multiset_ensures, vstd::multiset::group_multiset_axioms;

        assert(src@.to_multiset() =~= vstd::multiset::Multiset::empty());
        assert(out@.to_multiset() =~= orig.to_multiset());
        assert(orig.skip(0) =~= orig);
    }
    out
}

/// The options of the interfaces that are not noise, in order.
pub open spec fn shown_interfaces(raw: Seq<IpOption>) -> Seq<IpOption>
    decreases raw.len(),
{
    if raw.len() == 0 {
        Seq::empty()
    } else {
        let rest = shown_interfaces(raw.drop_last());
        if noise_interface(raw.last().name@) {
            rest
        } else {
            rest.push(raw.last())
        }
    }
}

/// The picker's options from the machine's IPv4 interfaces: noise hidden,
/// sorted (loopback last, then by name), and a loopback entry `lo`
/// appended when none is listed.
pub fn ip_options_from(raw: Vec<IpOption>) -> (r: Vec<IpOption>)
    ensures
        offers(shown_interfaces(raw@), loopback_ip()) ==> r@ == ip_sort(shown_interfaces(raw@)),
        offers(shown_interfaces(raw@), loopback_ip()) ==> r@.to_multiset() == shown_interfaces(
            raw@,
        ).to_multiset(),
        !offers(shown_interfaces(raw@), loopback_ip()) ==> {
            &&& r@.len() > 0
            &&& r@.drop_last() == ip_sort(shown_interfaces(raw@))
            &&& r@.drop_last().to_multiset() == shown_interfaces(raw@).to_multiset()
            &&& r@.last().name@ == "lo"@
            &&& r@.last().ip@ == loopback_ip()
        },
        forall|p: int, q: int| 0 <= p < q < r@.len() ==> ip_le(#[trigger] r@[p], #[trigger] r@[q]),
{
    let mut kept: Vec<IpOption> = Vec::new();
    let mut i: usize = 0;
    while i < raw.len()
        invariant
            i <= raw@.len(),
            kept@ == shown_interfaces(raw@.take(i as int)),
        decreases raw@.len() - i,
    {
        assert(raw@.take(i + 1).drop_last() =~= raw@.take(i as int));
        if !is_noise_interface(raw[i].name.as_str()) {
            kept.push(raw[i].duplicate());
        }
        i = i + 1;
    }
    assert(raw@.take(raw@.len() as int) =~= raw@);
    let ghost shown = kept@;
    let has_lo = offers_ip(&kept, "127.0.0.1");
    let mut out = sort_ip_options(kept);
    if !has_lo {
        proof {
            broadcast use vstd::seq_lib::group_to_multiset_ensures;

            assert forall|t: int| 0 <= t < out@.len() implies (#[trigger] out@[t]).ip@ != loopback_ip() by {
                assert(out@.to_multiset().count(out@[t]) > 0);
                assert(shown.to_multiset().count(out@[t]) > 0);
                assert(shown.contains(out@[t]));
            }
        }
        let ghost before = out@;
        out.push(IpOption { name: text_of("lo"), ip: text_of("127.0.0.1") });
        assert(out@.drop_last() =~= before);
        proof {
            assert forall|p: int, q: int| 0 <= p < q < out@.len() implies ip_le(
                #[trigger] out@[p],
                #[trigger] out@[q],
            ) by {
                if q == out@.len() - 1 {
                    assert(out@[p] == before[p]);
                } else {
                    assert(out@[p] == before[p]);
                    assert(out@[q] == before[q]);
                }
            }
        }
    }
    out
}

// ─── URL shown while running ───────────────────────────────────────────────

/// The port of a displayed URL: the text after its last `:` (all of it
/// when there is none).
pub open spec fn url_port(url: Seq<char>) -> Seq<char> {
    if has_char(url, ':') {
        url.skip(last_pos(url, ':') + 1)
    } else {
        url
    }
}

/// The displayed URL rebuilt for address `ip`, same port.
pub open spec fn url_for_ip(url: Seq<char>, ip: Seq<char>) -> Seq<char> {
    "http://"@ + ip + ":"@ + url_port(url)
}

pub fn rebuild_url(url: &str, ip: &str) -> (r: String)
    ensures
        r@ == url_for_ip(url@, ip@),
{
    let v = chars_vec(url);
    let port = match rfind_char(v.as_slice(), ':') {
        Some(k) => {
            assert(crate::text::is_last_pos(v@, ':', k as int));
            assert(k < v@.len());
            assert(v@.len() == v.len());
            sub_vec(v.as_slice(), k + 1, v.len())
        },
        None => v,
    };
    proof {
        if has_char(url@, ':') {
            assert(port@ =~= url_port(url@));
        }
    }
    let mut s = text_of("http://");
    push_str(&mut s, ip);
    push_str(&mut s, ":");
    push_all(&mut s, port.as_slice());
    s
}

// ─── Window state machine ──────────────────────────────────────────────────

/// The server as the window shows it.
#[derive(Debug)]
pub enum ServerStatus {
    Idle,
    Starting,
    /// `url` is what the user sees (LAN address), `poll_url` what the
    /// window polls (loopback).
    Running { url: String, poll_url: String },
    Failed(String),
}

/// What the window holds between frames.
#[derive(Debug)]
pub struct GuiModel {
    pub root_input: String,
    pub port_input: String,
    pub status: ServerStatus,
    /// The URL the QR code encodes; `None` = no code shown.
    pub qr_url: Option<String>,
    pub stats: StatsSnapshot,
    /// Animation tick.
    pub tick: u32,
    /// The floating notice, if any.
    pub toast: Option<String>,
    pub ip_options: Vec<IpOption>,
    pub selected_ip: String,
    pub log_lines: Vec<LogLine>,
    pub connections: Vec<ConnInfo>,
    pub show_connections: bool,
    pub style: GuiStyle,
}

/// Events the window reacts to. Those that need a look at the machine
/// carry what the caller found: whether the root is a directory, the
/// current interfaces and the default-route address.
#[derive(Debug)]
pub enum GuiMsg {
    RootChanged(String),
    PortChanged(String),
    IpSelected(String),
    RefreshIps { options: Vec<IpOption>, hint: Option<String> },
    PickDirectory,
    DirectoryPicked(Option<String>),
    Start { root_is_dir: bool, options: Vec<IpOption>, hint: Option<String> },
    /// The server came up (`url`, `poll_url`) or failed to.
    ServerReady(Result<(String, String), String>),
    Stop,
    CopyUrl,
    DismissError,
    Tick,
    PollStats,
    PollLog,
    PollConns,
    StatsUpdated(Option<StatsSnapshot>),
    LogUpdated(Option<Vec<LogLine>>),
    ConnectionsUpdated(Option<Vec<ConnInfo>>),
    ToggleConnections,
    CloseConnections,
    CycleStyle,
    DismissToast,
}

/// Work the caller does after an update.
#[derive(Debug)]
pub enum GuiEffect {
    Nothing,
    PickDirectory,
    /// Start a server on all interfaces at `port`, advertising
    /// `display_host`.
    StartServer { root: String, port: u16, display_host: String },
    /// Tell the running server to shut down.
    StopServer,
    CopyToClipboard(String),
    PollStats(String),
    PollLog(String),
    PollConns(String),
}

pub open spec fn zero_stats() -> StatsSnapshot {
    StatsSnapshot { active: 0, bytes_served: 0, errors: 0 }
}

/// Why a start is refused, if it is.
pub open spec fn gui_start_refusal(root: Seq<char>, root_is_dir: bool, port: Seq<char>) -> Option<Seq<char>> {
    if trim(root).len() == 0 {
        Some("> ERR: target directory not set"@)
    } else if !root_is_dir {
        Some("> ERR: not a directory: "@ + trim(root))
    } else if parse_u16_spec(trim(port)) is None {
        Some("> ERR: port must be 1-65535"@)
    } else {
        None
    }
}

pub open spec fn opt_view(o: Option<String>) -> Option<Seq<char>> {
    match o {
        Some(s) => Some(s@),
        None => None,
    }
}

/// The model with the displayed URL rebuilt for the selected address,
/// when running.
pub open spec fn rebuilt(m: GuiModel, url2: String) -> bool {
    m.status matches ServerStatus::Running { url, poll_url } ==> url2@ == url_for_ip(url@, m.selected_ip@)
}

/// The URL pair of a server that bound `port` and advertises
/// `display_host`: what the user sees, and the loopback one the window
/// polls.
pub fn server_urls(display_host: &str, port: u16) -> (r: (String, String))
    ensures
        r.0@ == "http://"@ + display_host@ + ":"@ + dec_str(port as nat),
        r.1@ == "http://127.0.0.1:"@ + dec_str(port as nat),
{
    let mut url = text_of("http://");
    push_str(&mut url, display_host);
    push_str(&mut url, ":");
    push_dec(&mut url, port as u64);
    let mut poll = text_of("http://127.0.0.1:");
    push_dec(&mut poll, port as u64);
    (url, poll)
}

/// What a start request does to the window: nothing while a server is
/// starting or running; else a refusal sets `Failed`, and a valid request
/// refreshes the interface list, goes to `Starting` and asks for a server.
pub open spec fn start_outcome(
    old: GuiModel,
    new: GuiModel,
    root_is_dir: bool,
    options: Vec<IpOption>,
    hint: Option<String>,
    r: GuiEffect,
) -> bool {
    if old.live() {
        new == old && r == GuiEffect::Nothing
    } else {
        match gui_start_refusal(old.root_input@, root_is_dir, old.port_input@) {
            Some(msg) => {
                &&& new.status matches ServerStatus::Failed(m) && m@ == msg
                &&& new == (GuiModel { status: new.status, ..old })
                &&& r == GuiEffect::Nothing
            },
            None => {
                &&& new.status is Starting
                &&& new.qr_url is None
                &&& new.ip_options == options
                &&& new.selected_ip@ == refreshed_ip(options@, old.selected_ip@, opt_view(hint))
                &&& new == (GuiModel {
                    status: new.status,
                    qr_url: None,
                    ip_options: new.ip_options,
                    selected_ip: new.selected_ip,
                    ..old
                })
                &&& r matches GuiEffect::StartServer { root, port, display_host } && root@ == trim(
                    old.root_input@,
                ) && Some(port) == parse_u16_spec(trim(old.port_input@)) && display_host == new.selected_ip
            },
        }
    }
}

impl GuiModel {
    /// A fresh, idle window.
    pub fn new(root: String, port: u16, ip_options: Vec<IpOption>, hint: Option<String>) -> (r: GuiModel)
        ensures
            r.root_input == root,
            r.port_input@ == dec_str(port as nat),
            r.status is Idle,
            r.qr_url is None,
            r.stats == zero_stats(),
            r.tick == 0,
            r.toast is None,
            r.ip_options == ip_options,
            r.selected_ip@ == default_ip_of(ip_options@, opt_view(hint)),
            r.log_lines@.len() == 0,
            r.connections@.len() == 0,
            !r.show_connections,
            r.style == GuiStyle::Hacker,
    {
        let selected_ip = default_ip(&ip_options, hint);
        let mut p = String::new();
        push_dec(&mut p, port as u64);
        GuiModel {
            root_input: root,
            port_input: p,
            status: ServerStatus::Idle,
            qr_url: None,
            stats: StatsSnapshot { active: 0, bytes_served: 0, errors: 0 },
            tick: 0,
            toast: None,
            ip_options,
            selected_ip,
            log_lines: Vec::new(),
            connections: Vec::new(),
            show_connections: false,
            style: GuiStyle::Hacker,
        }
    }

    /// A server is starting or running.
    pub open spec fn live(&self) -> bool {
        self.status is Running || self.status is Starting
    }

    pub fn is_running(&self) -> (r: bool)
        ensures
            r == self.live(),
    {
        match self.status {
            ServerStatus::Running { .. } | ServerStatus::Starting => true,
            _ => false,
        }
    }

    pub fn is_actually_running(&self) -> (r: bool)
        ensures
            r == self.status is Running,
    {
        match self.status {
            ServerStatus::Running { .. } => true,
            _ => false,
        }
    }

    /// The poll URL while running.
    fn poll_url(&self) -> (r: Option<String>)
        ensures
            self.status matches ServerStatus::Running { url, poll_url } ==> r == Some(poll_url),
            !(self.status is Running) ==> r is None,
    {
        match &self.status {
            ServerStatus::Running { url: _, poll_url } => Some(poll_url.clone()),
            _ => None,
        }
    }

    /// Re-renders the displayed URL and QR for the selected address, keeping
    /// the bound port and the poll URL; nothing unless running.
    pub fn rebuild_running_url(&mut self)
        ensures
            match old(self).status {
                ServerStatus::Running { url, poll_url } => {
                    &&& final(self).status matches ServerStatus::Running { url: u2, poll_url: p2 }
                        && u2@ == url_for_ip(url@, old(self).selected_ip@) && p2 == poll_url
                    &&& final(self).qr_url matches Some(q) && q@ == url_for_ip(url@, old(self).selected_ip@)
                    &&& final(self).toast matches Some(t) && t@ == "url updated"@
                    &&& *final(self) == (GuiModel {
                        status: final(self).status,
                        qr_url: final(self).qr_url,
                        toast: final(self).toast,
                        ..*old(self)
                    })
                },
                _ => *final(self) == *old(self),
            },
    {
        let current = match &self.status {
            ServerStatus::Running { url, poll_url } => Some((url.clone(), poll_url.clone())),
            _ => None,
        };
        if let Some((url, poll_url)) = current {
            let new_url = rebuild_url(url.as_str(), self.selected_ip.as_str());
            self.qr_url = Some(new_url.clone());
            self.status = ServerStatus::Running { url: new_url, poll_url };
            self.toast = Some(text_of("url updated"));
        }
    }

    /// Takes a fresh interface list; keeps the selection while it is
    /// offered.
    pub fn refresh_ip_options(&mut self, options: Vec<IpOption>, hint: Option<String>)
        ensures
            final(self).ip_options == options,
            final(self).selected_ip@ == refreshed_ip(options@, old(self).selected_ip@, opt_view(hint)),
            offers(options@, old(self).selected_ip@) ==> final(self).selected_ip == old(self).selected_ip,
            *final(self) == (GuiModel {
                ip_options: final(self).ip_options,
                selected_ip: final(self).selected_ip,
                ..*old(self)
            }),
    {
        let still = offers_ip(&options, self.selected_ip.as_str());
        self.ip_options = options;
        if !still {
            self.selected_ip = default_ip(&self.ip_options, hint);
        }
    }

    /// Stops the server as far as the window is concerned: idle, no QR,
    /// no notice, clean dashboard.
    pub fn stop(&mut self)
        ensures
            final(self).status is Idle,
            final(self).qr_url is None,
            final(self).toast is None,
            final(self).stats == zero_stats(),
            final(self).log_lines@.len() == 0,
            final(self).connections@.len() == 0,
            *final(self) == (GuiModel {
                status: final(self).status,
                qr_url: None,
                toast: None,
                stats: zero_stats(),
                log_lines: final(self).log_lines,
                connections: final(self).connections,
                ..*old(self)
            }),
    {
        self.qr_url = None;
        self.status = ServerStatus::Idle;
        self.toast = None;
        self.stats = StatsSnapshot { active: 0, bytes_served: 0, errors: 0 };
        self.log_lines = Vec::new();
        self.connections = Vec::new();
    }

    /// Validates the settings and, unless a server is starting or running,
    /// asks for one.
    pub fn start(&mut self, root_is_dir: bool, options: Vec<IpOption>, hint: Option<String>) -> (r:
        GuiEffect)
        ensures
            start_outcome(*old(self), *final(self), root_is_dir, options, hint, r),
    {
        if self.is_running() {
            return GuiEffect::Nothing;
        }
        let root = trim_string(self.root_input.as_str());
        if chars_vec(root.as_str()).len() == 0 {
            self.status = ServerStatus::Failed(text_of("> ERR: target directory not set"));
            return GuiEffect::Nothing;
        }
        if !root_is_dir {
            let mut m = text_of("> ERR: not a directory: ");
            push_str(&mut m, root.as_str());
            self.status = ServerStatus::Failed(m);
            return GuiEffect::Nothing;
        }
        let p = trim_string(self.port_input.as_str());
        let port = match parse_u16(p.as_str()) {
            Some(n) => n,
            None => {
                self.status = ServerStatus::Failed(text_of("> ERR: port must be 1-65535"));
                return GuiEffect::Nothing;
            },
        };
        self.refresh_ip_options(options, hint);
        let display_host = self.selected_ip.clone();
        self.status = ServerStatus::Starting;
        self.qr_url = None;
        GuiEffect::StartServer { root, port, display_host }
    }
}

impl GuiModel {
    /// Reacts to one event and says what the caller must do.
    pub fn update(&mut self, msg: GuiMsg) -> (r: GuiEffect)
        ensures
            match msg {
                GuiMsg::RootChanged(v) => *final(self) == (GuiModel { root_input: v, ..*old(self) })
                    && r == GuiEffect::Nothing,
                GuiMsg::PortChanged(v) => *final(self) == (GuiModel { port_input: v, ..*old(self) })
                    && r == GuiEffect::Nothing,
                GuiMsg::IpSelected(ip) => r == GuiEffect::Nothing && if old(self).selected_ip@ == ip@ {
                    *final(self) == *old(self)
                } else if old(self).status is Running {
                    old(self).status matches ServerStatus::Running { url, poll_url } && {
                        &&& final(self).status matches ServerStatus::Running { url: u2, poll_url: p2 }
                            && u2@ == url_for_ip(url@, ip@) && p2 == poll_url
                        &&& final(self).qr_url matches Some(q) && q@ == url_for_ip(url@, ip@)
                        &&& final(self).toast matches Some(t) && t@ == "url updated"@
                        &&& *final(self) == (GuiModel {
                            selected_ip: ip,
                            status: final(self).status,
                            qr_url: final(self).qr_url,
                            toast: final(self).toast,
                            ..*old(self)
                        })
                    }
                } else {
                    *final(self) == (GuiModel { selected_ip: ip, ..*old(self) })
                },
                GuiMsg::RefreshIps { options, hint } => {
                    &&& r == GuiEffect::Nothing
                    &&& final(self).ip_options == options
                    &&& final(self).selected_ip@ == refreshed_ip(options@, old(self).selected_ip@, opt_view(hint))
                    &&& if final(self).selected_ip@ != old(self).selected_ip@ && old(self).status is Running {
                        old(self).status matches ServerStatus::Running { url, poll_url } && {
                            &&& final(self).status matches ServerStatus::Running { url: u2, poll_url: p2 }
                                && u2@ == url_for_ip(url@, final(self).selected_ip@) && p2 == poll_url
                            &&& final(self).qr_url matches Some(q) && q@ == url_for_ip(url@, final(self).selected_ip@)
                            &&& final(self).toast matches Some(t) && t@ == "url updated"@
                            &&& *final(self) == (GuiModel {
                                ip_options: final(self).ip_options,
                                selected_ip: final(self).selected_ip,
                                status: final(self).status,
                                qr_url: final(self).qr_url,
                                toast: final(self).toast,
                                ..*old(self)
                            })
                        }
                    } else {
                        *final(self) == (GuiModel {
                            ip_options: final(self).ip_options,
                            selected_ip: final(self).selected_ip,
                            ..*old(self)
                        })
                    }
                },
                GuiMsg::PickDirectory => *final(self) == *old(self) && r == GuiEffect::PickDirectory,
                GuiMsg::DirectoryPicked(Some(path)) => *final(self) == (GuiModel {
                    root_input: path,
                    ..*old(self)
                }) && r == GuiEffect::Nothing,
                GuiMsg::DirectoryPicked(None) => *final(self) == *old(self) && r == GuiEffect::Nothing,
                GuiMsg::Start { root_is_dir, options, hint } => start_outcome(
                    *old(self),
                    *final(self),
                    root_is_dir,
                    options,
                    hint,
                    r,
                ),
                GuiMsg::ServerReady(Ok((url, poll_url))) => {
                    &&& final(self).status == (ServerStatus::Running { url, poll_url })
                    &&& final(self).qr_url == Some(url)
                    &&& final(self).stats == zero_stats()
                    &&& final(self).toast matches Some(t) && t@ == "server up"@
                    &&& *final(self) == (GuiModel {
                        status: final(self).status,
                        qr_url: final(self).qr_url,
                        stats: zero_stats(),
                        toast: final(self).toast,
                        ..*old(self)
                    })
                    &&& r == GuiEffect::Nothing
                },
                GuiMsg::ServerReady(Err(e)) => *final(self) == (GuiModel {
                    status: ServerStatus::Failed(e),
                    ..*old(self)
                }) && r == GuiEffect::Nothing,
                GuiMsg::Stop => {
                    &&& final(self).status is Idle
                    &&& final(self).qr_url is None
                    &&& final(self).stats == zero_stats()
                    &&& final(self).log_lines@.len() == 0
                    &&& final(self).connections@.len() == 0
                    &&& final(self).toast matches Some(t) && t@ == "server stopped"@
                    &&& *final(self) == (GuiModel {
                        status: final(self).status,
                        qr_url: None,
                        toast: final(self).toast,
                        stats: zero_stats(),
                        log_lines: final(self).log_lines,
                        connections: final(self).connections,
                        ..*old(self)
                    })
                    &&& r == GuiEffect::StopServer
                },
                GuiMsg::CopyUrl => match old(self).status {
                    ServerStatus::Running { url, poll_url } => {
                        &&& r == GuiEffect::CopyToClipboard(url)
                        &&& final(self).toast matches Some(t) && t@ == "url copied"@
                        &&& *final(self) == (GuiModel { toast: final(self).toast, ..*old(self) })
                    },
                    _ => *final(self) == *old(self) && r == GuiEffect::Nothing,
                },
                GuiMsg::DismissError => *final(self) == (GuiModel {
                    status: ServerStatus::Idle,
                    ..*old(self)
                }) && r == GuiEffect::Nothing,
                GuiMsg::Tick => *final(self) == (GuiModel {
                    tick: (if old(self).tick == u32::MAX {
                        0
                    } else {
                        (old(self).tick + 1) as u32
                    }),
                    ..*old(self)
                }) && r == GuiEffect::Nothing,
                GuiMsg::PollStats => *final(self) == *old(self) && match old(self).status {
                    ServerStatus::Running { url, poll_url } => r == GuiEffect::PollStats(poll_url),
                    _ => r == GuiEffect::Nothing,
                },
                GuiMsg::PollLog => *final(self) == *old(self) && match old(self).status {
                    ServerStatus::Running { url, poll_url } => r == GuiEffect::PollLog(poll_url),
                    _ => r == GuiEffect::Nothing,
                },
                GuiMsg::PollConns => *final(self) == *old(self) && match old(self).status {
                    ServerStatus::Running { url, poll_url } => r == GuiEffect::PollConns(poll_url),
                    _ => r == GuiEffect::Nothing,
                },
                GuiMsg::StatsUpdated(Some(snap)) => r == GuiEffect::Nothing && if old(self).status is Running {
                    *final(self) == (GuiModel { stats: snap, ..*old(self) })
                } else {
                    *final(self) == *old(self)
                },
                GuiMsg::StatsUpdated(None) => *final(self) == *old(self) && r == GuiEffect::Nothing,
                GuiMsg::LogUpdated(Some(lines)) => r == GuiEffect::Nothing && if old(self).status is Running {
                    *final(self) == (GuiModel { log_lines: lines, ..*old(self) })
                } else {
                    *final(self) == *old(self)
                },
                GuiMsg::LogUpdated(None) => *final(self) == *old(self) && r == GuiEffect::Nothing,
                GuiMsg::ConnectionsUpdated(Some(conns)) => r == GuiEffect::Nothing && if old(self).status is Running {
                    *final(self) == (GuiModel { connections: conns, ..*old(self) })
                } else {
                    *final(self) == *old(self)
                },
                GuiMsg::ConnectionsUpdated(None) => *final(self) == *old(self) && r == GuiEffect::Nothing,
                GuiMsg::ToggleConnections => *final(self) == (GuiModel {
                    show_connections: !old(self).show_connections,
                    ..*old(self)
                }) && r == GuiEffect::Nothing,
                GuiMsg::CloseConnections => *final(self) == (GuiModel {
                    show_connections: false,
                    ..*old(self)
                }) && r == GuiEffect::Nothing,
                GuiMsg::CycleStyle => r == GuiEffect::Nothing && match old(self).status {
                    ServerStatus::Running { url, poll_url } => *final(self) == (GuiModel {
                        style: old(self).style.next_of(),
                        qr_url: Some(url),
                        ..*old(self)
                    }),
                    _ => *final(self) == (GuiModel { style: old(self).style.next_of(), ..*old(self) }),
                },
                GuiMsg::DismissToast => *final(self) == (GuiModel { toast: None, ..*old(self) }) && r
                    == GuiEffect::Nothing,
            },
    {
        match msg {
            GuiMsg::RootChanged(v) => {
                self.root_input = v;
                GuiEffect::Nothing
            },
            GuiMsg::PortChanged(v) => {
                self.port_input = v;
                GuiEffect::Nothing
            },
            GuiMsg::IpSelected(ip) => {
                if !str_eq(self.selected_ip.as_str(), ip.as_str()) {
                    self.selected_ip = ip;
                    self.rebuild_running_url();
                }
                GuiEffect::Nothing
            },
            GuiMsg::RefreshIps { options, hint } => {
                let prev = self.selected_ip.clone();
                self.refresh_ip_options(options, hint);
                if !str_eq(self.selected_ip.as_str(), prev.as_str()) {
                    self.rebuild_running_url();
                }
                GuiEffect::Nothing
            },
            GuiMsg::PickDirectory => GuiEffect::PickDirectory,
            GuiMsg::DirectoryPicked(Some(path)) => {
                self.root_input = path;
                GuiEffect::Nothing
            },
            GuiMsg::DirectoryPicked(None) => GuiEffect::Nothing,
            GuiMsg::Start { root_is_dir, options, hint } => self.start(root_is_dir, options, hint),
            GuiMsg::ServerReady(Ok((url, poll_url))) => {
                self.qr_url = Some(url.clone());
                self.status = ServerStatus::Running { url, poll_url };
                self.stats = StatsSnapshot { active: 0, bytes_served: 0, errors: 0 };
                self.toast = Some(text_of("server up"));
                GuiEffect::Nothing
            },
            GuiMsg::ServerReady(Err(e)) => {
                self.status = ServerStatus::Failed(e);
                GuiEffect::Nothing
            },
            GuiMsg::Stop => {
                self.stop();
                self.toast = Some(text_of("server stopped"));
                GuiEffect::StopServer
            },
            GuiMsg::CopyUrl => {
                let url = match &self.status {
                    ServerStatus::Running { url, poll_url: _ } => Some(url.clone()),
                    _ => None,
                };
                match url {
                    Some(u) => {
                        self.toast = Some(text_of("url copied"));
                        GuiEffect::CopyToClipboard(u)
                    },
                    None => GuiEffect::Nothing,
                }
            },
            GuiMsg::DismissError => {
                self.status = ServerStatus::Idle;
                GuiEffect::Nothing
            },
            GuiMsg::Tick => {
                self.tick = self.tick.wrapping_add(1);
                GuiEffect::Nothing
            },
            GuiMsg::PollStats => match self.poll_url() {
                Some(u) => GuiEffect::PollStats(u),
                None => GuiEffect::Nothing,
            },
            GuiMsg::PollLog => match self.poll_url() {
                Some(u) => GuiEffect::PollLog(u),
                None => GuiEffect::Nothing,
            },
            GuiMsg::PollConns => match self.poll_url() {
                Some(u) => GuiEffect::PollConns(u),
                None => GuiEffect::Nothing,
            },
            GuiMsg::StatsUpdated(Some(snap)) => {
                if self.is_actually_running() {
                    self.stats = snap;
                }
                GuiEffect::Nothing
            },
            GuiMsg::StatsUpdated(None) => GuiEffect::Nothing,
            GuiMsg::LogUpdated(Some(lines)) => {
                if self.is_actually_running() {
                    self.log_lines = lines;
                }
                GuiEffect::Nothing
            },
            GuiMsg::LogUpdated(None) => GuiEffect::Nothing,
            GuiMsg::ConnectionsUpdated(Some(conns)) => {
                if self.is_actually_running() {
                    self.connections = conns;
                }
                GuiEffect::Nothing
            },
            GuiMsg::ConnectionsUpdated(None) => GuiEffect::Nothing,
            GuiMsg::ToggleConnections => {
                self.show_connections = !self.show_connections;
                GuiEffect::Nothing
            },
            GuiMsg::CloseConnections => {
                self.show_connections = false;
                GuiEffect::Nothing
            },
            GuiMsg::CycleStyle => {
                self.style = self.style.next();
                let url = match &self.status {
                    ServerStatus::Running { url, poll_url: _ } => Some(url.clone()),
                    _ => None,
                };
                if let Some(u) = url {
                    self.qr_url = Some(u);
                }
                GuiEffect::Nothing
            },
            GuiMsg::DismissToast => {
                self.toast = None;
                GuiEffect::Nothing
            },
        }
    }
}

/// Cycling the style visits all five and comes back to the start.
pub proof fn style_cycle(s: GuiStyle)
    ensures
        s.next_of().next_of().next_of().next_of().next_of() == s,
        s.next_of() != s,
        s.next_of().name_of() != s.name_of(),
{
    reveal_strlit("hacker");
    reveal_strlit("tech");
    reveal_strlit("retro");
    reveal_strlit("anime");
    reveal_strlit("mac");
    match s {
        GuiStyle::Hacker => assert("hacker"@.len() != "tech"@.len()),
        GuiStyle::Tech => assert("tech"@.len() != "retro"@.len()),
        GuiStyle::Retro => assert("retro"@[0] != "anime"@[0]),
        GuiStyle::Anime => assert("anime"@.len() != "mac"@.len()),
        GuiStyle::Mac => assert("mac"@.len() != "hacker"@.len()),
    }
}

} // verus!
