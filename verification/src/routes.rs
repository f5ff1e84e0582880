//! What the HTTP endpoints decide: query defaults and limits, response
//! bodies, conditional and ranged file responses, and the request
//! tracker's bookkeeping. Reading files and speaking HTTP is the caller's
//! part.
use vstd::prelude::*;

use crate::conn::LogLine;
use crate::error::{text_of, QshareError};
use crate::mime::{guessed_mime, mime_for, preview_kind, preview_kind_of};
use crate::num::{dec_str, oct_str, oct_chars, pad_left, pad_left_vec, push_dec};
use crate::range::{is_positive_suffix, range_of, RangeSpec};
use crate::reader::{page_of, paginate, DirListing};
use crate::search::{clamp, clamp_usize};
use crate::text::{
    chars_eq, chars_vec, count_leading, has_prefix_at, push_all, push_str, starts_with,
    string_from_chars, sub_vec, trim_start_char,
};

verus! {

broadcast use vstd::string::group_string_axioms;

// ─── /api/list ─────────────────────────────────────────────────────────────

pub const LIST_DEFAULT_LIMIT: usize = 200;

/// Most entries a listing page holds, and how many a cold read fetches.
pub const LIST_MAX_LIMIT: usize = 1000;

#[derive(Debug)]
pub struct ListQuery {
    /// URL path starting with "/". Empty / "/" means root.
    pub path: String,
    pub sort: Option<String>,
    pub order: Option<String>,
    pub offset: Option<usize>,
    pub limit: Option<usize>,
}

impl ListQuery {
    /// Page size: the `limit` parameter (default 200) within 1..=1000.
    pub fn page_limit(&self) -> (r: usize)
        ensures
            r == clamp(
                match self.limit {
                    Some(v) => v,
                    None => LIST_DEFAULT_LIMIT,
                },
                1,
                LIST_MAX_LIMIT,
            ),
            1 <= r <= LIST_MAX_LIMIT,
    {
        clamp_usize(
            match self.limit {
                Some(v) => v,
                None => LIST_DEFAULT_LIMIT,
            },
            1,
            LIST_MAX_LIMIT,
        )
    }

    /// First entry of the page (default 0).
    pub fn page_offset(&self) -> (r: usize)
        ensures
            r == match self.offset {
                Some(v) => v,
                None => 0,
            },
    {
        match self.offset {
            Some(v) => v,
            None => 0,
        }
    }
}

/// How long a cached listing stays fresh: the configured seconds, at
/// least one, in milliseconds.
pub open spec fn cache_ttl_ms_of(secs: u64) -> int {
    (if secs < 1 {
        1
    } else {
        secs as int
    }) * 1000
}

pub fn cache_ttl_ms(secs: u64) -> (r: u64)
    ensures
        r == if cache_ttl_ms_of(secs) > u64::MAX {
            u64::MAX as int
        } else {
            cache_ttl_ms_of(secs)
        },
{
    let s = if secs < 1 {
        1
    } else {
        secs
    };
    if s > u64::MAX / 1000 {
        u64::MAX
    } else {
        s * 1000
    }
}

/// One page of a full listing: its entries `offset..offset + limit`, with
/// `total` the number of entries of the full listing.
pub fn listing_page(full: &DirListing, offset: usize, limit: usize) -> (r: DirListing)
    ensures
        r.path == full.path,
        r.parent == full.parent,
        r.entries@ == page_of(full.entries@, offset as nat, limit as nat),
        r.total == full.entries@.len(),
{
    let copy = full.duplicate();
    let total = copy.entries.len();
    let entries = paginate(copy.entries, offset, limit);
    DirListing { path: copy.path, parent: copy.parent, entries, total }
}

// ─── /api/log ──────────────────────────────────────────────────────────────

#[derive(Debug)]
pub struct LogQuery {
    pub tail: usize,
}

/// Lines `/api/log` returns when `tail` is not given.
pub fn default_tail() -> (r: usize)
    ensures
        r == 200,
{
    200
}

impl LogQuery {
    /// The query without parameters.
    pub fn new() -> (r: LogQuery)
        ensures
            r.tail == 200,
    {
        LogQuery { tail: default_tail() }
    }

    /// Lines to return: `tail`, at most 1000.
    pub fn lines_wanted(&self) -> (r: usize)
        ensures
            r == if self.tail < 1000 {
                self.tail
            } else {
                1000
            },
    {
        if self.tail < 1000 {
            self.tail
        } else {
            1000
        }
    }
}

/// Body of `/api/log`.
#[derive(Debug)]
pub struct LogResponse {
    pub lines: Vec<LogLine>,
    pub total_cached: usize,
}

// ─── /api/health, /api/whoami ──────────────────────────────────────────────

#[derive(Debug)]
pub struct HealthResponse {
    pub status: &'static str,
    pub uptime_secs: u64,
}

pub fn health_response(uptime_secs: u64) -> (r: HealthResponse)
    ensures
        r.status@ == "ok"@,
        r.uptime_secs == uptime_secs,
{
    HealthResponse { status: "ok", uptime_secs }
}

#[derive(Debug)]
pub struct WhoamiResponse {
    pub version: String,
    pub hostname: String,
    pub client_ip: String,
    pub shared_root: String,
    pub url: String,
}

/// What the configured bind host is.
#[derive(Debug)]
pub enum BindHost {
    /// `0.0.0.0`.
    AnyV4,
    /// `::`.
    AnyV6,
    /// A specific address, as text.
    Addr(String),
}

/// The URL the server announces: the loopback when bound to every
/// interface, else the bound address.
pub open spec fn announced_url(host: BindHost, port: u16) -> Seq<char> {
    let h = match host {
        BindHost::AnyV4 => "127.0.0.1"@,
        BindHost::AnyV6 => "[::1]"@,
        BindHost::Addr(a) => a@,
    };
    "http://"@ + h + ":"@ + dec_str(port as nat)
}

/// The `host:port` text a server binds to, the address written as it
/// prints (an IPv6 address without brackets).
pub fn bind_addr(host: &str, port: u16) -> (r: String)
    ensures
        r@ == host@ + ":"@ + dec_str(port as nat),
{
    let mut s = text_of(host);
    push_str(&mut s, ":");
    push_dec(&mut s, port as u64);
    s
}

pub fn server_url(host: &BindHost, port: u16) -> (r: String)
    ensures
        r@ == announced_url(*host, port),
{
    let mut s = text_of("http://");
    match host {
        BindHost::AnyV4 => push_str(&mut s, "127.0.0.1"),
        BindHost::AnyV6 => push_str(&mut s, "[::1]"),
        BindHost::Addr(a) => push_str(&mut s, a.as_str()),
    }
    push_str(&mut s, ":");
    push_dec(&mut s, port as u64);
    s
}

// ─── /api/stat ─────────────────────────────────────────────────────────────

/// Files up to this size get their MD5 inline in the stat response.
pub const MD5_MAX_BYTES: u64 = 67108864;

#[derive(Debug)]
pub struct StatQuery {
    pub path: String,
}

#[derive(Debug)]
pub struct StatResponse {
    pub path: String,
    pub name: String,
    pub is_dir: bool,
    pub size: u64,
    pub modified: u64,
    /// Unix permission bits as four octal digits (e.g. `"0644"`); empty
    /// where the platform has none.
    pub mode: String,
    pub mime: Option<String>,
    pub etag: String,
    pub previewable: bool,
    /// Hex MD5 of the file, for non-empty files up to `MD5_MAX_BYTES`.
    pub md5: Option<String>,
}

/// Whether the stat response carries an MD5.
pub open spec fn wants_md5(is_dir: bool, size: u64) -> bool {
    !is_dir && size > 0 && size <= MD5_MAX_BYTES
}

pub fn md5_wanted(is_dir: bool, size: u64) -> (r: bool)
    ensures
        r == wants_md5(is_dir, size),
{
    !is_dir && size > 0 && size <= MD5_MAX_BYTES
}

/// `"<size>-<modified>"`, quotes included.
pub open spec fn etag_text(size: u64, modified: u64) -> Seq<char> {
    "\""@ + dec_str(size as nat) + "-"@ + dec_str(modified as nat) + "\""@
}

pub fn etag_of(size: u64, modified: u64) -> (r: String)
    ensures
        r@ == etag_text(size, modified),
{
    let mut s = text_of("\"");
    push_dec(&mut s, size);
    push_str(&mut s, "-");
    push_dec(&mut s, modified);
    push_str(&mut s, "\"");
    s
}

/// `{:04o}` of the permission bits of `mode` (`mode & 0o7777`), or empty.
pub open spec fn mode_text(mode: Option<u32>) -> Seq<char> {
    match mode {
        Some(m) => pad_left(oct_str((m % 4096) as nat), 4, '0'),
        None => Seq::empty(),
    }
}

pub fn mode_string(mode: Option<u32>) -> (r: String)
    ensures
        r@ == mode_text(mode),
{
    match mode {
        Some(m) => {
            let bits = m & 4095;
            assert(m & 4095 == m % 4096) by (bit_vector);
            let d = pad_left_vec(oct_chars(bits as u64), 4, '0');
            let mut s = String::new();
            push_all(&mut s, d.as_slice());
            s
        },
        None => String::new(),
    }
}

/// The stat response of `path`, named `name`, from its metadata
/// (`mode`: the raw Unix mode, if any) and its MD5, if computed.
pub fn stat_response(
    path: String,
    name: String,
    is_dir: bool,
    size: u64,
    modified: u64,
    mode: Option<u32>,
    md5: Option<String>,
) -> (r: StatResponse)
    ensures
        r.path == path,
        r.name == name,
        r.is_dir == is_dir,
        r.size == size,
        r.modified == modified,
        r.mode@ == mode_text(mode),
        is_dir ==> r.mime is None,
        !is_dir ==> (r.mime matches Some(m) && m@ == guessed_mime(name@)),
        r.etag@ == etag_text(size, modified),
        r.previewable == (!is_dir && preview_kind_of(guessed_mime(name@)).previewable()),
        r.md5 == md5,
{
    let mime = if is_dir {
        None
    } else {
        Some(mime_for(name.as_str()))
    };
    let previewable = match &mime {
        Some(m) => preview_kind(m.as_str()).is_previewable(),
        None => false,
    };
    StatResponse {
        path,
        name,
        is_dir,
        size,
        modified,
        mode: mode_string(mode),
        mime,
        etag: etag_of(size, modified),
        previewable,
        md5,
    }
}

// ─── /api/raw ──────────────────────────────────────────────────────────────

#[derive(Debug)]
pub struct RawQuery {
    pub path: String,
}

/// How to answer a file download.
#[derive(Debug)]
pub enum RawPlan {
    /// `304 Not Modified`: the client's copy is current.
    NotModified { etag: String },
    /// `200` (whole file) or `206` (a range): send `length` bytes from
    /// `start`.
    Send {
        status: u16,
        start: u64,
        length: u64,
        mime: String,
        etag: String,
        /// `Content-Range` value of a partial answer.
        content_range: Option<String>,
    },
}

/// `bytes <first>-<last>/<size>`.
pub open spec fn content_range_text(start: u64, length: u64, size: u64) -> Seq<char> {
    "bytes "@ + dec_str(start as nat) + "-"@ + dec_str((start + length - 1) as nat) + "/"@ + dec_str(
        size as nat,
    )
}

/// Plans the answer for a file of `size` bytes modified at `modified`
/// whose path text is `path` (for the MIME guess), given the request's
/// `If-None-Match` and `Range` headers. A directory is refused.
pub fn raw_plan(
    path: &str,
    is_dir: bool,
    size: u64,
    modified: u64,
    if_none_match: Option<&str>,
    range: Option<&str>,
) -> (r: Result<RawPlan, QshareError>)
    requires
        !is_dir ==> (range matches Some(h) ==> (size > 0 || !is_positive_suffix(h@))),
    ensures
        is_dir ==> (r matches Err(QshareError::BadRequest(m)) && m@ == "cannot stream a directory"@),
        !is_dir ==> {
            let etag = etag_text(size, modified);
            if if_none_match matches Some(t) && t@ == etag {
                r matches Ok(RawPlan::NotModified { etag: e }) && e@ == etag
            } else {
                let rs = match range {
                    Some(h) => range_of(h@, size),
                    None => None,
                };
                &&& r matches Ok(RawPlan::Send { status, start, length, mime, etag: e, content_range })
                &&& mime@ == guessed_mime(path@)
                &&& e@ == etag
                &&& match rs {
                    Some(spec) => status == 206 && start == spec.start && length == spec.length
                        && (content_range matches Some(c) && c@ == content_range_text(spec.start, spec.length, size)),
                    None => status == 200 && start == 0 && length == size && content_range is None,
                }
            }
        },
{
    if is_dir {
        return Err(QshareError::BadRequest(text_of("cannot stream a directory")));
    }
    let etag = etag_of(size, modified);
    if let Some(t) = if_none_match {
        let a = chars_vec(t);
        let b = chars_vec(etag.as_str());
        if chars_eq(a.as_slice(), b.as_slice()) {
            return Ok(RawPlan::NotModified { etag });
        }
    }
    let mime = mime_for(path);
    let rs = match range {
        Some(h) => RangeSpec::parse(h, size),
        None => None,
    };
    match rs {
        Some(spec) => {
            proof {
                crate::range::range_within_file(range->0@, size);
            }
            let mut cr = text_of("bytes ");
            push_dec(&mut cr, spec.start);
            push_str(&mut cr, "-");
            push_dec(&mut cr, spec.start + spec.length - 1);
            push_str(&mut cr, "/");
            push_dec(&mut cr, size);
            Ok(
                RawPlan::Send {
                    status: 206,
                    start: spec.start,
                    length: spec.length,
                    mime,
                    etag,
                    content_range: Some(cr),
                },
            )
        },
        None => Ok(
            RawPlan::Send { status: 200, start: 0, length: size, mime, etag, content_range: None },
        ),
    }
}

// ─── Web UI assets ─────────────────────────────────────────────────────────

/// The embedded file a request path names: the path without its leading
/// `/`s, `index.html` for the root; source maps are not shipped.
pub open spec fn asset_name_of(path: Seq<char>) -> Option<Seq<char>> {
    let t = trim_start_char(path, '/');
    if t.len() == 0 {
        Some("index.html"@)
    } else if t.len() >= 4 && t.skip(t.len() - 4) == ".map"@ {
        None
    } else {
        Some(t)
    }
}

pub fn asset_name(path: &str) -> (r: Option<String>)
    ensures
        match asset_name_of(path@) {
            Some(n) => r matches Some(s) && s@ == n,
            None => r is None,
        },
{
    let v = chars_vec(path);
    let lead = count_leading(v.as_slice(), '/');
    let t = sub_vec(v.as_slice(), lead, v.len());
    assert(t@ =~= trim_start_char(path@, '/'));
    let n = t.len();
    if n == 0 {
        return Some(text_of("index.html"));
    }
    if n >= 4 {
        let tail = sub_vec(t.as_slice(), n - 4, n);
        let map = chars_vec(".map");
        assert(tail@ =~= t@.skip(n - 4));
        if chars_eq(tail.as_slice(), map.as_slice()) {
            return None;
        }
    }
    Some(string_from_chars(t.as_slice()))
}

// ─── Request tracking ──────────────────────────────────────────────────────

/// `User-Agent` prefix of the window's own dashboard poller.
pub const GUI_POLL_UA_PREFIX: &'static str = "qshare";

/// The request comes from the window's dashboard poller: its bytes are
/// not counted as served.
pub open spec fn gui_poll(ua: Option<Seq<char>>) -> bool {
    match ua {
        Some(u) => starts_with(u, "qshare"@),
        None => false,
    }
}

pub fn is_gui_poll(ua: Option<&str>) -> (r: bool)
    ensures
        r == gui_poll(match ua {
            Some(u) => Some(u@),
            None => None,
        }),
{
    match ua {
        Some(u) => {
            let v = chars_vec(u);
            let p = chars_vec(GUI_POLL_UA_PREFIX);
            assert(v@.skip(0) =~= v@);
            has_prefix_at(v.as_slice(), 0, p.as_slice())
        },
        None => false,
    }
}

/// A 4xx or 5xx status.
pub open spec fn error_status(code: u16) -> bool {
    400 <= code && code <= 599
}

/// What the tracker logs for a finished request with status `code`: a
/// warning `"<method> <uri> → <code>"` for errors, nothing otherwise.
pub fn request_error_line(method: &str, uri: &str, code: u16) -> (r: Option<String>)
    ensures
        error_status(code) ==> (r matches Some(l) && l@ == method@ + " "@ + uri@ + " → "@ + dec_str(
            code as nat,
        )),
        !error_status(code) ==> r is None,
{
    if 400 <= code && code <= 599 {
        let mut s = text_of(method);
        push_str(&mut s, " ");
        push_str(&mut s, uri);
        push_str(&mut s, " → ");
        push_dec(&mut s, code as u64);
        Some(s)
    } else {
        None
    }
}

} // verus!
