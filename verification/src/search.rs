//! Filename search: query parameters, filters and hit construction.
//!
//! Walking the tree and reading metadata is the caller's part.
use vstd::prelude::*;

use crate::error::{text_of, QshareError};
use vstd::utf8::encode_utf8;

use crate::num::hex_byte;
use crate::reader::{build_entry, lowercase_of, to_lowercase, DirEntry};
use crate::text::{
    ascii_lower_seq, ascii_lower_vec, chars_eq, chars_vec, contains_chars, contains_seq,
    string_from_chars, sub_vec, trim, trim_bounds, trim_start_char, count_leading,
};

verus! {

broadcast use vstd::string::group_string_axioms;

/// Defaults / limits for the search endpoint.
pub const DEFAULT_LIMIT: usize = 100;

pub const DEFAULT_MAX_RESULTS: usize = 500;

pub const DEFAULT_DEPTH: usize = 5;

pub const MAX_DEPTH: usize = 8;

pub const MAX_RESULTS_HARD_CAP: usize = 5000;

/// Cap a single recursive walk at this many seconds.
pub const RECURSIVE_TIMEOUT_SECS: u64 = 8;

#[derive(Debug, Clone, Copy, PartialEq, Eq, Structural)]
pub enum KindFilter {
    Any,
    File,
    Dir,
}

pub open spec fn kind_filter_of(s: Option<Seq<char>>) -> KindFilter {
    match s {
        None => KindFilter::Any,
        Some(t) => {
            let l = ascii_lower_seq(t);
            if l == "file"@ {
                KindFilter::File
            } else if l == "dir"@ || l == "directory"@ {
                KindFilter::Dir
            } else {
                KindFilter::Any
            }
        },
    }
}

/// Reads the `kind` parameter: `file`, `dir` / `directory` (any case), else any.
pub fn parse_kind_filter(s: Option<&str>) -> (r: KindFilter)
    ensures
        r == kind_filter_of(match s {
            None => None,
            Some(t) => Some(t@),
        }),
{
    match s {
        None => KindFilter::Any,
        Some(t) => {
            let l = ascii_lower_vec(chars_vec(t).as_slice());
            if chars_eq(l.as_slice(), chars_vec("file").as_slice()) {
                KindFilter::File
            } else if chars_eq(l.as_slice(), chars_vec("dir").as_slice()) || chars_eq(
                l.as_slice(),
                chars_vec("directory").as_slice(),
            ) {
                KindFilter::Dir
            } else {
                KindFilter::Any
            }
        },
    }
}

pub open spec fn kind_matches(is_dir: bool, kind: KindFilter) -> bool {
    match kind {
        KindFilter::Any => true,
        KindFilter::File => !is_dir,
        KindFilter::Dir => is_dir,
    }
}

pub fn matches_kind(entry: &DirEntry, kind: KindFilter) -> (r: bool)
    ensures
        r == kind_matches(entry.is_dir, kind),
{
    match kind {
        KindFilter::Any => true,
        KindFilter::File => !entry.is_dir,
        KindFilter::Dir => entry.is_dir,
    }
}

pub fn matches_kind_predicate(is_dir: bool, kind: KindFilter) -> (r: bool)
    ensures
        r == kind_matches(is_dir, kind),
{
    match kind {
        KindFilter::Any => true,
        KindFilter::File => !is_dir,
        KindFilter::Dir => is_dir,
    }
}

/// The search needle: the query trimmed and lower-cased.
pub fn search_needle(q: &str) -> (r: String)
    ensures
        r@ == lowercase_of(trim(q@)),
{
    let v = chars_vec(q);
    let (a, b) = trim_bounds(v.as_slice());
    let t = string_from_chars(sub_vec(v.as_slice(), a, b).as_slice());
    to_lowercase(t.as_str())
}

/// Whether a name matches a (lower-cased) needle.
pub open spec fn name_matches(name: Seq<char>, needle: Seq<char>) -> bool {
    contains_seq(lowercase_of(name), needle)
}

pub fn name_contains(name: &str, needle: &str) -> (r: bool)
    ensures
        r == name_matches(name@, needle@),
{
    let l = to_lowercase(name);
    contains_chars(chars_vec(l.as_str()).as_slice(), chars_vec(needle).as_slice())
}

/// `regex::Regex`, a compiled regular expression. Opaque here; it is only
/// built by `compile_pattern` and read by `pattern_finds`.
#[verifier::external_type_specification]
#[verifier::external_body]
pub struct ExRegex(regex::Regex);

/// Whether `pattern` compiles as a case-insensitive regular expression
/// (the `regex` crate's syntax and default size limits).
pub uninterp spec fn regex_compiles(pattern: Seq<char>) -> bool;

/// Whether the case-insensitive regular expression `pattern` matches
/// somewhere in `text`.
pub uninterp spec fn regex_finds(pattern: Seq<char>, text: Seq<char>) -> bool;

/// A compiled name pattern together with its source text.
#[derive(Debug)]
pub struct NamePattern {
    source: String,
    re: regex::Regex,
}

impl NamePattern {
    /// The pattern text the expression was compiled from.
    pub closed spec fn source_text(&self) -> Seq<char> {
        self.source@
    }
}

/// Calls `regex::RegexBuilder::new(pattern).case_insensitive(true).build()`.
/// Whether it compiles depends on the pattern alone and is named
/// `regex_compiles`; the compiled expression is kept with its source.
#[verifier::external_body]
fn compile_pattern(pattern: &str) -> (r: Option<NamePattern>)
    ensures
        r is Some <==> regex_compiles(pattern@),
        r matches Some(p) ==> p.source_text() == pattern@,
{
    match regex::RegexBuilder::new(pattern).case_insensitive(true).build() {
        Ok(re) => Some(NamePattern { source: pattern.to_string(), re }),
        Err(_) => None,
    }
}

/// Calls `Regex::is_match(text)` on the expression compiled from
/// `p`'s source: whether it matches somewhere in `text`, named
/// `regex_finds` of the source and the text.
#[verifier::external_body]
fn pattern_finds(p: &NamePattern, text: &str) -> (r: bool)
    ensures
        r == regex_finds(p.source_text(), text@),
{
    p.re.is_match(text)
}

/// How names are matched: a lower-cased substring, or a regular
/// expression (case-insensitive, matching anywhere in the name).
#[derive(Debug)]
pub enum NameFilter {
    Substring(String),
    Pattern(NamePattern),
}

/// Whether `f` accepts the name `name`.
pub open spec fn filter_matches(f: NameFilter, name: Seq<char>) -> bool {
    match f {
        NameFilter::Substring(needle) => name_matches(name, needle@),
        NameFilter::Pattern(p) => regex_finds(p.source_text(), name),
    }
}

/// Whether `f` accepts the name `name`.
pub fn filter_accepts(f: &NameFilter, name: &str) -> (r: bool)
    ensures
        r == filter_matches(*f, name@),
{
    match f {
        NameFilter::Substring(needle) => name_contains(name, needle.as_str()),
        NameFilter::Pattern(p) => pattern_finds(p, name),
    }
}

/// The name filter of query `q`: with `regex`, the trimmed query compiled
/// as a case-insensitive regular expression (`BadRequest("invalid regex")`
/// when it does not compile); otherwise the search needle.
pub fn name_filter(q: &str, regex: bool) -> (r: Result<NameFilter, QshareError>)
    ensures
        !regex ==> (r matches Ok(NameFilter::Substring(n)) && n@ == lowercase_of(trim(q@))),
        regex ==> (r is Ok <==> regex_compiles(trim(q@))),
        regex ==> (r matches Ok(f) ==> (f matches NameFilter::Pattern(p) && p.source_text() == trim(q@))),
        regex ==> (r matches Err(e) ==> (e matches QshareError::BadRequest(m) && m@ == "invalid regex"@)),
{
    if !regex {
        return Ok(NameFilter::Substring(search_needle(q)));
    }
    let v = chars_vec(q);
    let (a, b) = trim_bounds(v.as_slice());
    let t = string_from_chars(sub_vec(v.as_slice(), a, b).as_slice());
    match compile_pattern(t.as_str()) {
        Some(p) => Ok(NameFilter::Pattern(p)),
        None => Err(QshareError::BadRequest(text_of("invalid regex"))),
    }
}

#[derive(Debug)]
pub struct SearchHit {
    pub entry: DirEntry,
    /// Path of the hit relative to the searched root (e.g. `"summer/photo.jpg"`).
    pub rel_path: String,
    /// Absolute URL path of the directory containing this hit.
    pub parent_dir: String,
    /// 0 for direct children, 1+ for nested hits.
    pub depth: usize,
}

#[derive(Debug)]
pub struct SearchResponse {
    pub query: String,
    pub root: String,
    /// `false` for the single-level mode.
    pub recursive: bool,
    pub total: usize,
    /// True when the walk hit `max_results` before exhausting the tree.
    pub truncated: bool,
    pub results: Vec<SearchHit>,
}

#[derive(Debug)]
pub struct SearchQuery {
    pub q: String,
    pub path: Option<String>,
    pub limit: Option<usize>,
    pub recursive: bool,
    pub depth: Option<usize>,
    pub max_results: Option<usize>,
    pub kind: Option<String>,
    /// Match names with `q` as a regular expression.
    pub regex: bool,
}

pub open spec fn clamp(v: usize, lo: usize, hi: usize) -> usize {
    if v < lo {
        lo
    } else if v > hi {
        hi
    } else {
        v
    }
}

pub fn clamp_usize(v: usize, lo: usize, hi: usize) -> (r: usize)
    requires
        lo <= hi,
    ensures
        r == clamp(v, lo, hi),
{
    if v < lo {
        lo
    } else if v > hi {
        hi
    } else {
        v
    }
}

/// Walk limits of a recursive search: `(depth, max_results, walker_depth)`.
/// The walker counts the root itself, hence `depth + 1`.
pub open spec fn walk_limits_of(depth: Option<usize>, max_results: Option<usize>) -> (usize, usize, usize) {
    let d = clamp(
        match depth {
            Some(v) => v,
            None => DEFAULT_DEPTH,
        },
        1,
        MAX_DEPTH,
    );
    let m = clamp(
        match max_results {
            Some(v) => v,
            None => DEFAULT_MAX_RESULTS,
        },
        1,
        MAX_RESULTS_HARD_CAP,
    );
    (d, m, (d + 1) as usize)
}

impl SearchQuery {
    pub fn walk_limits(&self) -> (r: (usize, usize, usize))
        ensures
            r == walk_limits_of(self.depth, self.max_results),
    {
        let d = clamp_usize(
            match self.depth {
                Some(v) => v,
                None => DEFAULT_DEPTH,
            },
            1,
            MAX_DEPTH,
        );
        let m = clamp_usize(
            match self.max_results {
                Some(v) => v,
                None => DEFAULT_MAX_RESULTS,
            },
            1,
            MAX_RESULTS_HARD_CAP,
        );
        (d, m, d + 1)
    }

    /// Result cap of the single-level mode.
    pub fn shallow_limit(&self) -> (r: usize)
        ensures
            r == match self.limit {
                Some(v) => v,
                None => DEFAULT_LIMIT,
            },
    {
        match self.limit {
            Some(v) => v,
            None => DEFAULT_LIMIT,
        }
    }

    /// The directory searched: the `path` parameter, `/` when absent or empty.
    pub fn search_root(&self) -> (r: String)
        ensures
            match self.path {
                Some(p) => if p@.len() > 0 {
                    r@ == p@
                } else {
                    r@ == seq!['/']
                },
                None => r@ == seq!['/'],
            },
    {
        match &self.path {
            Some(p) => {
                if chars_vec(p.as_str()).len() > 0 {
                    p.clone()
                } else {
                    string_from_chars(&['/'])
                }
            },
            None => string_from_chars(&['/']),
        }
    }
}

/// The answer to an empty query.
pub fn empty_response() -> (r: SearchResponse)
    ensures
        r.query@.len() == 0,
        r.root@.len() == 0,
        !r.recursive,
        r.total == 0,
        !r.truncated,
        r.results@.len() == 0,
{
    SearchResponse {
        query: String::new(),
        root: String::new(),
        recursive: false,
        total: 0,
        truncated: false,
        results: Vec::new(),
    }
}

/// The single-level answer for `url_path`.
pub fn shallow_response(query: String, url_path: &str, hits: Vec<SearchHit>) -> (r: SearchResponse)
    ensures
        r.query == query,
        r.root@ == url_path@,
        !r.recursive,
        r.total == hits@.len(),
        !r.truncated,
        r.results == hits,
{
    let total = hits.len();
    SearchResponse { query, root: text_of(url_path), recursive: false, total, truncated: false, results: hits }
}

/// Gathers the hits of a recursive walk, up to a cap.
pub struct HitCollector {
    hits: Vec<SearchHit>,
    max: usize,
}

impl HitCollector {
    pub closed spec fn view(&self) -> Seq<SearchHit> {
        self.hits@
    }

    pub closed spec fn cap(&self) -> nat {
        self.max as nat
    }

    pub fn new(max_results: usize) -> (r: HitCollector)
        ensures
            r@ == Seq::<SearchHit>::empty(),
            r.cap() == max_results,
    {
        HitCollector { hits: Vec::new(), max: max_results }
    }

    /// More hits are wanted.
    pub fn wants_more(&self) -> (r: bool)
        ensures
            r == (self@.len() < self.cap()),
    {
        self.hits.len() < self.max
    }

    /// Takes the next hit of the walk; says whether more are wanted.
    pub fn offer(&mut self, hit: SearchHit) -> (r: bool)
        requires
            old(self)@.len() < old(self).cap(),
        ensures
            final(self)@ == old(self)@.push(hit),
            final(self).cap() == old(self).cap(),
            r == (final(self)@.len() < final(self).cap()),
    {
        self.hits.push(hit);
        self.hits.len() < self.max
    }

    /// The recursive answer for `root`: truncated when the cap was reached.
    pub fn finish(self, query: String, root: String) -> (r: SearchResponse)
        ensures
            r.query == query,
            r.root == root,
            r.recursive,
            r.total == self@.len(),
            r.truncated == (self@.len() >= self.cap()),
            r.results@ == self@,
    {
        let total = self.hits.len();
        let truncated = total >= self.max;
        SearchResponse { query, root, recursive: true, total, truncated, results: self.hits }
    }
}

/// Entries of a directory that a single-level search keeps.
pub open spec fn shallow_matches(entries: Seq<DirEntry>, filter: NameFilter, kind: KindFilter) -> Seq<DirEntry>
    decreases entries.len(),
{
    if entries.len() == 0 {
        Seq::empty()
    } else {
        let rest = shallow_matches(entries.drop_last(), filter, kind);
        let e = entries.last();
        if kind_matches(e.is_dir, kind) && filter_matches(filter, e.name@) {
            rest.push(e)
        } else {
            rest
        }
    }
}

/// Single-level search over the (sorted) entries of `url_path`: entries of
/// the requested kind whose name `filter` accepts, at most
/// `limit` of them, in order.
pub fn shallow_hits(entries: &Vec<DirEntry>, url_path: &str, filter: &NameFilter, limit: usize, kind: KindFilter) -> (r:
    Vec<SearchHit>)
    ensures
        r@.len() == if shallow_matches(entries@, *filter, kind).len() < limit {
            shallow_matches(entries@, *filter, kind).len()
        } else {
            limit as nat
        },
        forall|i: int|
            0 <= i < r@.len() ==> (#[trigger] r@[i]).entry == shallow_matches(entries@, *filter, kind)[i]
                && r@[i].rel_path@ == r@[i].entry.name@ && r@[i].parent_dir@ == url_path@
                && r@[i].depth == 0,
{
    let mut hits: Vec<SearchHit> = Vec::new();
    let mut i: usize = 0;
    while i < entries.len()
        invariant
            i <= entries@.len(),
            hits@.len() == if shallow_matches(entries@.take(i as int), *filter, kind).len() < limit {
                shallow_matches(entries@.take(i as int), *filter, kind).len()
            } else {
                limit as nat
            },
            forall|t: int|
                0 <= t < hits@.len() ==> (#[trigger] hits@[t]).entry == shallow_matches(entries@.take(i as int), *filter, kind)[t]
                    && hits@[t].rel_path@ == hits@[t].entry.name@ && hits@[t].parent_dir@ == url_path@
                    && hits@[t].depth == 0,
        decreases entries@.len() - i,
    {
        let ghost pre = shallow_matches(entries@.take(i as int), *filter, kind);
        proof {
            assert(entries@.take(i + 1).drop_last() =~= entries@.take(i as int));
            assert(entries@.take(i + 1).last() == entries@[i as int]);
        }
        let e = &entries[i];
        if matches_kind(e, kind) && filter_accepts(filter, e.name.as_str()) {
            if hits.len() < limit {
                let entry = e.duplicate();
                let rel_path = e.name.clone();
                let parent_dir = string_from_chars(chars_vec(url_path).as_slice());
                let ghost before = hits@;
                hits.push(SearchHit { entry, rel_path, parent_dir, depth: 0 });
                proof {
                    assert forall|t: int| 0 <= t < hits@.len() implies (#[trigger] hits@[t]).entry == shallow_matches(entries@.take(i + 1), *filter, kind)[t]
                            && hits@[t].rel_path@ == hits@[t].entry.name@ && hits@[t].parent_dir@ == url_path@
                            && hits@[t].depth == 0 by {
                        if t < before.len() {
                            assert(hits@[t] == before[t]);
                        }
                    }
                }
            }
        }
        i = i + 1;
    }
    assert(entries@.take(entries@.len() as int) =~= entries@);
    hits
}

// ─── Recursive hits ────────────────────────────────────────────────────────
/// Bytes that `NON_ALPHANUMERIC` percent-encoding leaves literal.
pub open spec fn is_ascii_alnum(b: u8) -> bool {
    (65 <= b && b <= 90) || (97 <= b && b <= 122) || (48 <= b && b <= 57)
}

pub open spec fn alnum_encode(bs: Seq<u8>) -> Seq<char>
    decreases bs.len(),
{
    if bs.len() == 0 {
        Seq::empty()
    } else {
        alnum_encode(bs.drop_last()) + if is_ascii_alnum(bs.last()) {
            seq![bs.last() as char]
        } else {
            seq!['%'] + hex_byte(bs.last(), true)
        }
    }
}

/// Calls `percent_encoding::utf8_percent_encode(s, NON_ALPHANUMERIC)`:
/// every UTF-8 byte of `s` that is not an ASCII letter or digit becomes
/// `%XX` (upper-case hex), as the crate's source shows.
#[verifier::external_body]
fn encode_non_alphanumeric(s: &str) -> (r: String)
    ensures
        r@ == alnum_encode(encode_utf8(s@)),
{
    percent_encoding::utf8_percent_encode(s, percent_encoding::NON_ALPHANUMERIC).to_string()
}

/// URL path of a path relative to the share root: `/` followed by its
/// components (each percent-encoded) joined with `/`; `/` for no components.
pub open spec fn rel_url(c: Seq<String>) -> Seq<char>
    decreases c.len(),
{
    if c.len() == 0 {
        seq!['/']
    } else if c.len() == 1 {
        seq!['/'] + alnum_encode(encode_utf8(c[0]@))
    } else {
        rel_url(c.drop_last()) + seq!['/'] + alnum_encode(encode_utf8(c.last()@))
    }
}

pub fn abs_to_url_path(p: &Vec<String>) -> (r: String)
    ensures
        r@ == rel_url(p@),
{
    let mut out = string_from_chars(&['/']);
    let mut i: usize = 0;
    while i < p.len()
        invariant
            i <= p@.len(),
            out@ == rel_url(p@.take(i as int)),
        decreases p@.len() - i,
    {
        if i > 0 {
            crate::text::push_char(&mut out, '/');
        }
        let enc = encode_non_alphanumeric(p[i].as_str());
        crate::text::push_str(&mut out, enc.as_str());
        proof {
            assert(p@.take(i + 1).drop_last() =~= p@.take(i as int));
            assert(p@.take(i + 1).last() == p@[i as int]);
            if i == 0 {
                assert(p@.take(0) =~= Seq::<String>::empty());
            }
            assert(out@ =~= rel_url(p@.take(i + 1)));
        }
        i = i + 1;
    }
    assert(p@.take(p@.len() as int) =~= p@);
    out
}

/// The hit a recursive walk reports for the path `rel` (components below
/// the share root) named `name`, or `None` when the name does not match,
/// the kind is filtered out, or `rel` is the root itself. Size and mtime
/// come from the caller's metadata read.
pub fn walk_hit(rel: &Vec<String>, is_dir: bool, filter: &NameFilter, kind: KindFilter, size: u64, modified: u64) -> (r:
    Option<SearchHit>)
    ensures
        r is Some <==> (rel@.len() > 0 && filter_matches(*filter, rel@.last()@) && kind_matches(is_dir, kind)),
        r matches Some(h) ==> {
            &&& h.entry.path@ == rel_url(rel@)
            &&& h.entry.name == rel@.last()
            &&& h.entry.is_dir == is_dir
            &&& h.entry.size == size
            &&& h.entry.modified == modified
            &&& h.rel_path@ == trim_start_char(rel_url(rel@), '/')
            &&& h.parent_dir@ == rel_url(rel@.drop_last())
            &&& h.depth == rel@.len() - 1
        },
{
    if rel.len() == 0 {
        return None;
    }
    let name = &rel[rel.len() - 1];
    if !filter_accepts(filter, name.as_str()) {
        return None;
    }
    if !matches_kind_predicate(is_dir, kind) {
        return None;
    }
    let url_path = abs_to_url_path(rel);
    let mut parent: Vec<String> = Vec::new();
    let last: usize = rel.len() - 1;
    let mut i: usize = 0;
    while i < last
        invariant
            last + 1 == rel@.len(),
            i <= last,
            parent@ == rel@.take(i as int),
        decreases rel@.len() - i,
    {
        parent.push(rel[i].clone());
        assert(rel@.take(i + 1) =~= rel@.take(i as int).push(rel@[i as int]));
        i = i + 1;
    }
    assert(parent@ =~= rel@.drop_last());
    let parent_url = abs_to_url_path(&parent);
    let uv = chars_vec(url_path.as_str());
    let lead = count_leading(uv.as_slice(), '/');
    let rel_path = string_from_chars(sub_vec(uv.as_slice(), lead, uv.len()).as_slice());
    proof {
        assert(rel_path@ =~= trim_start_char(url_path@, '/'));
    }
    let name_owned = name.clone();
    let mut entry = build_entry("/", name_owned, is_dir, size, modified);
    entry.path = url_path;
    Some(SearchHit { entry, rel_path, parent_dir: parent_url, depth: rel.len() - 1 })
}


/// The kind filter keeps exactly its kind: `dir` only directories, `file`
/// only files, and no filter everything.
pub proof fn kind_filter_keeps_its_kind(is_dir: bool)
    ensures
        kind_matches(is_dir, KindFilter::Dir) <==> is_dir,
        kind_matches(is_dir, KindFilter::File) <==> !is_dir,
        kind_matches(is_dir, KindFilter::Any),
{
}

/// Every entry a single-level search keeps is of the requested kind, has
/// a name the filter accepts, and comes from the listing: under `dir`
/// every hit is a directory, under `file` every hit is a file.
pub proof fn shallow_matches_respect_filters(entries: Seq<DirEntry>, filter: NameFilter, kind: KindFilter)
    ensures
        forall|i: int|
            0 <= i < shallow_matches(entries, filter, kind).len() ==> {
                let e = #[trigger] shallow_matches(entries, filter, kind)[i];
                &&& entries.contains(e)
                &&& filter_matches(filter, e.name@)
                &&& (kind == KindFilter::Dir ==> e.is_dir)
                &&& (kind == KindFilter::File ==> !e.is_dir)
            },
        shallow_matches(entries, filter, kind).len() <= entries.len(),
    decreases entries.len(),
{
    if entries.len() > 0 {
        let d = entries.drop_last();
        shallow_matches_respect_filters(d, filter, kind);
        let rest = shallow_matches(d, filter, kind);
        let out = shallow_matches(entries, filter, kind);
        assert forall|i: int| 0 <= i < out.len() implies {
            let e = #[trigger] out[i];
            &&& entries.contains(e)
            &&& filter_matches(filter, e.name@)
            &&& (kind == KindFilter::Dir ==> e.is_dir)
            &&& (kind == KindFilter::File ==> !e.is_dir)
        } by {
            if i < rest.len() {
                assert(out[i] == rest[i]);
                let e = rest[i];
                let j = choose|j: int| 0 <= j < d.len() && d[j] == e;
                assert(entries[j] == e);
            } else {
                assert(out[i] == entries.last());
                assert(entries[entries.len() - 1] == entries.last());
            }
        }
    }
}

} // verus!
