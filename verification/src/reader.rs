//! Directory listings: entry records, URL paths, ordering and paging.
//!
//! Reading a directory is I/O and stays with the caller; everything that is
//! decided about the entries once they are read lives here.
use vstd::prelude::*;
use vstd::relations::sorted_by;
use vstd::utf8::encode_utf8;

use crate::mime::{guessed_mime, mime_for, preview_kind, preview_kind_of};
use crate::num::hex_byte;
use crate::num::hex_digit_char;
use crate::text::{
    ascii_lower_seq, ascii_lower_vec, chars_eq, chars_vec, has_char, is_last_pos, last_pos,
    lemma_last_pos_unique, len_without_trailing, push_all, push_char, rfind_char,
    string_from_chars, sub_vec, trail_count, trim_end_char,
};

verus! {

broadcast use vstd::string::group_string_axioms;

#[derive(Debug, Clone, Copy, PartialEq, Eq, Structural)]
pub enum SortKey {
    Name,
    Size,
    Modified,
}

impl SortKey {
    pub open spec fn of(s: Seq<char>) -> SortKey {
        if s == "size"@ {
            SortKey::Size
        } else if s == "modified"@ || s == "mtime"@ {
            SortKey::Modified
        } else {
            SortKey::Name
        }
    }

    pub fn parse(s: &str) -> (r: SortKey)
        ensures
            r == SortKey::of(s@),
    {
        let v = chars_vec(s);
        let size = chars_vec("size");
        let modified = chars_vec("modified");
        let mtime = chars_vec("mtime");
        if chars_eq(v.as_slice(), size.as_slice()) {
            SortKey::Size
        } else if chars_eq(v.as_slice(), modified.as_slice()) || chars_eq(
            v.as_slice(),
            mtime.as_slice(),
        ) {
            SortKey::Modified
        } else {
            SortKey::Name
        }
    }
}

#[derive(Debug, Clone, Copy, PartialEq, Eq, Structural)]
pub enum SortOrder {
    Asc,
    Desc,
}

impl SortOrder {
    pub open spec fn of(s: Seq<char>) -> SortOrder {
        let l = ascii_lower_seq(s);
        if l == "desc"@ || l == "descending"@ {
            SortOrder::Desc
        } else {
            SortOrder::Asc
        }
    }

    pub fn parse(s: &str) -> (r: SortOrder)
        ensures
            r == SortOrder::of(s@),
    {
        let v = chars_vec(s);
        let l = ascii_lower_vec(v.as_slice());
        let desc = chars_vec("desc");
        let descending = chars_vec("descending");
        if chars_eq(l.as_slice(), desc.as_slice()) || chars_eq(
            l.as_slice(),
            descending.as_slice(),
        ) {
            SortOrder::Desc
        } else {
            SortOrder::Asc
        }
    }
}

#[derive(Debug, Clone)]
pub struct DirEntry {
    pub name: String,
    /// URL path relative to shared root
    pub path: String,
    pub is_dir: bool,
    pub size: u64,
    pub modified: u64,
    pub mime: Option<String>,
    /// Whether the entry can be rendered inline by the frontend
    /// (image / video / audio / pdf / text). Lets the grid view
    /// decide whether to show a thumbnail or a generic icon.
    pub previewable: bool,
}

impl DirEntry {
    /// A field-by-field copy.
    pub fn duplicate(&self) -> (r: DirEntry)
        ensures
            r == *self,
    {
        let mime = match &self.mime {
            Some(m) => Some(m.clone()),
            None => None,
        };
        DirEntry {
            name: self.name.clone(),
            path: self.path.clone(),
            is_dir: self.is_dir,
            size: self.size,
            modified: self.modified,
            mime,
            previewable: self.previewable,
        }
    }
}

/// A copy of every entry, in order.
pub fn duplicate_entries(v: &Vec<DirEntry>) -> (r: Vec<DirEntry>)
    ensures
        r@ == v@,
{
    let mut out: Vec<DirEntry> = Vec::new();
    let mut i: usize = 0;
    while i < v.len()
        invariant
            i <= v@.len(),
            out@ == v@.take(i as int),
        decreases v@.len() - i,
    {
        out.push(v[i].duplicate());
        assert(v@.take(i + 1) =~= v@.take(i as int).push(v@[i as int]));
        i = i + 1;
    }
    assert(v@.take(v@.len() as int) =~= v@);
    out
}

#[derive(Debug, Clone)]
pub struct DirListing {
    pub path: String,
    pub parent: Option<String>,
    pub entries: Vec<DirEntry>,
    pub total: usize,
}

impl DirListing {
    /// A deep copy.
    pub fn duplicate(&self) -> (r: DirListing)
        ensures
            r.path == self.path,
            r.parent == self.parent,
            r.entries@ == self.entries@,
            r.total == self.total,
    {
        let parent = match &self.parent {
            Some(p) => Some(p.clone()),
            None => None,
        };
        DirListing {
            path: self.path.clone(),
            parent,
            entries: duplicate_entries(&self.entries),
            total: self.total,
        }
    }
}

// ─── URL path helpers ──────────────────────────────────────────────────────
/// Bytes that stay literal in a URL path segment.
pub open spec fn is_unreserved(b: u8) -> bool {
    ||| (65 <= b && b <= 90)
    ||| (97 <= b && b <= 122)
    ||| (48 <= b && b <= 57)
    ||| b == 45
    ||| b == 46
    ||| b == 95
    ||| b == 126
}

/// One byte of a URL path segment: itself when unreserved, else `%XX`.
pub open spec fn encode_byte(b: u8) -> Seq<char> {
    if is_unreserved(b) {
        seq![b as char]
    } else {
        seq!['%'] + hex_byte(b, true)
    }
}

pub open spec fn encode_bytes(bs: Seq<u8>) -> Seq<char>
    decreases bs.len(),
{
    if bs.len() == 0 {
        Seq::empty()
    } else {
        encode_bytes(bs.drop_last()) + encode_byte(bs.last())
    }
}

/// Percent-encoding of the UTF-8 bytes of `s`.
pub open spec fn url_encode(s: Seq<char>) -> Seq<char> {
    encode_bytes(encode_utf8(s))
}

/// Appends the encoding of `bs` to `out`.
pub(crate) fn push_encoded_bytes(out: &mut String, bs: &[u8])
    ensures
        final(out)@ == old(out)@ + encode_bytes(bs@),
{
    let mut i: usize = 0;
    while i < bs.len()
        invariant
            i <= bs@.len(),
            out@ == old(out)@ + encode_bytes(bs@.take(i as int)),
        decreases bs@.len() - i,
    {
        let b = bs[i];
        proof {
            assert(bs@.take(i + 1).drop_last() =~= bs@.take(i as int));
            assert(bs@.take(i + 1).last() == b);
        }
        if (65 <= b && b <= 90) || (97 <= b && b <= 122) || (48 <= b && b <= 57) || b == 45 || b
            == 46 || b == 95 || b == 126 {
            push_char(out, b as char);
            assert(out@ =~= old(out)@ + encode_bytes(bs@.take(i + 1)));
        } else {
            push_char(out, '%');
            push_char(out, hex_digit_char(b / 16, true));
            push_char(out, hex_digit_char(b % 16, true));
            assert(out@ =~= old(out)@ + encode_bytes(bs@.take(i + 1)));
        }
        i = i + 1;
    }
    assert(bs@.take(bs@.len() as int) =~= bs@);
}

/// Percent-encodes a single path segment.
pub fn encode(s: &str) -> (r: String)
    ensures
        r@ == url_encode(s@),
{
    let mut out = String::new();
    push_encoded_bytes(&mut out, s.as_bytes());
    assert(out@ =~= url_encode(s@));
    out
}

pub open spec fn slash() -> Seq<char> {
    seq!['/']
}

/// URL path of the child `name` of directory `base`.
pub open spec fn joined_url(base: Seq<char>, name: Seq<char>) -> Seq<char> {
    if base.len() == 0 || base == slash() {
        slash() + url_encode(name)
    } else {
        trim_end_char(base, '/') + slash() + url_encode(name)
    }
}

pub fn join_url_path(base: &str, name: &str) -> (r: String)
    ensures
        r@ == joined_url(base@, name@),
{
    let b = chars_vec(base);
    let mut out = String::new();
    if b.len() == 0 || (b.len() == 1 && b[0] == '/') {
        proof {
            if b@.len() == 1 && b@[0] == '/' {
                assert(b@ =~= slash());
            }
        }
        push_char(&mut out, '/');
    } else {
        proof {
            if b@ == slash() {
                assert(b@[0] == '/');
            }
        }
        let e = len_without_trailing(b.as_slice(), '/');
        let head = sub_vec(b.as_slice(), 0, e);
        push_all(&mut out, head.as_slice());
        push_char(&mut out, '/');
    }
    push_encoded_bytes(&mut out, name.as_bytes());
    assert(out@ =~= joined_url(base@, name@));
    out
}

proof fn lemma_encode_byte_no_slash(b: u8)
    ensures
        encode_byte(b).len() > 0,
        forall|k: int| 0 <= k < encode_byte(b).len() ==> #[trigger] encode_byte(b)[k] != '/',
{
    if is_unreserved(b) {
        assert(b != 47);
        assert((b as char) as u32 == b as u32);
    } else {
        let h = hex_byte(b, true);
        let hi = (b / 16) as nat;
        let lo = (b % 16) as nat;
        assert(h[0] == crate::num::hex_digit(hi, true));
        assert(h[1] == crate::num::hex_digit(lo, true));
        assert(crate::num::hex_digit(hi, true) != '/');
        assert(crate::num::hex_digit(lo, true) != '/');
        assert(encode_byte(b) =~= seq!['%', h[0], h[1]]);
    }
}

proof fn lemma_encode_bytes_no_slash(bs: Seq<u8>)
    ensures
        encode_bytes(bs).len() >= bs.len(),
        forall|k: int| 0 <= k < encode_bytes(bs).len() ==> #[trigger] encode_bytes(bs)[k] != '/',
    decreases bs.len(),
{
    if bs.len() > 0 {
        lemma_encode_bytes_no_slash(bs.drop_last());
        lemma_encode_byte_no_slash(bs.last());
        let a = encode_bytes(bs.drop_last());
        let b = encode_byte(bs.last());
        assert forall|k: int| 0 <= k < (a + b).len() implies #[trigger] (a + b)[k] != '/' by {
            if k < a.len() {
                assert((a + b)[k] == a[k]);
            } else {
                assert((a + b)[k] == b[k - a.len()]);
            }
        }
    }
}

proof fn lemma_last_pos_exists(s: Seq<char>, c: char)
    requires
        has_char(s, c),
    ensures
        is_last_pos(s, c, last_pos(s, c)),
    decreases s.len(),
{
    if s.last() == c {
        assert(is_last_pos(s, c, s.len() - 1));
        lemma_last_pos_unique(s, c, s.len() - 1);
    } else {
        let d = s.drop_last();
        let k = choose|k: int| 0 <= k < s.len() && s[k] == c;
        assert(d[k] == c);
        lemma_last_pos_exists(d, c);
        let m = last_pos(d, c);
        assert forall|j: int| m < j < s.len() implies s[j] != c by {
            if j < d.len() {
                assert(s[j] == d[j]);
            }
        }
        assert(is_last_pos(s, c, m));
        lemma_last_pos_unique(s, c, m);
    }
}

proof fn lemma_trim_end_last(s: Seq<char>, c: char)
    ensures
        trim_end_char(s, c).len() > 0 ==> trim_end_char(s, c).last() != c,
        trail_count(s, c) <= s.len(),
    decreases s.len(),
{
    if s.len() > 0 && s.last() == c {
        let d = s.drop_last();
        lemma_trim_end_last(d, c);
        assert(trail_count(s, c) == 1 + trail_count(d, c));
        assert(trim_end_char(s, c) =~= trim_end_char(d, c));
    } else {
        assert(trim_end_char(s, c) =~= s);
    }
}

/// Trailing slashes do not change a path's parent: `p/` has the parent
/// of `p`.
pub proof fn parent_ignores_trailing_slash(p: Seq<char>)
    ensures
        parent_of(p.push('/')) == parent_of(p),
{
    let q = p.push('/');
    lemma_trim_end_last(p, '/');
    assert(q.drop_last() =~= p);
    assert(q.last() == '/');
    assert(trail_count(q, '/') == 1 + trail_count(p, '/'));
    assert(trim_end_char(q, '/') =~= trim_end_char(p, '/'));
}

/// The parent of a path is never the path itself: it is strictly shorter
/// than the path without its trailing slashes, and a prefix of it.
pub proof fn parent_is_strictly_above(p: Seq<char>)
    ensures
        parent_of(p) matches Some(q) ==> {
            let t = trim_end_char(p, '/');
            &&& q != t
            &&& q.len() < t.len()
            &&& q == slash() || t.take(q.len() as int) == q
        },
{
    let t = trim_end_char(p, '/');
    lemma_trim_end_last(p, '/');
    if t.len() > 0 && has_char(t, '/') {
        lemma_last_pos_exists(t, '/');
        let i = last_pos(t, '/');
        assert(t[i] == '/');
        assert(i != t.len() - 1);
        if i == 0 {
            assert(t.len() >= 2);
        } else {
            assert(t.take(i).len() == i);
        }
    }
}

/// The parent of a child's URL path is the directory it was joined to,
/// trailing slashes dropped (`/` for the root).
pub proof fn parent_of_joined(base: Seq<char>, name: Seq<char>)
    requires
        name.len() > 0,
    ensures
        parent_of(joined_url(base, name)) == Some(
            if trim_end_char(base, '/').len() == 0 {
                slash()
            } else {
                trim_end_char(base, '/')
            },
        ),
{
    let u = url_encode(name);
    assert(encode_utf8(name).len() > 0);
    lemma_encode_bytes_no_slash(encode_utf8(name));
    let b = trim_end_char(base, '/');
    let p = if base.len() == 0 || base == slash() {
        Seq::<char>::empty()
    } else {
        b
    };
    if base == slash() {
        assert(base.len() == 1 && base[0] == '/');
        assert(base.drop_last() =~= Seq::<char>::empty());
        assert(trail_count(base.drop_last(), '/') == 0);
        assert(trail_count(base, '/') == 1);
        assert(b =~= Seq::<char>::empty());
    }
    if base.len() == 0 {
        assert(b =~= Seq::<char>::empty());
    }
    let j = joined_url(base, name);
    assert(j =~= p + slash() + u);
    assert(j.last() == u.last());
    assert(trail_count(j, '/') == 0);
    assert(trim_end_char(j, '/') =~= j);
    let i = p.len() as int;
    assert(j[i] == '/');
    assert forall|k: int| i < k < j.len() implies j[k] != '/' by {
        assert(j[k] == u[k - i - 1]);
    }
    assert(is_last_pos(j, '/', i));
    lemma_last_pos_unique(j, '/', i);
    assert(j.take(i) =~= p);
}

/// Parent of a URL path: `None` for the root.
pub open spec fn parent_of(p: Seq<char>) -> Option<Seq<char>> {
    let t = trim_end_char(p, '/');
    if t.len() == 0 || !has_char(t, '/') {
        None
    } else {
        let i = last_pos(t, '/');
        if i == 0 {
            Some(slash())
        } else {
            Some(t.take(i))
        }
    }
}

pub fn compute_parent(url_path: &str) -> (r: Option<String>)
    ensures
        r matches Some(s) ==> parent_of(url_path@) == Some(s@),
        r is None <==> parent_of(url_path@) is None,
{
    let v = chars_vec(url_path);
    let e = len_without_trailing(v.as_slice(), '/');
    let t = sub_vec(v.as_slice(), 0, e);
    assert(t@ =~= trim_end_char(url_path@, '/'));
    if t.len() == 0 {
        return None;
    }
    let idx = match rfind_char(t.as_slice(), '/') {
        None => {
            return None;
        },
        Some(i) => i,
    };
    if idx == 0 {
        let s = string_from_chars(&['/']);
        assert(s@ =~= slash());
        Some(s)
    } else {
        let head = sub_vec(t.as_slice(), 0, idx);
        let s = string_from_chars(head.as_slice());
        assert(s@ =~= t@.take(idx as int));
        Some(s)
    }
}

// ─── Entries ───────────────────────────────────────────────────────────────
/// Whether a directory entry is left out of a listing.
pub open spec fn hidden_entry(name: Seq<char>, show_hidden: bool) -> bool {
    !show_hidden && name.len() > 0 && name[0] == '.'
}

pub fn skip_entry(name: &str, show_hidden: bool) -> (r: bool)
    ensures
        r == hidden_entry(name@, show_hidden),
{
    if show_hidden {
        return false;
    }
    let v = chars_vec(name);
    v.len() > 0 && v[0] == '.'
}

/// The listing entry for a child `name` of `url_path` with the given metadata.
pub fn build_entry(url_path: &str, name: String, is_dir: bool, size: u64, modified: u64) -> (r:
    DirEntry)
    ensures
        r.name == name,
        r.path@ == joined_url(url_path@, name@),
        r.is_dir == is_dir,
        r.size == size,
        r.modified == modified,
        is_dir ==> r.mime is None,
        !is_dir ==> (r.mime matches Some(m) && m@ == guessed_mime(name@)),
        r.previewable == (!is_dir && preview_kind_of(guessed_mime(name@)).previewable()),
{
    let path = join_url_path(url_path, name.as_str());
    let (mime, previewable) = if is_dir {
        (None, false)
    } else {
        let m = mime_for(name.as_str());
        let p = preview_kind(m.as_str()).is_previewable();
        (Some(m), p)
    };
    DirEntry { name, path, is_dir, size, modified, mime, previewable }
}

/// What reading a directory reports about one child.
#[derive(Debug, Clone)]
pub struct RawEntry {
    pub name: String,
    pub is_dir: bool,
    pub size: u64,
    pub modified: u64,
}

/// The children a listing shows, in read order.
pub open spec fn visible_entries(raw: Seq<RawEntry>, show_hidden: bool) -> Seq<RawEntry>
    decreases raw.len(),
{
    if raw.len() == 0 {
        Seq::empty()
    } else {
        let rest = visible_entries(raw.drop_last(), show_hidden);
        if hidden_entry(raw.last().name@, show_hidden) {
            rest
        } else {
            rest.push(raw.last())
        }
    }
}

/// `e` is the listing entry of child `r` of `url_path`.
pub open spec fn entry_of(url_path: Seq<char>, r: RawEntry, e: DirEntry) -> bool {
    &&& e.name == r.name
    &&& e.path@ == joined_url(url_path, r.name@)
    &&& e.is_dir == r.is_dir
    &&& e.size == r.size
    &&& e.modified == r.modified
    &&& (r.is_dir ==> e.mime is None)
    &&& (!r.is_dir ==> (e.mime matches Some(m) && m@ == guessed_mime(r.name@)))
    &&& e.previewable == (!r.is_dir && preview_kind_of(guessed_mime(r.name@)).previewable())
}

/// The listing entries of the children of `url_path`, hidden ones left
/// out unless `show_hidden`, in read order.
pub fn build_entries(url_path: &str, raw: &Vec<RawEntry>, show_hidden: bool) -> (r: Vec<DirEntry>)
    ensures
        r@.len() == visible_entries(raw@, show_hidden).len(),
        forall|i: int| 0 <= i < r@.len() ==> entry_of(url_path@, visible_entries(raw@, show_hidden)[i], #[trigger] r@[i]),
{
    let mut out: Vec<DirEntry> = Vec::new();
    let mut i: usize = 0;
    while i < raw.len()
        invariant
            i <= raw@.len(),
            out@.len() == visible_entries(raw@.take(i as int), show_hidden).len(),
            forall|t: int| 0 <= t < out@.len() ==> entry_of(url_path@, visible_entries(raw@.take(i as int), show_hidden)[t], #[trigger] out@[t]),
        decreases raw@.len() - i,
    {
        assert(raw@.take(i + 1).drop_last() =~= raw@.take(i as int));
        assert(raw@.take(i + 1).last() == raw@[i as int]);
        let r = &raw[i];
        if !skip_entry(r.name.as_str(), show_hidden) {
            let e = build_entry(url_path, r.name.clone(), r.is_dir, r.size, r.modified);
            out.push(e);
        }
        i = i + 1;
    }
    assert(raw@.take(raw@.len() as int) =~= raw@);
    out
}

// ─── Ordering ──────────────────────────────────────────────────────────────
/// What std's `str::to_lowercase` returns (full Unicode lower-casing).
pub uninterp spec fn lowercase_of(s: Seq<char>) -> Seq<char>;

/// Calls std `str::to_lowercase`. The result is a fixed function of the
/// input (Unicode case tables); it is named, not stated.
#[verifier::external_body]
pub(crate) fn to_lowercase(s: &str) -> (r: String)
    ensures
        r@ == lowercase_of(s@),
{
    s.to_lowercase()
}

/// Strict lexicographic order on byte strings (the order of `str` / `String`).
pub open spec fn lex_lt(a: Seq<u8>, b: Seq<u8>) -> bool
    decreases a.len(),
{
    if b.len() == 0 {
        false
    } else if a.len() == 0 {
        true
    } else if a[0] != b[0] {
        a[0] < b[0]
    } else {
        lex_lt(a.drop_first(), b.drop_first())
    }
}

/// Three-way comparison of byte strings: -1, 0 or 1.
pub open spec fn lex_order(a: Seq<u8>, b: Seq<u8>) -> int {
    if lex_lt(a, b) {
        -1
    } else if a == b {
        0
    } else {
        1
    }
}

pub open spec fn u64_order(a: u64, b: u64) -> int {
    if a < b {
        -1
    } else if a == b {
        0
    } else {
        1
    }
}

/// Sort key of an entry's name: the UTF-8 bytes of its lower-cased name.
pub open spec fn name_key(e: DirEntry) -> Seq<u8> {
    encode_utf8(lowercase_of(e.name@))
}

pub open spec fn key_order(a: DirEntry, b: DirEntry, k: SortKey) -> int {
    match k {
        SortKey::Name => lex_order(name_key(a), name_key(b)),
        SortKey::Size => u64_order(a.size, b.size),
        SortKey::Modified => u64_order(a.modified, b.modified),
    }
}

/// How two entries compare in a listing: directories first, then by the
/// sort key in the requested direction.
pub open spec fn entry_rank(a: DirEntry, b: DirEntry, k: SortKey, o: SortOrder) -> int {
    if a.is_dir && !b.is_dir {
        -1
    } else if !a.is_dir && b.is_dir {
        1
    } else {
        match o {
            SortOrder::Asc => key_order(a, b, k),
            SortOrder::Desc => -key_order(a, b, k),
        }
    }
}

/// `a` may be listed before `b`.
pub open spec fn entry_le(a: DirEntry, b: DirEntry, k: SortKey, o: SortOrder) -> bool {
    entry_rank(a, b, k, o) <= 0
}

pub(crate) proof fn lemma_lex_irrefl(a: Seq<u8>)
    ensures
        !lex_lt(a, a),
    decreases a.len(),
{
    if a.len() > 0 {
        lemma_lex_irrefl(a.drop_first());
    }
}

proof fn lemma_lex_trichotomy(a: Seq<u8>, b: Seq<u8>)
    ensures
        lex_lt(a, b) || a == b || lex_lt(b, a),
        !(lex_lt(a, b) && lex_lt(b, a)),
    decreases a.len(),
{
    if a.len() == 0 || b.len() == 0 {
        if a.len() == 0 && b.len() == 0 {
            assert(a =~= b);
        }
    } else if a[0] == b[0] {
        lemma_lex_trichotomy(a.drop_first(), b.drop_first());
        if a.drop_first() == b.drop_first() {
            assert(a =~= seq![a[0]] + a.drop_first());
            assert(b =~= seq![b[0]] + b.drop_first());
        }
    }
}

proof fn lemma_lex_trans(a: Seq<u8>, b: Seq<u8>, c: Seq<u8>)
    requires
        lex_lt(a, b),
        lex_lt(b, c),
    ensures
        lex_lt(a, c),
    decreases a.len(),
{
    if a.len() > 0 && b.len() > 0 && c.len() > 0 && a[0] == b[0] && b[0] == c[0] {
        lemma_lex_trans(a.drop_first(), b.drop_first(), c.drop_first());
    }
}

pub(crate) proof fn lemma_lex_order_props(a: Seq<u8>, b: Seq<u8>, c: Seq<u8>)
    ensures
        lex_order(b, a) == -lex_order(a, b),
        lex_order(a, b) <= 0 && lex_order(b, c) <= 0 ==> lex_order(a, c) <= 0,
{
    lemma_lex_trichotomy(a, b);
    lemma_lex_trichotomy(b, c);
    lemma_lex_trichotomy(a, c);
    lemma_lex_irrefl(a);
    lemma_lex_irrefl(b);
    if lex_lt(a, b) && lex_lt(b, c) {
        lemma_lex_trans(a, b, c);
    }
}

proof fn lemma_key_order_props(a: DirEntry, b: DirEntry, c: DirEntry, k: SortKey)
    ensures
        key_order(b, a, k) == -key_order(a, b, k),
        key_order(a, b, k) <= 0 && key_order(b, c, k) <= 0 ==> key_order(a, c, k) <= 0,
        key_order(a, b, k) >= 0 && key_order(b, c, k) >= 0 ==> key_order(a, c, k) >= 0,
{
    lemma_lex_order_props(name_key(a), name_key(b), name_key(c));
    lemma_lex_order_props(name_key(c), name_key(b), name_key(a));
    lemma_lex_order_props(name_key(a), name_key(c), name_key(b));
}

/// A directory precedes a file in every sort order.
pub proof fn directories_come_first(a: DirEntry, b: DirEntry, k: SortKey, o: SortOrder)
    requires
        a.is_dir,
        !b.is_dir,
    ensures
        entry_rank(a, b, k, o) < 0,
        entry_rank(b, a, k, o) > 0,
{
}

/// Between two entries of the same kind, sorting by size or modification
/// time follows the numbers: the smaller (older) one first when ascending,
/// last when descending; equal numbers tie.
pub proof fn numeric_keys_follow_numbers(a: DirEntry, b: DirEntry)
    requires
        a.is_dir == b.is_dir,
    ensures
        a.modified < b.modified ==> entry_rank(a, b, SortKey::Modified, SortOrder::Asc) < 0,
        a.modified < b.modified ==> entry_rank(a, b, SortKey::Modified, SortOrder::Desc) > 0,
        a.modified == b.modified ==> entry_rank(a, b, SortKey::Modified, SortOrder::Asc) == 0,
        a.size < b.size ==> entry_rank(a, b, SortKey::Size, SortOrder::Asc) < 0,
        a.size < b.size ==> entry_rank(a, b, SortKey::Size, SortOrder::Desc) > 0,
        a.size == b.size ==> entry_rank(a, b, SortKey::Size, SortOrder::Asc) == 0,
{
}

/// Sorting by name compares the lower-cased names byte by byte: a name
/// whose lower-cased bytes come first lexicographically sorts first when
/// ascending, last when descending (same kind).
pub proof fn names_follow_lowercase_bytes(a: DirEntry, b: DirEntry)
    requires
        a.is_dir == b.is_dir,
        lex_lt(name_key(a), name_key(b)),
    ensures
        entry_rank(a, b, SortKey::Name, SortOrder::Asc) < 0,
        entry_rank(a, b, SortKey::Name, SortOrder::Desc) > 0,
{
}

/// In a listing sorted by modification time, within each kind the times
/// never decrease when ascending and never increase when descending; all
/// directories come before all files.
pub proof fn sorted_listing_by_mtime(r: Seq<DirEntry>, o: SortOrder)
    requires
        forall|i: int, j: int| 0 <= i < j < r.len() ==> entry_le(#[trigger] r[i], #[trigger] r[j], SortKey::Modified, o),
    ensures
        forall|i: int, j: int|
            0 <= i < j < r.len() && r[i].is_dir == r[j].is_dir ==> (if o == SortOrder::Asc {
                r[i].modified <= r[j].modified
            } else {
                r[i].modified >= r[j].modified
            }),
        forall|i: int, j: int| 0 <= i < j < r.len() ==> !(!r[i].is_dir && r[j].is_dir),
{
}

/// The listing order is total: of any two entries, one may precede the other.
pub proof fn entry_order_total(a: DirEntry, b: DirEntry, k: SortKey, o: SortOrder)
    ensures
        entry_le(a, b, k, o) || entry_le(b, a, k, o),
{
    lemma_key_order_props(a, b, a, k);
}

/// The listing order is transitive.
pub proof fn entry_order_transitive(
    a: DirEntry,
    b: DirEntry,
    c: DirEntry,
    k: SortKey,
    o: SortOrder,
)
    requires
        entry_le(a, b, k, o),
        entry_le(b, c, k, o),
    ensures
        entry_le(a, c, k, o),
{
    lemma_key_order_props(a, b, c, k);
}

/// Three-way byte-string comparison.
pub(crate) fn compare_bytes(a: &[u8], b: &[u8]) -> (r: i8)
    ensures
        r == lex_order(a@, b@),
{
    let mut i: usize = 0;
    while i < a.len() && i < b.len() && a[i] == b[i]
        invariant
            i <= a@.len(),
            i <= b@.len(),
            a@.take(i as int) == b@.take(i as int),
        decreases a@.len() - i,
    {
        assert(a@.take(i + 1) =~= a@.take(i as int).push(a@[i as int]));
        assert(b@.take(i + 1) =~= b@.take(i as int).push(b@[i as int]));
        i = i + 1;
    }
    proof {
        lemma_lex_skip(a@, b@, i as int);
        lemma_lex_trichotomy(a@, b@);
        lemma_lex_irrefl(a@);
        let sa = a@.skip(i as int);
        let sb = b@.skip(i as int);
        if i == a@.len() && i == b@.len() {
            assert(a@ =~= a@.take(i as int));
            assert(b@ =~= b@.take(i as int));
        }
        if i < a@.len() && i < b@.len() {
            assert(sa[0] == a@[i as int]);
            assert(sb[0] == b@[i as int]);
            assert(a@[i as int] != b@[i as int]);
            assert(a@ != b@);
        }
        if i == a@.len() && i < b@.len() {
            assert(a@.len() != b@.len());
        }
        if i < a@.len() && i == b@.len() {
            assert(a@.len() != b@.len());
        }
    }
    if i == a.len() && i == b.len() {
        0
    } else if i == a.len() {
        -1
    } else if i == b.len() {
        1
    } else if a[i] < b[i] {
        -1
    } else {
        1
    }
}

proof fn lemma_lex_skip(a: Seq<u8>, b: Seq<u8>, i: int)
    requires
        0 <= i <= a.len(),
        i <= b.len(),
        a.take(i) == b.take(i),
    ensures
        lex_lt(a, b) == lex_lt(a.skip(i), b.skip(i)),
    decreases i,
{
    if i > 0 {
        assert(a[0] == a.take(i)[0]);
        assert(b[0] == b.take(i)[0]);
        assert(a.drop_first().take(i - 1) =~= a.take(i).drop_first());
        assert(b.drop_first().take(i - 1) =~= b.take(i).drop_first());
        lemma_lex_skip(a.drop_first(), b.drop_first(), i - 1);
        assert(a.drop_first().skip(i - 1) =~= a.skip(i));
        assert(b.drop_first().skip(i - 1) =~= b.skip(i));
    } else {
        assert(a.skip(0) =~= a);
        assert(b.skip(0) =~= b);
    }
}

fn compare_u64(a: u64, b: u64) -> (r: i8)
    ensures
        r == u64_order(a, b),
{
    if a < b {
        -1
    } else if a == b {
        0
    } else {
        1
    }
}

/// Three-way comparison of two entries in listing order.
pub fn compare_entries(a: &DirEntry, b: &DirEntry, sort: SortKey, order: SortOrder) -> (r: i8)
    ensures
        r == entry_rank(*a, *b, sort, order),
{
    if a.is_dir && !b.is_dir {
        return -1;
    }
    if !a.is_dir && b.is_dir {
        return 1;
    }
    let k: i8 = match sort {
        SortKey::Name => {
            let la = to_lowercase(a.name.as_str());
            let lb = to_lowercase(b.name.as_str());
            compare_bytes(la.as_str().as_bytes(), lb.as_str().as_bytes())
        },
        SortKey::Size => compare_u64(a.size, b.size),
        SortKey::Modified => compare_u64(a.modified, b.modified),
    };
    match order {
        SortOrder::Asc => k,
        SortOrder::Desc => -k,
    }
}

/// `s` with `x` placed right after the last entry that strictly precedes
/// it, that is, before every entry that does not.
pub open spec fn insert_in_order(x: DirEntry, s: Seq<DirEntry>, k: SortKey, o: SortOrder) -> Seq<DirEntry>
    decreases s.len(),
{
    if s.len() == 0 {
        seq![x]
    } else if entry_rank(x, s.last(), k, o) > 0 {
        s.push(x)
    } else {
        insert_in_order(x, s.drop_last(), k, o).push(s.last())
    }
}

/// The stable listing order of `s`: each entry, from the last to the
/// first, is placed before the entries it does not follow, so entries
/// that compare equal keep their relative order.
pub open spec fn listing_sort(s: Seq<DirEntry>, k: SortKey, o: SortOrder) -> Seq<DirEntry>
    decreases s.len(),
{
    if s.len() == 0 {
        s
    } else {
        insert_in_order(s[0], listing_sort(s.drop_first(), k, o), k, o)
    }
}

proof fn lemma_insert_in_order(x: DirEntry, s: Seq<DirEntry>, j: int, k: SortKey, o: SortOrder)
    requires
        0 <= j <= s.len(),
        forall|t: int| j <= t < s.len() ==> entry_rank(x, #[trigger] s[t], k, o) <= 0,
        j > 0 ==> entry_rank(x, s[j - 1], k, o) > 0,
    ensures
        insert_in_order(x, s, k, o) == s.insert(j, x),
    decreases s.len(),
{
    if s.len() == 0 {
        assert(s.insert(j, x) =~= seq![x]);
    } else if j == s.len() {
        assert(s.insert(j, x) =~= s.push(x));
    } else {
        let t = s.len() - 1;
        assert(entry_rank(x, s[t], k, o) <= 0);
        let d = s.drop_last();
        assert forall|u: int| j <= u < d.len() implies entry_rank(x, #[trigger] d[u], k, o) <= 0 by {
            assert(d[u] == s[u]);
        }
        lemma_insert_in_order(x, d, j, k, o);
        assert(d.insert(j, x).push(s.last()) =~= s.insert(j, x));
    }
}

/// Sorts entries into listing order (directories first, then by key).
/// Entries that compare equal keep their relative order.
pub fn sort_entries(entries: Vec<DirEntry>, sort: SortKey, order: SortOrder) -> (r: Vec<DirEntry>)
    ensures
        r@ == listing_sort(entries@, sort, order),
        r@.to_multiset() == entries@.to_multiset(),
        sorted_by(r@, |a: DirEntry, b: DirEntry| entry_le(a, b, sort, order)),
{
    let ghost le = |a: DirEntry, b: DirEntry| entry_le(a, b, sort, order);
    let mut src = entries;
    let ghost orig = src@;
    let mut out: Vec<DirEntry> = Vec::new();
    // Consume the input from the back; `rest` is the unconsumed prefix.
    proof {
        broadcast use vstd::seq_lib::group_to_multiset_ensures, vstd::multiset::group_multiset_axioms;

        assert(out@ =~= Seq::<DirEntry>::empty());
        assert(out@.to_multiset() =~= vstd::multiset::Multiset::empty());
        assert(out@.to_multiset().add(src@.to_multiset()) =~= orig.to_multiset());
    }
    proof {
        assert(orig.skip(orig.len() as int) =~= Seq::<DirEntry>::empty());
    }
    while src.len() > 0
        invariant
            out@.to_multiset().add(src@.to_multiset()) == orig.to_multiset(),
            sorted_by(out@, le),
            le == (|a: DirEntry, b: DirEntry| entry_le(a, b, sort, order)),
            src@ == orig.take(src@.len() as int),
            src@.len() <= orig.len(),
            out@ == listing_sort(orig.skip(src@.len() as int), sort, order),
        decreases src@.len(),
    {
        let ghost before = src@;
        let ghost sorted_rest = out@;
        let x = src.pop().unwrap();
        proof {
            assert(before =~= src@.push(x));
            vstd::seq_lib::to_multiset_build(src@, x);
            assert(src@ =~= orig.take(src@.len() as int));
            let n = src@.len() as int;
            assert(orig[n] == before[n]);
            assert(orig.skip(n).drop_first() =~= orig.skip(n + 1));
            assert(orig.skip(n)[0] == x);
            assert(listing_sort(orig.skip(n), sort, order) == insert_in_order(x, sorted_rest, sort, order));
        }
        // Insert `x` after the last element that strictly precedes it, so
        // that `x` (earlier in the input) lands before entries equal to it.
        let mut j: usize = out.len();
        loop
            invariant
                j <= out@.len(),
                forall|t: int| j <= t < out@.len() ==> entry_rank(x, #[trigger] out@[t], sort, order) <= 0,
            ensures
                j <= out@.len(),
                forall|t: int| j <= t < out@.len() ==> entry_rank(x, #[trigger] out@[t], sort, order) <= 0,
                j > 0 ==> entry_rank(x, out@[j - 1], sort, order) > 0,
            decreases j,
        {
            if j == 0 {
                break;
            }
            if compare_entries(&x, &out[j - 1], sort, order) > 0 {
                break;
            }
            j = j - 1;
        }
        let ghost old_out = out@;
        out.insert(j, x);
        proof {
            lemma_insert_in_order(x, old_out, j as int, sort, order);
            old_out.insert_ensures(j as int, x);
            assert(out@ == old_out.insert(j as int, x));
            lemma_insert_multiset(old_out, j as int, x);
            assert forall|p: int, q: int| 0 <= p < q < out@.len() implies #[trigger] le(
                out@[p],
                out@[q],
            ) by {
                lemma_insert_sorted(old_out, j as int, x, p, q, sort, order);
            }
        }
    }
    proof {
        broadcast use vstd::seq_lib::group_to_multiset_ensures, vstd::multiset::group_multiset_axioms;

        assert(src@.to_multiset().len() == 0);
        assert(src@.to_multiset() =~= vstd::multiset::Multiset::empty());
        assert(out@.to_multiset() =~= orig.to_multiset());
        assert(orig.skip(0) =~= orig);
    }
    out
}

proof fn lemma_insert_multiset(s: Seq<DirEntry>, j: int, x: DirEntry)
    requires
        0 <= j <= s.len(),
    ensures
        s.insert(j, x).to_multiset() == s.to_multiset().insert(x),
{
    let a = s.subrange(0, j);
    let b = s.subrange(j, s.len() as int);
    assert(s =~= a + b);
    vstd::seq_lib::lemma_multiset_commutative(a, b);
    vstd::seq_lib::lemma_multiset_commutative(a.push(x), b);
    vstd::seq_lib::to_multiset_build(a, x);
    assert(s.insert(j, x) =~= a.push(x) + b);
    assert(s.insert(j, x).to_multiset() =~= s.to_multiset().insert(x));
}

#[verifier::spinoff_prover]
proof fn lemma_insert_sorted(
    s: Seq<DirEntry>,
    j: int,
    x: DirEntry,
    p: int,
    q: int,
    sort: SortKey,
    order: SortOrder,
)
    requires
        0 <= j <= s.len(),
        0 <= p < q < s.len() + 1,
        sorted_by(s, |a: DirEntry, b: DirEntry| entry_le(a, b, sort, order)),
        forall|t: int| j <= t < s.len() ==> entry_rank(x, #[trigger] s[t], sort, order) <= 0,
        j > 0 ==> entry_rank(x, s[j - 1], sort, order) > 0,
    ensures
        entry_le(s.insert(j, x)[p], s.insert(j, x)[q], sort, order),
{
    let le = |a: DirEntry, b: DirEntry| entry_le(a, b, sort, order);
    s.insert_ensures(j, x);
    let r = s.insert(j, x);
    if q < j {
        assert(le(s[p], s[q]));
    } else if q == j {
        // s[p] precedes s[j - 1] which may precede x.
        let y = s[j - 1];
        lemma_key_order_props(x, y, x, sort);
        assert(entry_le(y, x, sort, order));
        if p < j - 1 {
            assert(le(s[p], s[j - 1]));
            entry_order_transitive(s[p], y, x, sort, order);
        }
    } else if p == j {
        assert(r[q] == s[q - 1]);
        assert(entry_rank(x, s[q - 1], sort, order) <= 0);
    } else if p < j {
        assert(r[q] == s[q - 1]);
        assert(le(s[p], s[q - 1]));
    } else {
        assert(r[p] == s[p - 1]);
        assert(r[q] == s[q - 1]);
        assert(le(s[p - 1], s[q - 1]));
    }
}

// ─── Paging ────────────────────────────────────────────────────────────────
/// `entries[offset..min(offset + limit, len)]`, or nothing when `offset`
/// is past the end.
pub open spec fn page_of<T>(entries: Seq<T>, offset: nat, limit: nat) -> Seq<T> {
    if offset < entries.len() {
        let end = if offset + limit < entries.len() {
            offset + limit
        } else {
            entries.len()
        };
        entries.subrange(offset as int, end as int)
    } else {
        Seq::empty()
    }
}

/// One page of a listing.
pub fn paginate(entries: Vec<DirEntry>, offset: usize, limit: usize) -> (r: Vec<DirEntry>)
    ensures
        r@ == page_of(entries@, offset as nat, limit as nat),
{
    let total = entries.len();
    if offset >= total {
        return Vec::new();
    }
    let mut v = entries;
    let mut page = v.split_off(offset);
    let n = if limit < total - offset {
        limit
    } else {
        total - offset
    };
    page.truncate(n);
    assert(page@ =~= page_of(entries@, offset as nat, limit as nat));
    page
}

/// Assembles a listing page for `url_path` from its sorted entries.
pub fn assemble_listing(url_path: &str, entries: Vec<DirEntry>, offset: usize, limit: usize) -> (r:
    DirListing)
    requires
        offset <= entries@.len(),
        offset + limit <= usize::MAX,
    ensures
        r.path@ == url_path@,
        r.total == entries@.len(),
        r.entries@ == page_of(entries@, offset as nat, limit as nat),
        r.parent matches Some(p) ==> parent_of(url_path@) == Some(p@),
        r.parent is None <==> parent_of(url_path@) is None,
{
    let total = entries.len();
    let page = paginate(entries, offset, limit);
    let parent = compute_parent(url_path);
    let path = string_from_chars(chars_vec(url_path).as_slice());
    DirListing { path, parent, entries: page, total }
}

} // verus!
