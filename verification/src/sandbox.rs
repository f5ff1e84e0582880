//! Path sandbox: maps URL paths to filesystem paths while guaranteeing
//! resolution stays inside the configured root.
//!
//! Filesystem paths are handled as the list of their components below `/`
//! (an absolute, already canonical path). Touching the filesystem
//! (existence checks, canonicalisation) is the caller's part; the checks
//! and translations here decide what is allowed.
use vstd::prelude::*;
use vstd::utf8::{decode_utf8, valid_utf8, encode_utf8};

use crate::error::{text_of, QshareError};
use crate::reader::{push_encoded_bytes, url_encode};
use crate::text::{
    chars_vec, count_leading, has_char, push_char, string_from_chars, sub_vec, trim_start_char,
};

verus! {

broadcast use vstd::string::group_string_axioms;

// ─── Percent-decoding ──────────────────────────────────────────────────────
/// Value of an ASCII hex digit byte (`char::to_digit(16)`).
pub open spec fn hex_val(b: u8) -> Option<u8> {
    if 48 <= b && b <= 57 {
        Some((b - 48) as u8)
    } else if 97 <= b && b <= 102 {
        Some((b - 87) as u8)
    } else if 65 <= b && b <= 70 {
        Some((b - 55) as u8)
    } else {
        None
    }
}

/// Byte-wise percent-decoding: `%` followed by two hex digits becomes the
/// byte they spell; every other byte (a lone `%` included) stays.
pub open spec fn pct_decode(b: Seq<u8>) -> Seq<u8>
    decreases b.len(),
{
    if b.len() == 0 {
        Seq::empty()
    } else if b[0] == 37 && b.len() >= 3 && hex_val(b[1]) is Some && hex_val(b[2]) is Some {
        seq![(hex_val(b[1])->0 * 16 + hex_val(b[2])->0) as u8] + pct_decode(b.skip(3))
    } else {
        seq![b[0]] + pct_decode(b.skip(1))
    }
}

/// Calls `percent_encoding::percent_decode_str(s).decode_utf8()`: the
/// percent-decoded bytes of `s`, as text when they are valid UTF-8.
#[verifier::external_body]
fn percent_decode_utf8(s: &str) -> (r: Option<String>)
    ensures
        r is Some <==> valid_utf8(pct_decode(encode_utf8(s@))),
        r matches Some(d) ==> d@ == decode_utf8(pct_decode(encode_utf8(s@))),
{
    percent_encoding::percent_decode_str(s).decode_utf8().ok().map(|c| c.into_owned())
}

// ─── URL path checks ───────────────────────────────────────────────────────
pub open spec fn dot_dot() -> Seq<char> {
    seq!['.', '.']
}

/// `t` has a `/`-separated segment that is exactly `..`.
pub open spec fn has_parent_segment(t: Seq<char>) -> bool {
    exists|i: int|
        0 <= i && i + 2 <= t.len() && #[trigger] t.subrange(i, i + 2) == dot_dot() && (i == 0
            || t[i - 1] == '/') && (i + 2 == t.len() || t[i + 2] == '/')
}

fn is_parent_at(t: &[char], i: usize) -> (r: bool)
    requires
        i + 2 <= t@.len(),
    ensures
        r == (t@.subrange(i as int, i + 2) == dot_dot() && (i == 0 || t@[i - 1] == '/') && (i
            + 2 == t@.len() || t@[i + 2] == '/')),
{
    let r = t[i] == '.' && t[i + 1] == '.' && (i == 0 || t[i - 1] == '/') && (i + 2 == t.len()
        || t[i + 2] == '/');
    proof {
        if t@[i as int] == '.' && t@[i + 1] == '.' {
            assert(t@.subrange(i as int, i + 2) =~= dot_dot());
        }
        if t@.subrange(i as int, i + 2) == dot_dot() {
            assert(t@.subrange(i as int, i + 2)[0] == t@[i as int]);
            assert(t@.subrange(i as int, i + 2)[1] == t@[i + 1]);
        }
    }
    r
}

pub fn find_parent_segment(t: &[char]) -> (r: bool)
    ensures
        r == has_parent_segment(t@),
{
    let n = t.len();
    if n < 2 {
        return false;
    }
    let mut i: usize = 0;
    while i < n - 1
        invariant
            n == t@.len(),
            n >= 2,
            i <= n - 1,
            forall|k: int|
                0 <= k < i ==> !(#[trigger] t@.subrange(k, k + 2) == dot_dot() && (k == 0 || t@[k
                    - 1] == '/') && (k + 2 == t@.len() || t@[k + 2] == '/')),
        decreases n - i,
    {
        if is_parent_at(t, i) {
            return true;
        }
        i = i + 1;
    }
    false
}

/// What a request path may name: no NUL byte, no `..` segment once the
/// leading slashes are gone, and valid UTF-8 after percent-decoding. The
/// result is the decoded path relative to the root.
pub open spec fn checked_request_path(url_path: Seq<char>) -> Result<Seq<char>, QshareError> {
    let t = trim_start_char(url_path, '/');
    if has_char(url_path, '\0') {
        Err(QshareError::Forbidden(arbitrary()))
    } else if has_parent_segment(t) {
        Err(QshareError::Forbidden(arbitrary()))
    } else if !valid_utf8(pct_decode(encode_utf8(t))) {
        Err(QshareError::BadRequest(arbitrary()))
    } else {
        Ok(decode_utf8(pct_decode(encode_utf8(t))))
    }
}

/// Kinds agree: both `Ok` with the same text, or both the same error variant.
pub open spec fn same_outcome(r: Result<String, QshareError>, s: Result<Seq<char>, QshareError>) -> bool {
    match (r, s) {
        (Ok(a), Ok(b)) => a@ == b,
        (Err(QshareError::Forbidden(_)), Err(QshareError::Forbidden(_))) => true,
        (Err(QshareError::BadRequest(_)), Err(QshareError::BadRequest(_))) => true,
        _ => false,
    }
}

// ─── Component paths ───────────────────────────────────────────────────────
/// `p` lies at or below `root` (component-wise prefix, like `Path::starts_with`).
pub open spec fn under_root(root: Seq<String>, p: Seq<String>) -> bool {
    root.len() <= p.len() && forall|i: int| 0 <= i < root.len() ==> #[trigger] p[i]@ == root[i]@
}

/// The components of `p` below `root`, joined by `/` with each one
/// percent-encoded.
pub open spec fn url_of_components(c: Seq<String>) -> Seq<char>
    decreases c.len(),
{
    if c.len() == 0 {
        Seq::empty()
    } else if c.len() == 1 {
        url_encode(c[0]@)
    } else {
        url_of_components(c.drop_last()) + seq!['/'] + url_encode(c.last()@)
    }
}

/// `p` has a `..` component.
pub open spec fn has_parent_component(p: Seq<String>) -> bool {
    exists|i: int| 0 <= i < p.len() && #[trigger] p[i]@ == dot_dot()
}

/// Whether confinement accepts `path`: no `..` component, under the root,
/// and, for a path that does not exist, a parent under the root too.
pub open spec fn confined(root: Seq<String>, exists: bool, path: Seq<String>) -> bool {
    &&& !has_parent_component(path)
    &&& if exists {
        under_root(root, path)
    } else {
        path.len() > 0 && under_root(root, path.drop_last()) && under_root(root, path)
    }
}

fn has_parent_dir(p: &Vec<String>) -> (r: bool)
    ensures
        r == has_parent_component(p@),
{
    let mut i: usize = 0;
    while i < p.len()
        invariant
            i <= p@.len(),
            forall|k: int| 0 <= k < i ==> !(#[trigger] p@[k]@ == dot_dot()),
        decreases p@.len() - i,
    {
        let v = chars_vec(p[i].as_str());
        if v.len() == 2 && v[0] == '.' && v[1] == '.' {
            assert(v@ =~= dot_dot());
            return true;
        }
        proof {
            if p@[i as int]@ == dot_dot() {
                assert(v@[0] == '.');
            }
        }
        i = i + 1;
    }
    false
}

pub struct Sandbox {
    root: Vec<String>,
}

impl Sandbox {
    pub closed spec fn root_components(&self) -> Seq<String> {
        self.root@
    }

    /// A sandbox for an already canonicalised root directory.
    pub fn from_canonical_root(root: Vec<String>) -> (r: Sandbox)
        ensures
            r.root_components() == root@,
    {
        Sandbox { root }
    }

    pub fn root(&self) -> (r: &Vec<String>)
        ensures
            r@ == self.root_components(),
    {
        &self.root
    }

    /// Whether `p` stays inside the root.
    pub fn contains(&self, p: &Vec<String>) -> (r: bool)
        ensures
            r == under_root(self.root_components(), p@),
    {
        path_under(&self.root, p)
    }

    /// The lexical checks of resolving a request path: rejects NUL bytes and
    /// `..` segments (`Forbidden`) and non-UTF-8 percent escapes
    /// (`BadRequest`); otherwise the decoded relative path.
    pub fn check_request_path(url_path: &str) -> (r: Result<String, QshareError>)
        ensures
            same_outcome(r, checked_request_path(url_path@)),
    {
        let v = chars_vec(url_path);
        if crate::text::find_char(v.as_slice(), '\0').is_some() {
            return Err(QshareError::Forbidden(text_of("NUL byte in path")));
        }
        let lead = count_leading(v.as_slice(), '/');
        let t = sub_vec(v.as_slice(), lead, v.len());
        assert(t@ =~= trim_start_char(url_path@, '/'));
        if find_parent_segment(t.as_slice()) {
            return Err(QshareError::Forbidden(text_of("'..' not allowed")));
        }
        let ts = string_from_chars(t.as_slice());
        match percent_decode_utf8(ts.as_str()) {
            None => Err(QshareError::BadRequest(text_of("invalid UTF-8 in path"))),
            Some(d) => Ok(d),
        }
    }

    /// The last step of resolving a request path: `path` is the
    /// canonical path when it exists on disk, else the root joined with
    /// the decoded request. It is accepted when it has no `..` component
    /// and lies under the root (and, when it does not exist, its parent
    /// does too); otherwise `Forbidden`.
    pub fn confine(&self, exists: bool, path: Vec<String>) -> (r: Result<Vec<String>, QshareError>)
        ensures
            confined(self.root_components(), exists, path@) ==> r == Ok::<Vec<String>, QshareError>(path),
            !confined(self.root_components(), exists, path@) ==> (r matches Err(QshareError::Forbidden(m))
                && m@ == "path escapes root"@),
    {
        if has_parent_dir(&path) {
            return Err(QshareError::Forbidden(text_of("path escapes root")));
        }
        if !exists {
            if path.len() == 0 {
                return Err(QshareError::Forbidden(text_of("path escapes root")));
            }
            let mut parent: Vec<String> = Vec::new();
            let last = path.len() - 1;
            let mut i: usize = 0;
            while i < last
                invariant
                    last + 1 == path@.len(),
                    i <= last,
                    parent@ == path@.take(i as int),
                decreases last - i,
            {
                parent.push(path[i].clone());
                assert(path@.take(i + 1) =~= path@.take(i as int).push(path@[i as int]));
                i = i + 1;
            }
            assert(parent@ =~= path@.drop_last());
            if !path_under(&self.root, &parent) {
                return Err(QshareError::Forbidden(text_of("path escapes root")));
            }
        }
        if !path_under(&self.root, &path) {
            return Err(QshareError::Forbidden(text_of("path escapes root")));
        }
        Ok(path)
    }

    /// Translate an absolute filesystem path back into a URL path relative
    /// to root. `None` when the path is not under the root.
    pub fn to_url_path(&self, abs: &Vec<String>) -> (r: Option<String>)
        ensures
            r is Some <==> under_root(self.root_components(), abs@),
            r matches Some(u) ==> u@ == url_of_components(
                abs@.skip(self.root_components().len() as int),
            ),
    {
        relative_url(&self.root, abs)
    }
}

/// Whether `p` stays inside `root`.
pub fn path_under(root: &Vec<String>, p: &Vec<String>) -> (r: bool)
    ensures
        r == under_root(root@, p@),
{
    if p.len() < root.len() {
        return false;
    }
    let mut i: usize = 0;
    while i < root.len()
        invariant
            i <= root@.len(),
            root@.len() <= p@.len(),
            forall|j: int| 0 <= j < i ==> #[trigger] p@[j]@ == root@[j]@,
        decreases root@.len() - i,
    {
        let a = chars_vec(p[i].as_str());
        let b = chars_vec(root[i].as_str());
        if !crate::text::chars_eq(a.as_slice(), b.as_slice()) {
            return false;
        }
        i = i + 1;
    }
    true
}

/// URL path of `abs` relative to `root` (components percent-encoded and
/// joined by `/`); `None` when `abs` is not under `root`.
pub fn relative_url(root: &Vec<String>, abs: &Vec<String>) -> (r: Option<String>)
    ensures
        r is Some <==> under_root(root@, abs@),
        r matches Some(u) ==> u@ == url_of_components(abs@.skip(root@.len() as int)),
{
    if !path_under(root, abs) {
        return None;
    }
    let start = root.len();
    let ghost rel = abs@.skip(start as int);
    let mut out = String::new();
    let mut i: usize = start;
    while i < abs.len()
        invariant
            start <= i <= abs@.len(),
            rel == abs@.skip(start as int),
            out@ == url_of_components(rel.take(i - start)),
        decreases abs@.len() - i,
    {
        if i > start {
            push_char(&mut out, '/');
        }
        push_encoded_bytes(&mut out, abs[i].as_str().as_bytes());
        proof {
            let k = i - start;
            assert(rel.take(k + 1).drop_last() =~= rel.take(k));
            assert(rel.take(k + 1).last() == abs@[i as int]);
            assert(out@ =~= url_of_components(rel.take(k + 1)));
        }
        i = i + 1;
    }
    assert(rel.take(abs@.len() - start) =~= rel);
    Some(out)
}

} // verus!
