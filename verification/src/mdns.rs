//! Names the server advertises over mDNS (`_qshare._tcp.local.`). The
//! responder itself is the caller's part.
use vstd::prelude::*;

use crate::error::text_of;
use crate::text::{chars_vec, push_char, push_str, sub_vec};

verus! {

broadcast use vstd::string::group_string_axioms;

/// Whether `c` is alphabetic or numeric in Unicode.
pub uninterp spec fn alphanumeric(c: char) -> bool;

/// Calls `char::is_alphanumeric`; its value is named, not stated (it
/// follows the Unicode tables).
#[verifier::external_body]
fn is_alphanumeric(c: char) -> (r: bool)
    ensures
        r == alphanumeric(c),
{
    c.is_alphanumeric()
}

/// `s` with every trailing repetition of the non-empty `p` removed
/// (`str::trim_end_matches`).
pub open spec fn strip_suffixes(s: Seq<char>, p: Seq<char>) -> Seq<char>
    decreases s.len(),
{
    if p.len() > 0 && p.len() <= s.len() && s.skip(s.len() - p.len()) == p {
        strip_suffixes(s.take(s.len() - p.len()), p)
    } else {
        s
    }
}

fn ends_with_at(s: &Vec<char>, n: usize, p: &Vec<char>) -> (r: bool)
    requires
        n <= s@.len(),
    ensures
        r == (p@.len() <= n && s@.take(n as int).skip(n - p@.len()) == p@),
{
    if p.len() > n {
        return false;
    }
    let base = n - p.len();
    let mut i: usize = 0;
    while i < p.len()
        invariant
            p@.len() <= n <= s@.len(),
            base == n - p@.len(),
            i <= p@.len(),
            forall|j: int| 0 <= j < i ==> s@[base + j] == p@[j],
        decreases p@.len() - i,
    {
        if s[base + i] != p[i] {
            assert(s@.take(n as int).skip(n - p@.len())[i as int] != p@[i as int]);
            return false;
        }
        i = i + 1;
    }
    assert(s@.take(n as int).skip(n - p@.len()) =~= p@);
    true
}

/// Length of `s` after `strip_suffixes(s, p)`.
fn strip_len(s: &Vec<char>, p: &Vec<char>) -> (r: usize)
    ensures
        r <= s@.len(),
        s@.take(r as int) == strip_suffixes(s@, p@),
{
    let mut n = s.len();
    assert(s@.take(n as int) =~= s@);
    loop
        invariant
            n <= s@.len(),
            strip_suffixes(s@.take(n as int), p@) == strip_suffixes(s@, p@),
        decreases n,
    {
        if p.len() > 0 && ends_with_at(s, n, p) {
            let m = n - p.len();
            assert(s@.take(n as int).take(m as int) =~= s@.take(m as int));
            n = m;
        } else {
            return n;
        }
    }
}

/// The DNS label of the machine: `raw` without trailing `.local.` and then
/// `.local`, every character other than a letter, digit or `-` replaced by
/// `-`; `qshare` when nothing is left.
pub open spec fn host_label(raw: Seq<char>) -> Seq<char> {
    let t = strip_suffixes(strip_suffixes(raw, ".local."@), ".local"@);
    if t.len() == 0 {
        "qshare"@
    } else {
        t.map_values(|c: char| if alphanumeric(c) || c == '-' {
            c
        } else {
            '-'
        })
    }
}

pub fn sanitize_hostname(raw: &str) -> (r: String)
    ensures
        r@ == host_label(raw@),
{
    let v = chars_vec(raw);
    let p1 = chars_vec(".local.");
    let n1 = strip_len(&v, &p1);
    let t1 = sub_vec(v.as_slice(), 0, n1);
    let p2 = chars_vec(".local");
    let n2 = strip_len(&t1, &p2);
    assert(t1@ == v@.take(n1 as int));
    if n2 == 0 {
        return text_of("qshare");
    }
    let mut out = String::new();
    let mut i: usize = 0;
    while i < n2
        invariant
            i <= n2 <= t1@.len(),
            out@ == t1@.take(i as int).map_values(|c: char| if alphanumeric(c) || c == '-' {
                c
            } else {
                '-'
            }),
        decreases n2 - i,
    {
        let c = t1[i];
        let d = if is_alphanumeric(c) || c == '-' {
            c
        } else {
            '-'
        };
        push_char(&mut out, d);
        assert(t1@.take(i + 1).map_values(|c: char| if alphanumeric(c) || c == '-' {
            c
        } else {
            '-'
        }) =~= t1@.take(i as int).map_values(|c: char| if alphanumeric(c) || c == '-' {
            c
        } else {
            '-'
        }).push(d));
        i = i + 1;
    }
    assert(t1@.take(n2 as int) == strip_suffixes(t1@, ".local"@));
    out
}

/// The mDNS instance name: `qshare-<host>`.
pub fn instance_name(host: &str) -> (r: String)
    ensures
        r@ == "qshare-"@ + host@,
{
    let mut s = text_of("qshare-");
    push_str(&mut s, host);
    s
}

/// The mDNS host name: `<host>.local.`.
pub fn service_host(host: &str) -> (r: String)
    ensures
        r@ == host@ + ".local."@,
{
    let mut s = text_of(host);
    push_str(&mut s, ".local.");
    s
}

/// Short label for a shared directory given by its path components: its
/// file name (the last component), or `share` when it has none (the
/// file-system root, or a path ending in `..`).
pub fn root_label(root: &Vec<String>) -> (r: String)
    ensures
        root@.len() > 0 && root@.last()@ != ".."@ ==> r@ == root@.last()@,
        root@.len() == 0 || root@.last()@ == ".."@ ==> r@ == "share"@,
{
    if root.len() == 0 {
        return text_of("share");
    }
    let last = &root[root.len() - 1];
    let v = chars_vec(last.as_str());
    proof {
        reveal_strlit("..");
    }
    if v.len() == 2 && v[0] == '.' && v[1] == '.' {
        assert(v@ =~= ".."@);
        text_of("share")
    } else {
        proof {
            if last@ == ".."@ {
                assert(v@[0] == '.' && v@[1] == '.');
            }
        }
        last.clone()
    }
}

} // verus!
