//! The dashboards' tiny HTTP/1.1 client for the local server's JSON
//! endpoints: where to connect, what to send, where the JSON starts in
//! the answer. The socket is the caller's part.
use vstd::prelude::*;

use crate::error::text_of;
use crate::text::{chars_vec, find_char, has_char, has_prefix_at, push_str, starts_with, string_from_chars, sub_vec};

verus! {

broadcast use vstd::string::group_string_axioms;

/// `url` without its `http://` or `https://` scheme.
pub open spec fn without_scheme(url: Seq<char>) -> Seq<char> {
    if starts_with(url, "http://"@) {
        url.skip(7)
    } else if starts_with(url, "https://"@) {
        url.skip(8)
    } else {
        url
    }
}

/// Where a GET of `url` goes: `(host:port, path)`. The host part is what
/// precedes the first `/` and must not be empty; the path is the rest,
/// `/` when there is none.
pub open spec fn target_of(url: Seq<char>) -> Option<(Seq<char>, Seq<char>)> {
    let w = without_scheme(url);
    if has_char(w, '/') {
        let k = crate::text::first_pos(w, '/');
        if k == 0 {
            None
        } else {
            Some((w.take(k), w.skip(k)))
        }
    } else if w.len() == 0 {
        None
    } else {
        Some((w, "/"@))
    }
}

fn strip_scheme(v: &Vec<char>) -> (r: Vec<char>)
    ensures
        r@ == without_scheme(v@),
{
    let http = chars_vec("http://");
    let https = chars_vec("https://");
    assert(v@.skip(0) =~= v@);
    proof {
        reveal_strlit("http://");
        reveal_strlit("https://");
    }
    if has_prefix_at(v.as_slice(), 0, http.as_slice()) {
        sub_vec(v.as_slice(), 7, v.len())
    } else if has_prefix_at(v.as_slice(), 0, https.as_slice()) {
        sub_vec(v.as_slice(), 8, v.len())
    } else {
        sub_vec(v.as_slice(), 0, v.len())
    }
}

/// The host and path a GET of `url` uses; `bad url` when it names no host.
pub fn http_target(url: &str) -> (r: Result<(String, String), String>)
    ensures
        match target_of(url@) {
            Some((h, p)) => r matches Ok((hs, ps)) && hs@ == h && ps@ == p,
            None => r matches Err(e) && e@ == "bad url"@,
        },
{
    let v = chars_vec(url);
    let w = strip_scheme(&v);
    match find_char(w.as_slice(), '/') {
        Some(k) => {
            proof {
                crate::text::lemma_first_pos_unique(w@, '/', k as int);
            }
            if k == 0 {
                return Err(text_of("bad url"));
            }
            let host = sub_vec(w.as_slice(), 0, k);
            let path = sub_vec(w.as_slice(), k, w.len());
            Ok((string_from_chars(host.as_slice()), string_from_chars(path.as_slice())))
        },
        None => {
            if w.len() == 0 {
                return Err(text_of("bad url"));
            }
            Ok((string_from_chars(w.as_slice()), text_of("/")))
        },
    }
}

/// The request text of a GET of `path` from `host_port`.
pub fn get_request(host_port: &str, path: &str) -> (r: String)
    ensures
        r@ == "GET "@ + path@ + " HTTP/1.1\r\nHost: "@ + host_port@
            + "\r\nConnection: close\r\nUser-Agent: qshare\r\n\r\n"@,
{
    let mut s = text_of("GET ");
    push_str(&mut s, path);
    push_str(&mut s, " HTTP/1.1\r\nHost: ");
    push_str(&mut s, host_port);
    push_str(&mut s, "\r\nConnection: close\r\nUser-Agent: qshare\r\n\r\n");
    s
}

/// `\r\n\r\n` starts at `i` in `b`.
pub open spec fn blank_line_at(b: Seq<u8>, i: int) -> bool {
    0 <= i && i + 4 <= b.len() && b[i] == 13 && b[i + 1] == 10 && b[i + 2] == 13 && b[i + 3] == 10
}

/// The first byte of `b` at or after `from` that opens a JSON object or
/// array.
pub open spec fn json_open_at(b: Seq<u8>, i: int) -> bool {
    b[i] == 123 || b[i] == 91
}

/// Where the JSON value of an HTTP answer starts: after the first blank
/// line, at the first `{` or `[` of the body (the body's start when it has
/// none); `None` when the answer has no blank line.
pub open spec fn json_start_of(b: Seq<u8>) -> Option<int> {
    if exists|i: int| #[trigger] blank_line_at(b, i) {
        let s = choose|i: int| blank_line_at(b, i) && forall|j: int| 0 <= j < i ==> !blank_line_at(b, j);
        if exists|k: int| s + 4 <= k < b.len() && #[trigger] json_open_at(b, k) {
            Some(choose|k: int| s + 4 <= k < b.len() && json_open_at(b, k) && forall|j: int| s + 4 <= j < k ==> !json_open_at(b, j))
        } else {
            Some(s + 4)
        }
    } else {
        None
    }
}

proof fn lemma_first_sep(b: Seq<u8>, sep: int)
    requires
        blank_line_at(b, sep),
        forall|j: int| 0 <= j < sep ==> !blank_line_at(b, j),
    ensures
        (choose|i: int| blank_line_at(b, i) && forall|j: int| 0 <= j < i ==> !blank_line_at(b, j)) == sep,
{
    let s = choose|i: int| blank_line_at(b, i) && forall|j: int| 0 <= j < i ==> !blank_line_at(b, j);
    assert(blank_line_at(b, s) && forall|j: int| 0 <= j < s ==> !blank_line_at(b, j));
    if s < sep {
        assert(!blank_line_at(b, s));
    } else if s > sep {
        assert(!blank_line_at(b, sep));
    }
}

/// Index in `buf` where the answer's JSON starts; `no body separator`
/// when the answer has no blank line.
pub fn json_body_start(buf: &[u8]) -> (r: Result<usize, String>)
    ensures
        match json_start_of(buf@) {
            Some(i) => r == Ok::<usize, String>(i as usize),
            None => r matches Err(e) && e@ == "no body separator"@,
        },
{
    let n = buf.len();
    let mut i: usize = 0;
    loop
        invariant
            n == buf@.len(),
            i <= n,
            forall|j: int| 0 <= j < i ==> !blank_line_at(buf@, j),
        ensures
            i + 4 <= n,
            blank_line_at(buf@, i as int),
            forall|j: int| 0 <= j < i ==> !blank_line_at(buf@, j),
        decreases n - i,
    {
        if n - i < 4 {
            assert(!exists|j: int| #[trigger] blank_line_at(buf@, j)) by {
                assert forall|j: int| #![auto] !blank_line_at(buf@, j) by {
                    if 0 <= j < i {
                    }
                }
            }
            return Err(text_of("no body separator"));
        }
        if buf[i] == 13 && buf[i + 1] == 10 && buf[i + 2] == 13 && buf[i + 3] == 10 {
            break;
        }
        i = i + 1;
    }
    let sep = i;
    assert(blank_line_at(buf@, sep as int));
    let start = sep + 4;
    let mut k: usize = start;
    while k < n
        invariant
            n == buf@.len(),
            start == sep + 4,
            sep + 4 <= n,
            blank_line_at(buf@, sep as int),
            forall|j: int| 0 <= j < sep ==> !blank_line_at(buf@, j),
            start <= k <= n,
            forall|j: int| start <= j < k ==> !json_open_at(buf@, j),
        decreases n - k,
    {
        if buf[k] == 123 || buf[k] == 91 {
            proof {
                lemma_first_sep(buf@, sep as int);
                assert(json_open_at(buf@, k as int));
                let kk = choose|kk: int| start <= kk < buf@.len() && json_open_at(buf@, kk) && forall|j: int| start <= j < kk ==> !json_open_at(buf@, j);
                assert(kk == k) by {
                    if kk < k {
                        assert(!json_open_at(buf@, kk));
                    } else if kk > k {
                        assert(!json_open_at(buf@, k as int));
                    }
                }
            }
            return Ok(k);
        }
        k = k + 1;
    }
    proof {
        lemma_first_sep(buf@, sep as int);
    }
    Ok(start)
}

} // verus!
