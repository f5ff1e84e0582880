//! HTTP Range header parsing.
//!
//! Supports `bytes=start-end`, `bytes=start-`, `bytes=-suffix`.
//! Multi-range (`bytes=0-100,200-300`) is rejected — the client should issue
//! a fresh range request if needed.
use vstd::prelude::*;

use crate::num::{parse_u64, parse_u64_spec};
use crate::text::{
    chars_vec, find_char, first_pos, has_char, has_prefix_at, starts_with, sub_vec, trim,
    trim_bounds,
};

verus! {

#[derive(Debug, Clone, Copy, PartialEq, Eq)]
pub struct RangeSpec {
    pub start: u64,
    /// Inclusive end. None means read to EOF.
    pub end: Option<u64>,
    pub length: u64,
}

pub open spec fn bytes_unit() -> Seq<char> {
    seq!['b', 'y', 't', 'e', 's', '=']
}

/// The `(start, end)` texts of a single-range header: the header is trimmed,
/// must begin with `bytes=`, must hold no `,`, and is split at its first `-`.
pub open spec fn range_parts(h: Seq<char>) -> Option<(Seq<char>, Seq<char>)> {
    let t = trim(h);
    if !starts_with(t, bytes_unit()) {
        None
    } else {
        let rest = t.skip(6);
        if has_char(rest, ',') || !has_char(rest, '-') {
            None
        } else {
            let k = first_pos(rest, '-');
            Some((rest.take(k), rest.skip(k + 1)))
        }
    }
}

pub open spec fn min_u64(a: u64, b: u64) -> u64 {
    if a <= b {
        a
    } else {
        b
    }
}

/// The range a header selects in a file of `size` bytes, if it is
/// satisfiable.
pub open spec fn range_of(h: Seq<char>, size: u64) -> Option<RangeSpec> {
    match range_parts(h) {
        None => None,
        Some((s, e)) => {
            if s.len() == 0 {
                // Suffix form: the last `n` bytes.
                match parse_u64_spec(e) {
                    None => None,
                    Some(n) => if n == 0 {
                        None
                    } else {
                        let n2 = min_u64(n, size);
                        Some(
                            RangeSpec {
                                start: (size - n2) as u64,
                                end: Some((size - 1) as u64),
                                length: n2,
                            },
                        )
                    },
                }
            } else {
                match parse_u64_spec(s) {
                    None => None,
                    Some(start) => {
                        let end_opt = if e.len() == 0 {
                            Some(if size == 0 { 0u64 } else { (size - 1) as u64 })
                        } else {
                            parse_u64_spec(e)
                        };
                        match end_opt {
                            None => None,
                            Some(end) => if start > end || start >= size {
                                None
                            } else {
                                let end2 = min_u64(end, (size - 1) as u64);
                                Some(
                                    RangeSpec {
                                        start,
                                        end: Some(end2),
                                        length: (end2 - start + 1) as u64,
                                    },
                                )
                            },
                        }
                    },
                }
            }
        },
    }
}

/// A suffix request (`bytes=-N`, N > 0): it has no answer for an empty file.
pub open spec fn is_positive_suffix(h: Seq<char>) -> bool {
    match range_parts(h) {
        Some((s, e)) => s.len() == 0 && (parse_u64_spec(e) matches Some(n) && n > 0),
        None => false,
    }
}

/// The `(start, end)` texts of a single-range header, if it has them.
fn split_range(header: &str) -> (r: Option<(Vec<char>, Vec<char>)>)
    ensures
        match r {
            Some((a, b)) => range_parts(header@) == Some((a@, b@)),
            None => range_parts(header@) is None,
        },
{
    let cs = chars_vec(header);
    let (ts, te) = trim_bounds(cs.as_slice());
    let t = sub_vec(cs.as_slice(), ts, te);
    let ghost tv = trim(header@);
    assert(t@ == tv);
    let unit: Vec<char> = vec!['b', 'y', 't', 'e', 's', '='];
    assert(unit@ =~= bytes_unit());
    assert(t@.skip(0) =~= t@);
    if !has_prefix_at(t.as_slice(), 0, unit.as_slice()) {
        return None;
    }
    let rest = sub_vec(t.as_slice(), 6, t.len());
    assert(rest@ =~= tv.skip(6));
    if find_char(rest.as_slice(), ',').is_some() {
        return None;
    }
    let k = match find_char(rest.as_slice(), '-') {
        None => {
            return None;
        },
        Some(k) => k,
    };
    let start_s = sub_vec(rest.as_slice(), 0, k);
    let end_s = sub_vec(rest.as_slice(), k + 1, rest.len());
    assert(start_s@ =~= rest@.take(k as int));
    assert(end_s@ =~= rest@.skip(k + 1));
    Some((start_s, end_s))
}

/// Whether `header` asks for the last N > 0 bytes (`bytes=-N`), which an
/// empty file cannot answer.
pub fn is_positive_suffix_header(header: &str) -> (r: bool)
    ensures
        r == is_positive_suffix(header@),
{
    match split_range(header) {
        None => false,
        Some((s, e)) => {
            if s.len() != 0 {
                return false;
            }
            match parse_u64(e.as_slice()) {
                Some(n) => n > 0,
                None => false,
            }
        },
    }
}

impl RangeSpec {
    /// Parses a `Range` header against a file of `file_size` bytes.
    /// `None` for anything malformed, multi-range or unsatisfiable.
    pub fn parse(header: &str, file_size: u64) -> (r: Option<RangeSpec>)
        requires
            file_size > 0 || !is_positive_suffix(header@),
        ensures
            r == range_of(header@, file_size),
    {
        let cs = chars_vec(header);
        let (ts, te) = trim_bounds(cs.as_slice());
        let t = sub_vec(cs.as_slice(), ts, te);
        let ghost tv = trim(header@);
        assert(t@ == tv);
        let unit: Vec<char> = vec!['b', 'y', 't', 'e', 's', '='];
        assert(unit@ =~= bytes_unit());
        if !has_prefix_at(t.as_slice(), 0, unit.as_slice()) {
            assert(t@.skip(0) =~= t@);
            return None;
        }
        assert(t@.skip(0) =~= t@);
        let rest = sub_vec(t.as_slice(), 6, t.len());
        assert(rest@ =~= tv.skip(6));
        if find_char(rest.as_slice(), ',').is_some() {
            return None;
        }
        let k = match find_char(rest.as_slice(), '-') {
            None => {
                return None;
            },
            Some(k) => k,
        };
        let start_s = sub_vec(rest.as_slice(), 0, k);
        let end_s = sub_vec(rest.as_slice(), k + 1, rest.len());
        assert(start_s@ =~= rest@.take(k as int));
        assert(end_s@ =~= rest@.skip(k + 1));
        if start_s.len() == 0 {
            let n = match parse_u64(end_s.as_slice()) {
                None => {
                    return None;
                },
                Some(n) => n,
            };
            if n == 0 {
                return None;
            }
            let n2 = if n < file_size {
                n
            } else {
                file_size
            };
            let start = file_size - n2;
            return Some(RangeSpec { start, end: Some(file_size - 1), length: n2 });
        }
        let start = match parse_u64(start_s.as_slice()) {
            None => {
                return None;
            },
            Some(v) => v,
        };
        let end: u64 = if end_s.len() == 0 {
            file_size.saturating_sub(1)
        } else {
            match parse_u64(end_s.as_slice()) {
                None => {
                    return None;
                },
                Some(v) => v,
            }
        };
        if start > end || start >= file_size {
            return None;
        }
        let end2 = if end < file_size - 1 {
            end
        } else {
            file_size - 1
        };
        Some(RangeSpec { start, end: Some(end2), length: end2 - start + 1 })
    }
}

/// Every range that `parse` accepts lies inside the file: it starts before
/// the end of the file, covers at least one byte, and its inclusive end is
/// `start + length - 1 < file_size`.
pub proof fn range_within_file(h: Seq<char>, size: u64)
    requires
        size > 0 || !is_positive_suffix(h),
    ensures
        range_of(h, size) matches Some(r) ==> {
            &&& r.length >= 1
            &&& r.start < size
            &&& r.start + r.length <= size
            &&& r.end == Some((r.start + r.length - 1) as u64)
        },
{
}

} // verus!
