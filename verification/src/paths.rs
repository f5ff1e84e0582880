//! Absolute paths as lists of components, and their text form.
use vstd::prelude::*;

use crate::text::{
    chars_vec, find_char, first_pos, has_char, is_first_pos, lemma_first_pos_unique, push_char,
    push_str, string_from_chars, sub_vec,
};

verus! {

broadcast use vstd::string::group_string_axioms;

/// A segment that `Path::components` keeps (not empty, not `.`).
pub open spec fn keep_segment(s: Seq<char>) -> bool {
    s.len() > 0 && s != seq!['.']
}

pub proof fn lemma_first_pos_exists(s: Seq<char>, c: char)
    requires
        has_char(s, c),
    ensures
        is_first_pos(s, c, first_pos(s, c)),
    decreases s.len(),
{
    let k = choose|k: int| 0 <= k < s.len() && s[k] == c;
    lemma_least_pos(s, c, k);
}

pub proof fn lemma_least_pos(s: Seq<char>, c: char, k: int)
    requires
        0 <= k < s.len(),
        s[k] == c,
    ensures
        is_first_pos(s, c, first_pos(s, c)),
    decreases k,
{
    if forall|j: int| 0 <= j < k ==> s[j] != c {
        lemma_first_pos_unique(s, c, k);
    } else {
        let j = choose|j: int| 0 <= j < k && s[j] == c;
        lemma_least_pos(s, c, j);
    }
}

/// The components of a relative path, as `Path::components` yields them on
/// Unix: split at every `/`, leaving out empty and `.` segments.
pub open spec fn components_of(s: Seq<char>) -> Seq<Seq<char>>
    decreases s.len(),
{
    if !has_char(s, '/') {
        if keep_segment(s) {
            seq![s]
        } else {
            Seq::empty()
        }
    } else {
        proof {
            lemma_first_pos_exists(s, '/');
        }
        let k = first_pos(s, '/');
        let rest = components_of(s.skip(k + 1));
        if keep_segment(s.take(k)) {
            seq![s.take(k)] + rest
        } else {
            rest
        }
    }
}

/// Text of an absolute path given by its components: `/` when there are
/// none, else each component preceded by `/`.
pub open spec fn slashed(c: Seq<Seq<char>>) -> Seq<char>
    decreases c.len(),
{
    if c.len() == 0 {
        Seq::empty()
    } else {
        slashed(c.drop_last()) + seq!['/'] + c.last()
    }
}

pub open spec fn path_text(c: Seq<Seq<char>>) -> Seq<char> {
    if c.len() == 0 {
        seq!['/']
    } else {
        slashed(c)
    }
}

/// The character views of a list of strings.
pub open spec fn views(v: Seq<String>) -> Seq<Seq<char>> {
    v.map_values(|s: String| s@)
}

/// Splits a relative path into its components.
pub fn split_components(s: &str) -> (r: Vec<String>)
    ensures
        views(r@) == components_of(s@),
{
    let mut rest = chars_vec(s);
    let mut out: Vec<String> = Vec::new();
    loop
        invariant
            components_of(s@) == views(out@) + components_of(rest@),
        decreases rest@.len(),
    {
        let ghost before = out@;
        match find_char(rest.as_slice(), '/') {
            None => {
                let keep = rest.len() > 0 && !(rest.len() == 1 && rest[0] == '.');
                proof {
                    if rest@ == seq!['.'] {
                        assert(rest@[0] == '.');
                    }
                    if rest@.len() == 1 && rest@[0] == '.' {
                        assert(rest@ =~= seq!['.']);
                    }
                }
                if keep {
                    out.push(string_from_chars(rest.as_slice()));
                    assert(views(out@) =~= views(before) + seq![rest@]);
                } else {
                    assert(views(out@) =~= views(before) + Seq::<Seq<char>>::empty());
                }
                return out;
            },
            Some(k) => {
                let n = rest.len();
                assert(k < n);
                let seg = sub_vec(rest.as_slice(), 0, k);
                let tail = sub_vec(rest.as_slice(), k + 1, n);
                assert(seg@ =~= rest@.take(k as int));
                assert(tail@ =~= rest@.skip(k + 1));
                let keep = seg.len() > 0 && !(seg.len() == 1 && seg[0] == '.');
                proof {
                    if seg@ == seq!['.'] {
                        assert(seg@[0] == '.');
                    }
                    if seg@.len() == 1 && seg@[0] == '.' {
                        assert(seg@ =~= seq!['.']);
                    }
                }
                if keep {
                    out.push(string_from_chars(seg.as_slice()));
                    assert(views(out@) =~= views(before) + seq![seg@]);
                } else {
                    assert(views(out@) =~= views(before));
                }
                rest = tail;
            },
        }
    }
}

/// The text form of an absolute path made of `prefix` followed by `more`.
pub fn path_text_of(prefix: &Vec<String>, more: &Vec<String>) -> (r: String)
    ensures
        r@ == path_text(views(prefix@) + views(more@)),
{
    let ghost all = views(prefix@) + views(more@);
    let mut out = String::new();
    let mut i: usize = 0;
    while i < prefix.len()
        invariant
            i <= prefix@.len(),
            all == views(prefix@) + views(more@),
            out@ == slashed(all.take(i as int)),
        decreases prefix@.len() - i,
    {
        push_char(&mut out, '/');
        push_str(&mut out, prefix[i].as_str());
        proof {
            assert(all.take(i + 1).drop_last() =~= all.take(i as int));
            assert(all.take(i + 1).last() == prefix@[i as int]@);
        }
        i = i + 1;
    }
    let n = prefix.len();
    let mut j: usize = 0;
    while j < more.len()
        invariant
            n == prefix@.len(),
            j <= more@.len(),
            all == views(prefix@) + views(more@),
            out@ == slashed(all.take(n + j)),
        decreases more@.len() - j,
    {
        push_char(&mut out, '/');
        push_str(&mut out, more[j].as_str());
        proof {
            assert(all.take(n + j + 1).drop_last() =~= all.take(n + j));
            assert(all.take(n + j + 1).last() == more@[j as int]@);
        }
        j = j + 1;
    }
    assert(all.take(n + j) =~= all);
    if n == 0 && more.len() == 0 {
        push_char(&mut out, '/');
        assert(out@ =~= seq!['/']);
    }
    out
}

} // verus!
