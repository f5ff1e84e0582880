//! Decimal / octal / hexadecimal conversions between integers and text.
use vstd::prelude::*;

use crate::text::{chars_vec, push_all, push_char};

verus! {

broadcast use vstd::string::group_string_axioms;

pub open spec fn is_digit(c: char) -> bool {
    '0' <= c && c <= '9'
}

pub open spec fn digit_val(c: char) -> nat {
    ((c as u32) - ('0' as u32)) as nat
}

/// Value of a run of decimal digits, most significant first.
pub open spec fn digits_value(s: Seq<char>) -> nat
    decreases s.len(),
{
    if s.len() == 0 {
        0
    } else {
        digits_value(s.drop_last()) * 10 + digit_val(s.last())
    }
}

pub open spec fn all_digits(s: Seq<char>) -> bool {
    forall|i: int| 0 <= i < s.len() ==> is_digit(#[trigger] s[i])
}

/// The digit run that `u64::from_str` reads: one optional leading `+` is
/// skipped.
pub open spec fn unsigned_digits(s: Seq<char>) -> Seq<char> {
    if s.len() > 0 && s[0] == '+' {
        s.drop_first()
    } else {
        s
    }
}

/// What `s.parse::<u64>()` gives: `Some` exactly when `s` is an optional
/// `+` followed by at least one ASCII digit and the value fits in a `u64`.
pub open spec fn parse_u64_spec(s: Seq<char>) -> Option<u64> {
    let d = unsigned_digits(s);
    if d.len() > 0 && all_digits(d) && digits_value(d) <= u64::MAX {
        Some(digits_value(d) as u64)
    } else {
        None
    }
}

proof fn lemma_digits_value_prefix_le(s: Seq<char>, i: int)
    requires
        0 <= i <= s.len(),
    ensures
        digits_value(s.take(i)) <= digits_value(s),
    decreases s.len() - i,
{
    if i < s.len() {
        lemma_digits_value_prefix_le(s.drop_last(), i);
        assert(s.drop_last().take(i) =~= s.take(i));
    } else {
        assert(s.take(i) =~= s);
    }
}

/// `s.parse::<u64>()` on the characters of `s`.
pub fn parse_u64(s: &[char]) -> (r: Option<u64>)
    ensures
        r == parse_u64_spec(s@),
{
    let n = s.len();
    let start: usize = if n > 0 && s[0] == '+' {
        1
    } else {
        0
    };
    let ghost d = unsigned_digits(s@);
    proof {
        if start == 1 {
            assert(d =~= s@.skip(1));
        } else {
            assert(d =~= s@.skip(0));
        }
    }
    if start == n {
        return None;
    }
    let mut acc: u64 = 0;
    let mut i: usize = start;
    while i < n
        invariant
            n == s@.len(),
            start <= i <= n,
            start < n,
            d == s@.skip(start as int),
            d == unsigned_digits(s@),
            all_digits(d.take(i - start)),
            acc == digits_value(d.take(i - start)),
        decreases n - i,
    {
        let c = s[i];
        assert(d[i - start] == c);
        if !('0' <= c && c <= '9') {
            assert(!is_digit(d[i - start]));
            assert(!all_digits(d));
            assert(d == unsigned_digits(s@));
            assert(parse_u64_spec(s@) is None);
            return None;
        }
        let dv: u64 = ((c as u32) - ('0' as u32)) as u64;
        let ghost k = (i - start) as int;
        proof {
            assert(d.take(k + 1).drop_last() =~= d.take(k));
            assert(d.take(k + 1).last() == c);
            assert(digit_val(c) == dv);
            assert(digits_value(d.take(k + 1)) == digits_value(d.take(k)) * 10 + dv);
        }
        match acc.checked_mul(10) {
            None => {
                proof {
                    lemma_digits_value_prefix_le(d, k + 1);
                }
                return None;
            },
            Some(m) => match m.checked_add(dv) {
                None => {
                    proof {
                        lemma_digits_value_prefix_le(d, k + 1);
                    }
                    return None;
                },
                Some(v) => {
                    acc = v;
                },
            },
        }
        i = i + 1;
        proof {
            assert forall|j: int| 0 <= j < i - start implies is_digit(#[trigger] d.take(i - start)[j]) by {
                if j < k {
                    assert(d.take(i - start)[j] == d.take(k)[j]);
                }
            }
        }
    }
    proof {
        assert(d.take(n - start) =~= d);
    }
    Some(acc)
}

/// What `s.parse::<u16>()` gives.
pub open spec fn parse_u16_spec(s: Seq<char>) -> Option<u16> {
    match parse_u64_spec(s) {
        Some(v) => if v <= u16::MAX {
            Some(v as u16)
        } else {
            None
        },
        None => None,
    }
}

/// `s.parse::<u16>()`.
pub fn parse_u16(s: &str) -> (r: Option<u16>)
    ensures
        r == parse_u16_spec(s@),
{
    let v = chars_vec(s);
    match parse_u64(v.as_slice()) {
        Some(n) => if n <= 65535 {
            Some(n as u16)
        } else {
            None
        },
        None => None,
    }
}

pub open spec fn digit_char(v: nat) -> char {
    (('0' as u32) + v) as char
}

/// Decimal text of `n`, without leading zeros.
pub open spec fn dec_str(n: nat) -> Seq<char>
    decreases n,
{
    if n < 10 {
        seq![digit_char(n)]
    } else {
        dec_str(n / 10).push(digit_char(n % 10))
    }
}

fn digit(v: u64) -> (c: char)
    requires
        v < 10,
    ensures
        c == digit_char(v as nat),
{
    let b: u8 = (48 + v) as u8;
    b as char
}

/// Decimal text of `n` (what `n.to_string()` gives).
pub fn dec_chars(n: u64) -> (r: Vec<char>)
    ensures
        r@ == dec_str(n as nat),
    decreases n,
{
    if n < 10 {
        let mut v: Vec<char> = Vec::new();
        v.push(digit(n));
        proof {
            assert(v@ =~= seq![digit_char(n as nat)]);
        }
        v
    } else {
        let mut v = dec_chars(n / 10);
        v.push(digit(n % 10));
        v
    }
}

/// `s` padded on the left with `c` up to `w` characters.
pub open spec fn pad_left(s: Seq<char>, w: nat, c: char) -> Seq<char> {
    if s.len() < w {
        Seq::new((w - s.len()) as nat, |_i: int| c) + s
    } else {
        s
    }
}

pub fn pad_left_vec(s: Vec<char>, w: usize, c: char) -> (r: Vec<char>)
    ensures
        r@ == pad_left(s@, w as nat, c),
{
    if s.len() >= w {
        return s;
    }
    let k = w - s.len();
    let mut out: Vec<char> = Vec::new();
    let mut i: usize = 0;
    while i < k
        invariant
            i <= k,
            out@ == Seq::new(i as nat, |_i: int| c),
        decreases k - i,
    {
        out.push(c);
        assert(out@ =~= Seq::new((i + 1) as nat, |_i: int| c));
        i = i + 1;
    }
    let mut j: usize = 0;
    let ghost pre = out@;
    while j < s.len()
        invariant
            j <= s@.len(),
            pre == Seq::new(k as nat, |_i: int| c),
            out@ == pre + s@.take(j as int),
        decreases s@.len() - j,
    {
        out.push(s[j]);
        assert(s@.take(j + 1) =~= s@.take(j as int).push(s@[j as int]));
        j = j + 1;
    }
    assert(s@.take(s@.len() as int) =~= s@);
    out
}

/// `s` padded on the right with `c` up to `w` characters.
pub open spec fn pad_right(s: Seq<char>, w: nat, c: char) -> Seq<char> {
    if s.len() < w {
        s + Seq::new((w - s.len()) as nat, |_i: int| c)
    } else {
        s
    }
}

/// Appends `s` to `out`, then `c` until `s` filled `w` characters.
pub fn push_padded_right(out: &mut String, s: &str, w: usize, c: char)
    ensures
        final(out)@ == old(out)@ + pad_right(s@, w as nat, c),
{
    let v = chars_vec(s);
    push_all(out, v.as_slice());
    let mut k: usize = v.len();
    let ghost base = out@;
    while k < w
        invariant
            v@ == s@,
            base == old(out)@ + s@,
            v@.len() <= k <= w || (k == v@.len() && k >= w),
            out@ == base + Seq::new((k - v@.len()) as nat, |_i: int| c),
        decreases w - k,
    {
        push_char(out, c);
        assert(out@ =~= base + Seq::new((k + 1 - v@.len()) as nat, |_i: int| c));
        k = k + 1;
    }
    assert(out@ =~= old(out)@ + pad_right(s@, w as nat, c));
}

/// Appends the decimal text of `n`.
pub fn push_dec(out: &mut String, n: u64)
    ensures
        final(out)@ == old(out)@ + dec_str(n as nat),
{
    let d = dec_chars(n);
    push_all(out, d.as_slice());
}

/// Appends the decimal text of `n` padded with zeros to two digits
/// (`{:02}`).
pub fn push_dec2(out: &mut String, n: u64)
    ensures
        final(out)@ == old(out)@ + pad_left(dec_str(n as nat), 2, '0'),
{
    let d = pad_left_vec(dec_chars(n), 2, '0');
    push_all(out, d.as_slice());
}

/// Octal text of `n`, without leading zeros.
pub open spec fn oct_str(n: nat) -> Seq<char>
    decreases n,
{
    if n < 8 {
        seq![digit_char(n)]
    } else {
        oct_str(n / 8).push(digit_char(n % 8))
    }
}

pub fn oct_chars(n: u64) -> (r: Vec<char>)
    ensures
        r@ == oct_str(n as nat),
    decreases n,
{
    if n < 8 {
        let mut v: Vec<char> = Vec::new();
        v.push(digit(n));
        proof {
            assert(v@ =~= seq![digit_char(n as nat)]);
        }
        v
    } else {
        let mut v = oct_chars(n / 8);
        v.push(digit(n % 8));
        v
    }
}

/// Hex digit for a nibble, in the requested case.
pub open spec fn hex_digit(v: nat, upper: bool) -> char {
    if v < 10 {
        digit_char(v)
    } else if upper {
        (('A' as u32) + (v - 10)) as char
    } else {
        (('a' as u32) + (v - 10)) as char
    }
}

pub fn hex_digit_char(v: u8, upper: bool) -> (c: char)
    requires
        v < 16,
    ensures
        c == hex_digit(v as nat, upper),
{
    if v < 10 {
        ((48 + v) as u8) as char
    } else if upper {
        ((65 + v - 10) as u8) as char
    } else {
        ((97 + v - 10) as u8) as char
    }
}

/// The two-character hex form of a byte (`{:02X}` / `{:02x}`).
pub open spec fn hex_byte(b: u8, upper: bool) -> Seq<char> {
    seq![hex_digit((b / 16) as nat, upper), hex_digit((b % 16) as nat, upper)]
}

} // verus!
