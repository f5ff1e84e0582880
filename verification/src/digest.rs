//! Content digests (MD5, SHA-256) and their lower-case hex text.
use vstd::prelude::*;

use md5::Digest;

use crate::num::{hex_byte, hex_digit_char};
use crate::text::push_char;

verus! {

broadcast use vstd::string::group_string_axioms;

/// The MD5 digest of `data`.
pub uninterp spec fn md5_of(data: Seq<u8>) -> Seq<u8>;

/// The SHA-256 digest of `data`.
pub uninterp spec fn sha256_of(data: Seq<u8>) -> Seq<u8>;

/// Calls `md5::Md5::digest` (the `md-5` crate's one-shot `Digest::digest`)
/// on `data`. The result is the 16-byte MD5 digest of the bytes, named
/// `md5_of`; MD5's output is 128 bits.
#[verifier::external_body]
fn md5_digest(data: &[u8]) -> (r: Vec<u8>)
    ensures
        r@ == md5_of(data@),
        r@.len() == 16,
{
    md5::Md5::digest(data).to_vec()
}

/// Calls `sha2::Sha256::digest` (one-shot `Digest::digest`) on `data`. The
/// result is the 32-byte SHA-256 digest of the bytes, named `sha256_of`;
/// SHA-256's output is 256 bits.
#[verifier::external_body]
fn sha256_digest(data: &[u8]) -> (r: Vec<u8>)
    ensures
        r@ == sha256_of(data@),
        r@.len() == 32,
{
    sha2::Sha256::digest(data).to_vec()
}

/// Lower-case hex of a byte string, two digits per byte (`{:x}` of a
/// digest).
pub open spec fn hex_lower(bs: Seq<u8>) -> Seq<char>
    decreases bs.len(),
{
    if bs.len() == 0 {
        Seq::empty()
    } else {
        hex_lower(bs.drop_last()) + hex_byte(bs.last(), false)
    }
}

/// Lower-case hex of the first `n` bytes of `bs`.
pub fn hex_prefix(bs: &[u8], n: usize) -> (r: String)
    requires
        n <= bs@.len(),
    ensures
        r@ == hex_lower(bs@.take(n as int)),
{
    let mut out = String::new();
    let mut i: usize = 0;
    while i < n
        invariant
            i <= n <= bs@.len(),
            out@ == hex_lower(bs@.take(i as int)),
        decreases n - i,
    {
        let b = bs[i];
        push_char(&mut out, hex_digit_char(b / 16, false));
        push_char(&mut out, hex_digit_char(b % 16, false));
        assert(bs@.take(i + 1).drop_last() =~= bs@.take(i as int));
        assert(out@ =~= hex_lower(bs@.take(i + 1)));
        i = i + 1;
    }
    out
}

/// Lower-case hex of all of `bs`.
pub fn hex_string(bs: &[u8]) -> (r: String)
    ensures
        r@ == hex_lower(bs@),
{
    let r = hex_prefix(bs, bs.len());
    assert(bs@.take(bs@.len() as int) =~= bs@);
    r
}

/// The digest algorithms `/api/hash` offers.
#[derive(Clone, Copy, Debug, PartialEq, Eq, Structural)]
pub enum HashAlgo {
    Md5,
    Sha256,
}

/// `sha256` selects SHA-256; anything else, or nothing, MD5.
pub open spec fn algo_of(name: Option<Seq<char>>) -> HashAlgo {
    if name == Some("sha256"@) {
        HashAlgo::Sha256
    } else {
        HashAlgo::Md5
    }
}

pub fn parse_algo(name: Option<&str>) -> (r: HashAlgo)
    ensures
        r == algo_of(match name {
            Some(s) => Some(s@),
            None => None,
        }),
{
    match name {
        Some(s) => {
            let v = crate::text::chars_vec(s);
            let w = crate::text::chars_vec("sha256");
            if crate::text::chars_eq(v.as_slice(), w.as_slice()) {
                HashAlgo::Sha256
            } else {
                HashAlgo::Md5
            }
        },
        None => HashAlgo::Md5,
    }
}

/// The digest of `data` under `algo`.
pub open spec fn digest_of(algo: HashAlgo, data: Seq<u8>) -> Seq<u8> {
    match algo {
        HashAlgo::Md5 => md5_of(data),
        HashAlgo::Sha256 => sha256_of(data),
    }
}

/// Hex text of the digest of `data`.
pub fn digest_hex(algo: HashAlgo, data: &[u8]) -> (r: String)
    ensures
        r@ == hex_lower(digest_of(algo, data@)),
{
    let d = match algo {
        HashAlgo::Md5 => md5_digest(data),
        HashAlgo::Sha256 => sha256_digest(data),
    };
    hex_string(d.as_slice())
}

/// SHA-256 of `data`, as bytes.
pub fn sha256_bytes(data: &[u8]) -> (r: Vec<u8>)
    ensures
        r@ == sha256_of(data@),
        r@.len() == 32,
{
    sha256_digest(data)
}

} // verus!
