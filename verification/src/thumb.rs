//! Thumbnails: the `/api/thumb` parameters, the on-disk cache key, and
//! the resize → JPEG pipeline around the `image` crate.
use vstd::prelude::*;
use vstd::utf8::encode_utf8;

use crate::digest::{hex_lower, hex_prefix, sha256_bytes, sha256_of};
use crate::error::text_of;
use crate::text::push_str;

verus! {

broadcast use vstd::string::group_string_axioms;

/// Widest thumbnail served.
pub const MAX_WIDTH: u32 = 1024;

/// Width used when none (or zero) is asked for.
pub const DEFAULT_WIDTH: u32 = 320;

#[derive(Debug)]
pub struct ThumbQuery {
    pub path: String,
    pub w: Option<u32>,
}

impl ThumbQuery {
    /// The requested width (default 320) within 16..=1024.
    pub fn max_width(&self) -> (r: u32)
        ensures
            r as int == (match self.w {
                Some(v) => if v < 16 {
                    16
                } else if v > MAX_WIDTH {
                    MAX_WIDTH
                } else {
                    v
                },
                None => DEFAULT_WIDTH,
            }),
            16 <= r <= MAX_WIDTH,
    {
        match self.w {
            Some(v) => if v < 16 {
                16
            } else if v > MAX_WIDTH {
                MAX_WIDTH
            } else {
                v
            },
            None => DEFAULT_WIDTH,
        }
    }
}

/// Little-endian bytes of `v`, `n` of them.
pub open spec fn le_bytes(v: nat, n: nat) -> Seq<u8>
    decreases n,
{
    if n == 0 {
        Seq::empty()
    } else {
        seq![(v % 256) as u8] + le_bytes(v / 256, (n - 1) as nat)
    }
}

fn push_le(out: &mut Vec<u8>, v: u64, n: usize)
    requires
        n <= 8,
    ensures
        final(out)@ == old(out)@ + le_bytes(v as nat, n as nat),
{
    let mut x = v;
    let mut i: usize = 0;
    while i < n
        invariant
            i <= n <= 8,
            old(out)@ + le_bytes(v as nat, n as nat) == out@ + le_bytes(x as nat, (n - i) as nat),
        decreases n - i,
    {
        let ghost before = out@;
        out.push((x % 256) as u8);
        assert(le_bytes(x as nat, (n - i) as nat) =~= seq![(x % 256) as u8] + le_bytes(
            (x / 256) as nat,
            (n - i - 1) as nat,
        ));
        assert(out@ + le_bytes((x / 256) as nat, (n - i - 1) as nat) =~= before + le_bytes(
            x as nat,
            (n - i) as nat,
        ));
        x = x / 256;
        i = i + 1;
    }
    assert(out@ =~= out@ + le_bytes(x as nat, 0));
}

/// The bytes hashed into a cache key: the path's UTF-8, `|`, the mtime
/// (8 bytes, little-endian), `|`, the width (4 bytes, little-endian).
pub open spec fn key_material(path: Seq<char>, modified: u64, max_w: u32) -> Seq<u8> {
    encode_utf8(path) + seq![124u8] + le_bytes(modified as nat, 8) + seq![124u8] + le_bytes(
        max_w as nat,
        4,
    )
}

/// Cache key of a thumbnail: hex of the first 16 bytes of the SHA-256 of
/// (path | mtime | width), so edits and other widths get their own entry.
pub fn cache_key(abs_path: &str, modified: u64, max_w: u32) -> (r: String)
    ensures
        r@ == hex_lower(sha256_of(key_material(abs_path@, modified, max_w)).take(16)),
{
    let pb = abs_path.as_bytes();
    let mut data: Vec<u8> = Vec::new();
    let mut i: usize = 0;
    while i < pb.len()
        invariant
            i <= pb@.len(),
            pb@ == encode_utf8(abs_path@),
            data@ == pb@.take(i as int),
        decreases pb@.len() - i,
    {
        data.push(pb[i]);
        assert(pb@.take(i + 1) =~= pb@.take(i as int).push(pb@[i as int]));
        i = i + 1;
    }
    assert(pb@.take(pb@.len() as int) =~= pb@);
    data.push(124u8);
    push_le(&mut data, modified, 8);
    data.push(124u8);
    push_le(&mut data, max_w as u64, 4);
    assert(data@ =~= key_material(abs_path@, modified, max_w));
    let digest = sha256_bytes(data.as_slice());
    hex_prefix(digest.as_slice(), 16)
}

/// Size to scale an image of `width` × `height` to for a thumbnail at most
/// `max_w` wide (0 meaning the default width): `None` when it is narrow
/// enough already. The height bound keeps the aspect ratio.
pub open spec fn thumb_target_of(width: u32, height: u32, max_w: u32) -> Option<(u32, u32)> {
    let w = if max_w == 0 {
        DEFAULT_WIDTH
    } else {
        max_w
    };
    if width > w {
        let wmin = if width < 1 {
            1
        } else {
            width
        };
        Some((w, ((wmin as int * height as int) / width as int) as u32))
    } else {
        None
    }
}

pub fn thumb_target(width: u32, height: u32, max_w: u32) -> (r: Option<(u32, u32)>)
    ensures
        r == thumb_target_of(width, height, max_w),
{
    let w = if max_w == 0 {
        DEFAULT_WIDTH
    } else {
        max_w
    };
    if width > w {
        let wmin: u64 = if width < 1 {
            1
        } else {
            width as u64
        };
        assert(wmin * (height as u64) <= u64::MAX) by (nonlinear_arith)
            requires
                wmin <= u32::MAX,
                height <= u32::MAX,
        ;
        let prod: u64 = wmin * (height as u64);
        let nh = prod / (width as u64);
        assert(nh == height) by (nonlinear_arith)
            requires
                wmin == width,
                width >= 1,
                prod == wmin * height,
                nh as int == (prod as int) / (width as int),
        ;
        Some((w, nh as u32))
    } else {
        None
    }
}

/// A decoded image as 8-bit RGB: `width` × `height` pixels, row by row,
/// three bytes each.
#[derive(Debug)]
pub struct RgbPixels {
    pub width: u32,
    pub height: u32,
    pub data: Vec<u8>,
}

/// `data` holds exactly `width` × `height` RGB pixels.
pub open spec fn rgb_ok(width: u32, height: u32, data: Seq<u8>) -> bool {
    data.len() == width as int * height as int * 3
}

/// The image of `width` × `height` RGB pixels `data` scaled with the
/// triangle filter to fit within `nw` × `nh`, aspect ratio kept: its
/// width, height and pixels.
pub uninterp spec fn resized_of(data: Seq<u8>, width: u32, height: u32, nw: u32, nh: u32) -> (
    u32,
    u32,
    Seq<u8>,
);

/// The JPEG encoding of the image of `width` × `height` RGB pixels
/// `data`, or the encoder's error text.
pub uninterp spec fn jpeg_of(data: Seq<u8>, width: u32, height: u32) -> Result<Seq<u8>, Seq<char>>;

/// Calls `RgbImage::from_raw(width, height, data)` (it accepts a buffer of
/// exactly that many pixels), `DynamicImage::ImageRgb8(..).resize(nw, nh,
/// FilterType::Triangle)` and `to_rgb8`, and hands back the new width,
/// height and pixels. The result depends on the arguments alone and is
/// named `resized_of`; the crate builds the scaled buffer with exactly its
/// own width × height pixels (`imageops::resize`, or a copy of the input
/// when the size is unchanged).
#[verifier::external_body]
fn resize_rgb(data: &[u8], width: u32, height: u32, nw: u32, nh: u32) -> (r: (u32, u32, Vec<u8>))
    requires
        rgb_ok(width, height, data@),
    ensures
        (r.0, r.1, r.2@) == resized_of(data@, width, height, nw, nh),
        rgb_ok(r.0, r.1, r.2@),
{
    let img = image::RgbImage::from_raw(width, height, data.to_vec()).unwrap();
    let small = image::DynamicImage::ImageRgb8(img).resize(nw, nh, image::imageops::FilterType::Triangle).to_rgb8();
    (small.width(), small.height(), small.into_raw())
}

/// Calls `RgbImage::from_raw(width, height, data)` and
/// `write_to(.., ImageFormat::Jpeg)` into a byte buffer: the JPEG bytes,
/// or the encoder's error text. Either depends on the arguments alone and
/// is named `jpeg_of`.
#[verifier::external_body]
fn encode_jpeg(data: &[u8], width: u32, height: u32) -> (r: Result<Vec<u8>, String>)
    requires
        rgb_ok(width, height, data@),
    ensures
        match r {
            Ok(b) => jpeg_of(data@, width, height) == Ok::<Seq<u8>, Seq<char>>(b@),
            Err(e) => jpeg_of(data@, width, height) == Err::<Seq<u8>, Seq<char>>(e@),
        },
{
    let img = image::RgbImage::from_raw(width, height, data.to_vec()).unwrap();
    let mut out: Vec<u8> = Vec::with_capacity(8 * 1024);
    match img.write_to(&mut std::io::Cursor::new(&mut out), image::ImageFormat::Jpeg) {
        Ok(()) => Ok(out),
        Err(e) => Err(e.to_string()),
    }
}

/// Output of thumbnail generation: JPEG bytes, or why there are none.
#[derive(Debug)]
pub enum ThumbResult {
    Jpeg(Vec<u8>),
    Unsupported(String),
}

/// The thumbnail JPEG of a `width` × `height` RGB image at most `max_w`
/// wide: the image scaled to `thumb_target_of` when it is wider, as it is
/// otherwise, then encoded.
pub open spec fn thumb_jpeg(data: Seq<u8>, width: u32, height: u32, max_w: u32) -> Result<Seq<u8>, Seq<char>> {
    match thumb_target_of(width, height, max_w) {
        Some((nw, nh)) => {
            let (rw, rh, rd) = resized_of(data, width, height, nw, nh);
            jpeg_of(rd, rw, rh)
        },
        None => jpeg_of(data, width, height),
    }
}

/// The answer for an encoder's outcome: the bytes as `Jpeg`, or the
/// error text after `encode: `.
pub fn thumb_from_encoded(encoded: Result<Vec<u8>, String>) -> (r: Result<ThumbResult, String>)
    ensures
        match encoded {
            Ok(b) => r matches Ok(ThumbResult::Jpeg(v)) && v@ == b@,
            Err(e) => r matches Err(m) && m@ == "encode: "@ + e@,
        },
{
    match encoded {
        Ok(bytes) => Ok(ThumbResult::Jpeg(bytes)),
        Err(e) => {
            let mut m = text_of("encode: ");
            push_str(&mut m, e.as_str());
            Err(m)
        },
    }
}

/// A JPEG thumbnail at most `max_w` wide (0: the default width) of the
/// decoded image: scaled down (aspect ratio kept) when it is wider, then
/// encoded. A file that is not an image, or that the decoder fails on,
/// gives `Unsupported("decode: …")`; an encoder failure gives the error
/// `encode: …`.
pub fn generate_thumbnail(decoded: Result<RgbPixels, String>, max_w: u32) -> (r: Result<ThumbResult, String>)
    requires
        decoded matches Ok(p) ==> rgb_ok(p.width, p.height, p.data@),
    ensures
        decoded matches Err(e) ==> (r matches Ok(ThumbResult::Unsupported(m)) && m@ == "decode: "@ + e@),
        decoded matches Ok(p) ==> match thumb_jpeg(p.data@, p.width, p.height, max_w) {
            Ok(b) => r matches Ok(ThumbResult::Jpeg(v)) && v@ == b,
            Err(e) => r matches Err(m) && m@ == "encode: "@ + e,
        },
{
    let img = match decoded {
        Ok(i) => i,
        Err(e) => {
            let mut m = text_of("decode: ");
            push_str(&mut m, e.as_str());
            return Ok(ThumbResult::Unsupported(m));
        },
    };
    let encoded = match thumb_target(img.width, img.height, max_w) {
        Some((w, h)) => {
            let (rw, rh, small) = resize_rgb(img.data.as_slice(), img.width, img.height, w, h);
            encode_jpeg(small.as_slice(), rw, rh)
        },
        None => encode_jpeg(img.data.as_slice(), img.width, img.height),
    };
    thumb_from_encoded(encoded)
}

} // verus!
