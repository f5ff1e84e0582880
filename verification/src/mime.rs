//! MIME type helpers and preview capability decisions.
use vstd::prelude::*;

use crate::text::{chars_vec, has_prefix_at, starts_with, chars_eq};

verus! {

broadcast use vstd::string::group_string_axioms;

#[derive(Debug, Clone, Copy, PartialEq, Eq, Structural)]
pub enum PreviewKind {
    Image,
    Video,
    Audio,
    Pdf,
    Text,
    Other,
}

/// The MIME prefixes that render as text.
pub open spec fn is_text_mime(m: Seq<char>) -> bool {
    ||| starts_with(m, "text/"@)
    ||| starts_with(m, "application/json"@)
    ||| starts_with(m, "application/xml"@)
    ||| starts_with(m, "application/javascript"@)
    ||| starts_with(m, "application/x-yaml"@)
    ||| starts_with(m, "application/toml"@)
}

/// How the browser can preview content of MIME type `m`.
pub open spec fn preview_kind_of(m: Seq<char>) -> PreviewKind {
    if m == "application/pdf"@ {
        PreviewKind::Pdf
    } else if starts_with(m, "image/"@) {
        PreviewKind::Image
    } else if starts_with(m, "video/"@) {
        PreviewKind::Video
    } else if starts_with(m, "audio/"@) {
        PreviewKind::Audio
    } else if is_text_mime(m) {
        PreviewKind::Text
    } else {
        PreviewKind::Other
    }
}

fn has_prefix(m: &[char], p: &str) -> (r: bool)
    ensures
        r == starts_with(m@, p@),
{
    let pv = chars_vec(p);
    assert(m@.skip(0) =~= m@);
    has_prefix_at(m, 0, pv.as_slice())
}

/// Can the browser natively render this MIME in an <img>/<video>/<audio>/<iframe>?
pub fn preview_kind(mime: &str) -> (r: PreviewKind)
    ensures
        r == preview_kind_of(mime@),
{
    let m = chars_vec(mime);
    let pdf = chars_vec("application/pdf");
    if chars_eq(m.as_slice(), pdf.as_slice()) {
        return PreviewKind::Pdf;
    }
    if has_prefix(m.as_slice(), "image/") {
        return PreviewKind::Image;
    }
    if has_prefix(m.as_slice(), "video/") {
        return PreviewKind::Video;
    }
    if has_prefix(m.as_slice(), "audio/") {
        return PreviewKind::Audio;
    }
    if has_prefix(m.as_slice(), "text/") || has_prefix(m.as_slice(), "application/json")
        || has_prefix(m.as_slice(), "application/xml") || has_prefix(
        m.as_slice(),
        "application/javascript",
    ) || has_prefix(m.as_slice(), "application/x-yaml") || has_prefix(
        m.as_slice(),
        "application/toml",
    ) {
        return PreviewKind::Text;
    }
    PreviewKind::Other
}

impl PreviewKind {
    pub open spec fn previewable(self) -> bool {
        !(self is Other)
    }

    pub fn is_previewable(self) -> (r: bool)
        ensures
            r == self.previewable(),
    {
        !matches!(self, PreviewKind::Other)
    }
}

/// What `mime_guess` reports for a file name: the essence (`type/subtype`)
/// of its first guess, or `application/octet-stream`.
pub uninterp spec fn guessed_mime(name: Seq<char>) -> Seq<char>;

/// Calls `mime_guess::from_path(name).first_or_octet_stream()` and returns
/// the essence string. The result is a fixed function of the name (an
/// extension table lookup); its content is named, not stated.
#[verifier::external_body]
fn guess_mime(name: &str) -> (r: String)
    ensures
        r@ == guessed_mime(name@),
{
    mime_guess::from_path(name).first_or_octet_stream().essence_str().to_string()
}

/// Quick filename-based MIME guess.
pub fn mime_for(name: &str) -> (r: String)
    ensures
        r@ == guessed_mime(name@),
{
    guess_mime(name)
}


/// Audio, video and image types are previewed as such: every MIME type
/// beginning `audio/` is `Audio`, `video/` is `Video`, `image/` is
/// `Image`, and each of them is previewable; `application/pdf` is `Pdf`.
pub proof fn media_types_are_previewable(m: Seq<char>)
    ensures
        starts_with(m, "audio/"@) ==> preview_kind_of(m) == PreviewKind::Audio,
        starts_with(m, "video/"@) ==> preview_kind_of(m) == PreviewKind::Video,
        starts_with(m, "image/"@) ==> preview_kind_of(m) == PreviewKind::Image,
        m == "application/pdf"@ ==> preview_kind_of(m) == PreviewKind::Pdf,
        starts_with(m, "audio/"@) || starts_with(m, "video/"@) || starts_with(m, "image/"@) || m
            == "application/pdf"@ ==> preview_kind_of(m).previewable(),
{
    reveal_strlit("audio/");
    reveal_strlit("video/");
    reveal_strlit("image/");
    reveal_strlit("application/pdf");
    if starts_with(m, "audio/"@) || starts_with(m, "video/"@) || starts_with(m, "image/"@) {
        let t = m.take(6);
        assert(t[0] == m[0] && t[1] == m[1]);
        if m == "application/pdf"@ {
            assert(m[0] == 'a' && m[1] == 'p');
        }
    }
    if starts_with(m, "audio/"@) {
        assert(m.take(6)[0] == 'a');
    }
    if starts_with(m, "video/"@) {
        assert(m.take(6)[0] == 'v');
    }
}

} // verus!
