//! QR codes of the share URL, through the `qrcode` crate: as terminal
//! text for the banner, and as a module grid for the dashboard.
use vstd::prelude::*;
use vstd::utf8::encode_utf8;


verus! {

broadcast use vstd::string::group_string_axioms;

/// The dark/light modules of the QR code of `data`, row by row, and its
/// width; `None` when the data does not fit in a QR code.
pub uninterp spec fn qr_modules_of(data: Seq<u8>) -> Option<(Seq<bool>, nat)>;

/// The QR code of `data` drawn with `▀▄█` half blocks, quiet zone
/// included, lines separated by `\n`; `None` when the data does not fit.
pub uninterp spec fn qr_dense_text_of(data: Seq<u8>) -> Option<Seq<char>>;

/// Calls `qrcode::QrCode::new(data)` and reads the code back with
/// `to_colors` (dark → `true`) and `width`. The result is a fixed function
/// of the data, named `qr_modules_of`; `None` on the crate's error.
#[verifier::external_body]
fn qr_modules(data: &[u8]) -> (r: Option<(Vec<bool>, usize)>)
    ensures
        match r {
            Some((m, w)) => qr_modules_of(data@) == Some((m@, w as nat)),
            None => qr_modules_of(data@) is None,
        },
{
    match qrcode::QrCode::new(data) {
        Ok(code) => Some((
            code.to_colors().into_iter().map(|c| c == qrcode::Color::Dark).collect(),
            code.width(),
        )),
        Err(_) => None,
    }
}

/// Calls `qrcode::QrCode::new(data)` and renders it with
/// `render::<unicode::Dense1x2>().quiet_zone(true).build()`. The text is a
/// fixed function of the data, named `qr_dense_text_of`.
#[verifier::external_body]
fn qr_dense_text(data: &[u8]) -> (r: Option<String>)
    ensures
        match r {
            Some(t) => qr_dense_text_of(data@) == Some(t@),
            None => qr_dense_text_of(data@) is None,
        },
{
    match qrcode::QrCode::new(data) {
        Ok(code) => Some(code.render::<qrcode::render::unicode::Dense1x2>().quiet_zone(true).build()),
        Err(_) => None,
    }
}

/// The rows of a flat module list of the given width.
pub open spec fn rows_of(flat: Seq<bool>, width: nat) -> Seq<Seq<bool>>
    decreases flat.len(),
{
    if width == 0 || flat.len() == 0 {
        Seq::empty()
    } else if flat.len() <= width {
        seq![flat]
    } else {
        seq![flat.take(width as int)] + rows_of(flat.skip(width as int), width)
    }
}

/// The first row of `s`: its first `width` modules, or all of them.
pub open spec fn head_row(s: Seq<bool>, width: nat) -> Seq<bool> {
    if s.len() <= width {
        s
    } else {
        s.take(width as int)
    }
}

proof fn lemma_rows_step(flat: Seq<bool>, width: nat, start: int)
    requires
        width > 0,
        0 <= start < flat.len(),
    ensures
        rows_of(flat.skip(start), width) == seq![head_row(flat.skip(start), width)] + rows_of(
            flat.skip(if start + width < flat.len() {
                start + width
            } else {
                flat.len() as int
            }),
            width,
        ),
{
    let s = flat.skip(start);
    if s.len() <= width {
        assert(flat.skip(flat.len() as int) =~= Seq::<bool>::empty());
    } else {
        assert(s.skip(width as int) =~= flat.skip(start + width));
    }
}

/// The QR code of `text` as a grid of rows (dark = `true`), top row first;
/// `None` when it does not fit in a QR code.
pub fn qr_grid(text: &str) -> (r: Option<Vec<Vec<bool>>>)
    ensures
        match qr_modules_of(encode_utf8(text@)) {
            Some((flat, w)) => r matches Some(g) && g@.map_values(|row: Vec<bool>| row@) == rows_of(flat, w),
            None => r is None,
        },
{
    let (flat, w) = match qr_modules(text.as_bytes()) {
        Some(m) => m,
        None => {
            return None;
        },
    };
    let mut grid: Vec<Vec<bool>> = Vec::new();
    if w == 0 {
        assert(grid@.map_values(|row: Vec<bool>| row@) =~= rows_of(flat@, w as nat));
        return Some(grid);
    }
    let n = flat.len();
    let mut start: usize = 0;
    assert(flat@.skip(0) =~= flat@);
    while start < n
        invariant
            w > 0,
            n == flat@.len(),
            start <= n,
            grid@.map_values(|row: Vec<bool>| row@) + rows_of(flat@.skip(start as int), w as nat) == rows_of(
                flat@,
                w as nat,
            ),
        decreases n - start,
    {
        let end: usize = if n - start <= w {
            n
        } else {
            start + w
        };
        let mut row: Vec<bool> = Vec::new();
        let mut k: usize = start;
        while k < end
            invariant
                start <= k <= end <= n,
                n == flat@.len(),
                row@ == flat@.subrange(start as int, k as int),
            decreases end - k,
        {
            row.push(flat[k]);
            assert(flat@.subrange(start as int, k + 1) =~= flat@.subrange(start as int, k as int).push(
                flat@[k as int],
            ));
            k = k + 1;
        }
        proof {
            lemma_rows_step(flat@, w as nat, start as int);
            assert(row@ =~= head_row(flat@.skip(start as int), w as nat));
        }
        let ghost before = grid@.map_values(|row: Vec<bool>| row@);
        grid.push(row);
        assert(grid@.map_values(|row: Vec<bool>| row@) =~= before.push(head_row(flat@.skip(start as int), w as nat)));
        assert(before.push(head_row(flat@.skip(start as int), w as nat)) + rows_of(flat@.skip(end as int), w as nat)
            =~= before + rows_of(flat@.skip(start as int), w as nat));
        start = end;
    }
    assert(flat@.skip(start as int) =~= Seq::<bool>::empty());
    assert(grid@.map_values(|row: Vec<bool>| row@) =~= grid@.map_values(|row: Vec<bool>| row@) + rows_of(
        flat@.skip(start as int),
        w as nat,
    ));
    Some(grid)
}

/// The QR code of `text` as terminal text (half blocks, quiet zone
/// included); `None` when it does not fit in a QR code.
pub fn qr_terminal_text(text: &str) -> (r: Option<String>)
    ensures
        match r {
            Some(t) => qr_dense_text_of(encode_utf8(text@)) == Some(t@),
            None => qr_dense_text_of(encode_utf8(text@)) is None,
        },
{
    qr_dense_text(text.as_bytes())
}

} // verus!
