//! Image geometry and the built-in image-extension classifier.

use vstd::prelude::*;
use crate::paths::{extension_of, lowercase_of, path_extension, to_lowercase};
use crate::text::{eq_ignore_ascii_case, str_eq_ignore_ascii_case, str_equal};

verus! {

/// The extensions recognised as images when no configuration is at hand.
pub open spec fn builtin_formats() -> Seq<Seq<char>> {
    seq![
        seq!['j', 'p', 'g'],
        seq!['j', 'p', 'e', 'g'],
        seq!['p', 'n', 'g'],
        seq!['b', 'm', 'p'],
        seq!['g', 'i', 'f'],
        seq!['w', 'e', 'b', 'p'],
        seq!['t', 'i', 'f', 'f'],
        seq!['t', 'g', 'a'],
        seq!['i', 'c', 'o'],
    ]
}

/// Whether `ext` matches one of `formats`, ignoring ASCII case.
pub open spec fn matches_any_format(formats: Seq<Seq<char>>, ext: Seq<char>) -> bool {
    exists|i: int| 0 <= i < formats.len() && #[trigger] eq_ignore_ascii_case(formats[i], ext)
}

/// Whether a path names an image by its extension, among the built-in formats.
pub open spec fn is_builtin_image_path(path: Seq<char>) -> bool {
    match extension_of(path) {
        Some(e) => matches_any_format(builtin_formats(), e),
        None => false,
    }
}

/// The built-in extensions as strings.
pub fn builtin_format_list() -> (r: Vec<String>)
    ensures
        r@.map_values(|s: String| s@) == builtin_formats(),
{
    let mut v: Vec<String> = Vec::new();
    v.push(String::from_str("jpg"));
    v.push(String::from_str("jpeg"));
    v.push(String::from_str("png"));
    v.push(String::from_str("bmp"));
    v.push(String::from_str("gif"));
    v.push(String::from_str("webp"));
    v.push(String::from_str("tiff"));
    v.push(String::from_str("tga"));
    v.push(String::from_str("ico"));
    proof {
        reveal_strlit("jpg");
        assert("jpg"@ =~= seq!['j', 'p', 'g']);
        reveal_strlit("jpeg");
        assert("jpeg"@ =~= seq!['j', 'p', 'e', 'g']);
        reveal_strlit("png");
        assert("png"@ =~= seq!['p', 'n', 'g']);
        reveal_strlit("bmp");
        assert("bmp"@ =~= seq!['b', 'm', 'p']);
        reveal_strlit("gif");
        assert("gif"@ =~= seq!['g', 'i', 'f']);
        reveal_strlit("webp");
        assert("webp"@ =~= seq!['w', 'e', 'b', 'p']);
        reveal_strlit("tiff");
        assert("tiff"@ =~= seq!['t', 'i', 'f', 'f']);
        reveal_strlit("tga");
        assert("tga"@ =~= seq!['t', 'g', 'a']);
        reveal_strlit("ico");
        assert("ico"@ =~= seq!['i', 'c', 'o']);
        assert(v@.map_values(|s: String| s@) =~= builtin_formats());
    }
    v
}

/// Whether `ext` matches one of `formats`, ignoring ASCII case.
pub fn extension_in(formats: &Vec<String>, ext: &str) -> (r: bool)
    ensures
        r == matches_any_format(formats@.map_values(|s: String| s@), ext@),
{
    let ghost fs = formats@.map_values(|s: String| s@);
    let mut i: usize = 0;
    while i < formats.len()
        invariant
            i <= formats@.len(),
            fs == formats@.map_values(|s: String| s@),
            forall|k: int| 0 <= k < i ==> !#[trigger] eq_ignore_ascii_case(fs[k], ext@),
        decreases formats@.len() - i,
    {
        if str_eq_ignore_ascii_case(formats[i].as_str(), ext) {
            assert(eq_ignore_ascii_case(fs[i as int], ext@));
            return true;
        }
        i = i + 1;
    }
    false
}

/// Whether an extension is one of the built-in image formats, ignoring ASCII case.
pub fn is_supported_extension(ext: &str) -> (r: bool)
    ensures
        r == matches_any_format(builtin_formats(), ext@),
{
    let formats = builtin_format_list();
    extension_in(&formats, ext)
}

/// Whether the path's extension is one of the built-in image formats.
pub fn is_supported_image_format(path: &str) -> (r: bool)
    ensures
        r == is_builtin_image_path(path@),
{
    match path_extension(path) {
        Some(e) => is_supported_extension(e.as_str()),
        None => false,
    }
}

/// `max(1, v)`.
pub open spec fn at_least_one(v: int) -> int {
    if v < 1 {
        1
    } else {
        v
    }
}

/// The size that fits `(w, h)` into the box `(mw, mh)` keeping its aspect
/// ratio: scaled by `min(mw / w, mh / h)`, each side floored, then raised to
/// at least one pixel.
pub open spec fn scaled_size(w: int, h: int, mw: int, mh: int) -> (int, int) {
    if w == 0 && h == 0 {
        (1, 1)
    } else if w == 0 {
        (1, at_least_one(mh))
    } else if h == 0 {
        (at_least_one(mw), 1)
    } else if mw * h <= mh * w {
        (at_least_one(mw), at_least_one(h * mw / w))
    } else {
        (at_least_one(w * mh / h), at_least_one(mh))
    }
}

/// Scales `(original_width, original_height)` to fit the box
/// `(max_width, max_height)`, keeping the aspect ratio.
pub fn calculate_scaled_size(
    original_width: u32,
    original_height: u32,
    max_width: u32,
    max_height: u32,
) -> (r: (u32, u32))
    ensures
        (r.0 as int, r.1 as int) == scaled_size(
            original_width as int,
            original_height as int,
            max_width as int,
            max_height as int,
        ),
{
    let w: u64 = original_width as u64;
    let h: u64 = original_height as u64;
    let mw: u64 = max_width as u64;
    let mh: u64 = max_height as u64;
    let (nw, nh): (u64, u64) = if w == 0 && h == 0 {
        (1, 1)
    } else if w == 0 {
        (1, mh)
    } else if h == 0 {
        (mw, 1)
    } else {
        assert(mw * h <= 0xffff_ffff * 0xffff_ffff && mh * w <= 0xffff_ffff * 0xffff_ffff)
            by (nonlinear_arith)
            requires
                mw <= 0xffff_ffff,
                h <= 0xffff_ffff,
                mh <= 0xffff_ffff,
                w <= 0xffff_ffff,
        ;
        if mw * h <= mh * w {
            assert((h as int) * (mw as int) / (w as int) <= mh as int) by (nonlinear_arith)
                requires
                    (mw as int) * (h as int) <= (mh as int) * (w as int),
                    w > 0,
            ;
            (mw, h * mw / w)
        } else {
            assert((w as int) * (mh as int) / (h as int) <= mw as int) by (nonlinear_arith)
                requires
                    (mw as int) * (h as int) > (mh as int) * (w as int),
                    h > 0,
            ;
            (w * mh / h, mh)
        }
    };
    let rw: u32 = if nw < 1 {
        1
    } else {
        nw as u32
    };
    let rh: u32 = if nh < 1 {
        1
    } else {
        nh as u32
    };
    (rw, rh)
}

/// For a non-empty image and a box of at least one pixel each way, the scaled
/// size lies within the box, is at least one pixel each way, fills the box in
/// one dimension, and keeps the aspect ratio to within one pixel.
pub proof fn lemma_scaled_size_fits(w: int, h: int, mw: int, mh: int)
    requires
        w > 0,
        h > 0,
        mw >= 1,
        mh >= 1,
    ensures
        ({
            let (a, b) = scaled_size(w, h, mw, mh);
            &&& 1 <= a <= mw
            &&& 1 <= b <= mh
            &&& a == mw || b == mh
            &&& (-w < b * w - a * h < w) || (-h < a * h - b * w < h)
        }),
{
    if mw * h <= mh * w {
        let b0 = h * mw / w;
        assert(b0 * w <= h * mw < (b0 + 1) * w && 0 <= b0 <= mh) by (nonlinear_arith)
            requires
                b0 == h * mw / w,
                w > 0,
                h > 0,
                mw >= 1,
                mw * h <= mh * w,
        ;
        assert(h * mw >= 1) by (nonlinear_arith)
            requires
                h >= 1,
                mw >= 1,
        ;
        let b = at_least_one(b0);
        assert(-w < b * w - mw * h < w) by (nonlinear_arith)
            requires
                b0 * w <= h * mw < (b0 + 1) * w,
                h * mw >= 1,
                b == (if b0 < 1 { 1 } else { b0 }),
                b0 >= 0,
        ;
        assert(scaled_size(w, h, mw, mh) == (mw, b));
    } else {
        let a0 = w * mh / h;
        assert(a0 * h <= w * mh < (a0 + 1) * h && 0 <= a0 <= mw) by (nonlinear_arith)
            requires
                a0 == w * mh / h,
                w > 0,
                h > 0,
                mh >= 1,
                mw * h > mh * w,
        ;
        assert(w * mh >= 1) by (nonlinear_arith)
            requires
                w >= 1,
                mh >= 1,
        ;
        let a = at_least_one(a0);
        assert(-h < a * h - mh * w < h) by (nonlinear_arith)
            requires
                a0 * h <= w * mh < (a0 + 1) * h,
                w * mh >= 1,
                a == (if a0 < 1 { 1 } else { a0 }),
                a0 >= 0,
        ;
        assert(scaled_size(w, h, mw, mh) == (a, mh));
    }
}

/// Whether the image is wider than tall.
pub fn is_landscape(width: u32, height: u32) -> (r: bool)
    ensures
        r == (width > height),
{
    width > height
}

/// Whether the image is taller than wide.
pub fn is_portrait(width: u32, height: u32) -> (r: bool)
    ensures
        r == (height > width),
{
    height > width
}

/// Whether the image is as wide as tall.
pub fn is_square(width: u32, height: u32) -> (r: bool)
    ensures
        r == (width == height),
{
    width == height
}

/// An image encoding, as named by a file extension.
#[derive(Debug, Clone, Copy, PartialEq, Eq, Structural)]
pub enum ImageFormat {
    Jpeg,
    Png,
    Bmp,
    Gif,
    WebP,
    Tiff,
    Tga,
    Ico,
}

/// The encoding that a lower-cased extension names.
pub open spec fn format_of_extension(ext: Seq<char>) -> Option<ImageFormat> {
    if ext == seq!['j', 'p', 'g'] || ext == seq!['j', 'p', 'e', 'g'] {
        Some(ImageFormat::Jpeg)
    } else if ext == seq!['p', 'n', 'g'] {
        Some(ImageFormat::Png)
    } else if ext == seq!['b', 'm', 'p'] {
        Some(ImageFormat::Bmp)
    } else if ext == seq!['g', 'i', 'f'] {
        Some(ImageFormat::Gif)
    } else if ext == seq!['w', 'e', 'b', 'p'] {
        Some(ImageFormat::WebP)
    } else if ext == seq!['t', 'i', 'f', 'f'] || ext == seq!['t', 'i', 'f'] {
        Some(ImageFormat::Tiff)
    } else if ext == seq!['t', 'g', 'a'] {
        Some(ImageFormat::Tga)
    } else if ext == seq!['i', 'c', 'o'] {
        Some(ImageFormat::Ico)
    } else {
        None
    }
}

/// The encoding named by an extension, compared after lower-casing it.
pub fn format_from_extension(ext: &str) -> (r: Option<ImageFormat>)
    ensures
        r == format_of_extension(lowercase_of(ext@)),
{
    let lower = to_lowercase(ext);
    let l: &str = lower.as_str();
    proof {
        reveal_strlit("jpg");
        assert("jpg"@ =~= seq!['j', 'p', 'g']);
        reveal_strlit("jpeg");
        assert("jpeg"@ =~= seq!['j', 'p', 'e', 'g']);
        reveal_strlit("png");
        assert("png"@ =~= seq!['p', 'n', 'g']);
        reveal_strlit("bmp");
        assert("bmp"@ =~= seq!['b', 'm', 'p']);
        reveal_strlit("gif");
        assert("gif"@ =~= seq!['g', 'i', 'f']);
        reveal_strlit("webp");
        assert("webp"@ =~= seq!['w', 'e', 'b', 'p']);
        reveal_strlit("tiff");
        assert("tiff"@ =~= seq!['t', 'i', 'f', 'f']);
        reveal_strlit("tif");
        assert("tif"@ =~= seq!['t', 'i', 'f']);
        reveal_strlit("tga");
        assert("tga"@ =~= seq!['t', 'g', 'a']);
        reveal_strlit("ico");
        assert("ico"@ =~= seq!['i', 'c', 'o']);
    }
    if str_equal(l, "jpg") || str_equal(l, "jpeg") {
        Some(ImageFormat::Jpeg)
    } else if str_equal(l, "png") {
        Some(ImageFormat::Png)
    } else if str_equal(l, "bmp") {
        Some(ImageFormat::Bmp)
    } else if str_equal(l, "gif") {
        Some(ImageFormat::Gif)
    } else if str_equal(l, "webp") {
        Some(ImageFormat::WebP)
    } else if str_equal(l, "tiff") || str_equal(l, "tif") {
        Some(ImageFormat::Tiff)
    } else if str_equal(l, "tga") {
        Some(ImageFormat::Tga)
    } else if str_equal(l, "ico") {
        Some(ImageFormat::Ico)
    } else {
        None
    }
}

/// The encoding that a path's extension names, if it names one.
pub fn format_from_path(path: &str) -> (r: Option<ImageFormat>)
    ensures
        r == match extension_of(path@) {
            Some(e) => format_of_extension(lowercase_of(e)),
            None => None,
        },
{
    match path_extension(path) {
        Some(e) => format_from_extension(e.as_str()),
        None => None,
    }
}

} // verus!
