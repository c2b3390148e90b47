//! Capture with frame context: frame and crop validation, the layout of mapped
//! texture rows, their decoding into RGBA pixels, and the bounded frame wait.

mod error;
mod window;

pub use error::{CaptureError, Result};
pub use window::{
    check_timeout, check_window, lemma_missing_window_is_closed, lemma_observe_matches_whole_title,
    lemma_title_search_outcome, lemma_utf16_encode_injective, lemma_utf16_single_units,
    title_units, TitleSearch, ERROR_INVALID_WINDOW_HANDLE_CODE, ERROR_SUCCESS_CODE,
    MAX_TITLE_UNITS,
};

use crate::WindowRect;
use image::{DynamicImage, RgbaImage};
use vstd::arithmetic::div_mod::lemma_fundamental_div_mod_converse;
use vstd::arithmetic::mul::lemma_mul_inequality;
use std::sync::mpsc::{Receiver, RecvTimeoutError};
use std::time::Duration;
use vstd::prelude::*;

verus! {

/// A decoded image of the `image` crate.
#[verifier::external_type_specification]
#[verifier::external_body]
pub struct ExDynamicImage(image::DynamicImage);

/// The image that `image::RgbaImage::from_raw` makes of `width` by `height`
/// RGBA pixels held in `pixels`, as a `DynamicImage::ImageRgba8`.
pub uninterp spec fn rgba_image(width: u32, height: u32, pixels: Seq<u8>) -> DynamicImage;

/// Calls `image::RgbaImage::from_raw` and wraps the image it makes as
/// `DynamicImage::ImageRgba8`. As the crate's source shows, it makes an image
/// exactly when `width * height` four-byte pixels fit in `pixels` (a product
/// that overflows `usize` does not fit), and it never panics.
#[verifier::external_body]
fn rgba_image_from_raw(width: u32, height: u32, pixels: Vec<u8>) -> (res: Option<DynamicImage>)
    ensures
        res == (if 4 * width * height <= pixels@.len() {
            Some(rgba_image(width, height, pixels@))
        } else {
            None
        }),
{
    RgbaImage::from_raw(width, height, pixels).map(DynamicImage::ImageRgba8)
}

/// Width and height of a capture surface, in pixels.
#[derive(Clone, Copy, Debug, PartialEq, Eq, Structural)]
pub struct CaptureSize {
    pub width: u32,
    pub height: u32,
}

/// A size as the native capture API reports it, with signed dimensions.
#[derive(Clone, Copy, Debug, PartialEq, Eq, Structural)]
pub struct NativeSize {
    pub width: i32,
    pub height: i32,
}

/// What `size` returns for a native size: both dimensions must be positive.
pub open spec fn spec_size(value: NativeSize) -> std::result::Result<CaptureSize, CaptureError> {
    if value.width <= 0 || value.height <= 0 {
        Err(CaptureError::InvalidFrame("empty or negative content size"))
    } else {
        Ok(CaptureSize { width: value.width as u32, height: value.height as u32 })
    }
}

/// Converts a native size into a capture size, rejecting empty or negative ones.
pub fn size(value: NativeSize) -> (res: Result<CaptureSize>)
    ensures
        res == spec_size(value),
        res is Ok <==> value.width > 0 && value.height > 0,
        res matches Ok(s) ==> s.width == value.width && s.height == value.height,
{
    if value.width <= 0 || value.height <= 0 {
        return Err(CaptureError::InvalidFrame("empty or negative content size"));
    }
    Ok(CaptureSize { width: value.width as u32, height: value.height as u32 })
}

/// The valid content lies inside the source texture and is not empty.
pub open spec fn content_fits_texture(content: CaptureSize, texture: CaptureSize) -> bool {
    &&& content.width != 0
    &&& content.height != 0
    &&& content.width <= texture.width
    &&& content.height <= texture.height
}

/// The crop is a nonempty rectangle inside the valid content.
pub open spec fn crop_within_content(content: CaptureSize, crop: WindowRect) -> bool {
    &&& 0 <= crop.left < crop.right <= content.width
    &&& 0 <= crop.top < crop.bottom <= content.height
}

/// The size of the image that a crop selects.
pub open spec fn crop_size(crop: WindowRect) -> CaptureSize {
    CaptureSize {
        width: (crop.right - crop.left) as u32,
        height: (crop.bottom - crop.top) as u32,
    }
}

/// What `validate_crop` returns: the first failing check, in the order
/// unchanged content, content within texture, crop within content.
pub open spec fn spec_validate_crop(
    item: CaptureSize,
    content: CaptureSize,
    texture: CaptureSize,
    crop: WindowRect,
) -> std::result::Result<CaptureSize, CaptureError> {
    if item != content {
        Err(CaptureError::InvalidFrame("content size changed since capture item creation; retry"))
    } else if !content_fits_texture(content, texture) {
        Err(CaptureError::InvalidFrame("content does not fit the source texture"))
    } else if !crop_within_content(content, crop) {
        Err(CaptureError::InvalidFrame("crop is empty or outside valid frame content"))
    } else {
        Ok(crop_size(crop))
    }
}

/// Checks a frame against the size the capture item was created with and the
/// texture that holds it, and a frame-relative crop against the frame's valid
/// content. Returns the size of the cropped image.
pub fn validate_crop(
    item: CaptureSize,
    content: CaptureSize,
    texture: CaptureSize,
    crop: WindowRect,
) -> (res: Result<CaptureSize>)
    ensures
        res == spec_validate_crop(item, content, texture, crop),
        res matches Ok(s) ==> s.width > 0 && s.height > 0 && s.width <= texture.width
            && s.height <= texture.height,
        res is Ok <==> {
            &&& item == content
            &&& 0 < content.width <= texture.width
            &&& 0 < content.height <= texture.height
            &&& 0 <= crop.left < crop.right <= content.width
            &&& 0 <= crop.top < crop.bottom <= content.height
        },
        res matches Ok(s) ==> s.width == crop.right - crop.left && s.height == crop.bottom - crop.top,
{
    if item != content {
        return Err(
            CaptureError::InvalidFrame("content size changed since capture item creation; retry"),
        );
    }
    if content.width == 0 || content.height == 0 || content.width > texture.width
        || content.height > texture.height {
        return Err(CaptureError::InvalidFrame("content does not fit the source texture"));
    }
    if crop.left < 0 || crop.top < 0 || crop.right <= crop.left || crop.bottom <= crop.top
        || crop.right as u32 > content.width || crop.bottom as u32 > content.height {
        return Err(CaptureError::InvalidFrame("crop is empty or outside valid frame content"));
    }
    Ok(CaptureSize { width: (crop.right - crop.left) as u32, height: (crop.bottom - crop.top) as u32 })
}


/// A crop is accepted only for an unchanged frame whose valid content lies in
/// the texture, and only when it lies inside the valid content itself, not
/// merely inside the texture; the image it selects has the crop's size.
pub proof fn lemma_crop_checks(
    item: CaptureSize,
    content: CaptureSize,
    texture: CaptureSize,
    crop: WindowRect,
)
    ensures
        spec_validate_crop(item, content, texture, crop) is Ok <==> {
            &&& item == content
            &&& 0 < content.width <= texture.width
            &&& 0 < content.height <= texture.height
            &&& 0 <= crop.left < crop.right <= content.width
            &&& 0 <= crop.top < crop.bottom <= content.height
        },
        spec_validate_crop(item, content, texture, crop) matches Ok(s) ==> s.width == crop.right
            - crop.left && s.height == crop.bottom - crop.top,
        item != content ==> spec_validate_crop(item, content, texture, crop) == Err::<
            CaptureSize,
            CaptureError,
        >(CaptureError::InvalidFrame("content size changed since capture item creation; retry")),
{
}

/// The frame and crop checks of `validate_crop` all pass, written out.
pub open spec fn validate_crop_accepts(
    item: CaptureSize,
    content: CaptureSize,
    texture: CaptureSize,
    crop: WindowRect,
) -> bool {
    &&& item == content
    &&& 0 < content.width <= texture.width
    &&& 0 < content.height <= texture.height
    &&& 0 <= crop.left < crop.right <= content.width
    &&& 0 <= crop.top < crop.bottom <= content.height
}

/// What `row_layout` returns: the packed byte length of one row and the number
/// of mapped bytes that all rows span, or the first check that fails.
pub open spec fn spec_row_layout(size: CaptureSize, pitch: usize) -> std::result::Result<
    (usize, usize),
    CaptureError,
> {
    let bytes = 4 * size.width;
    if bytes > usize::MAX {
        Err(CaptureError::InvalidFrame("row size overflow"))
    } else if bytes == 0 || size.height == 0 || pitch < bytes {
        Err(CaptureError::InvalidFrame("invalid row pitch or image size"))
    } else if (size.height - 1) * pitch + bytes > isize::MAX {
        Err(CaptureError::InvalidFrame("mapped size overflow"))
    } else {
        Ok((bytes as usize, ((size.height - 1) * pitch + bytes) as usize))
    }
}

/// Computes the layout of mapped texture rows with the given row pitch: the
/// bytes of one packed RGBA row and the span from the first row's start to the
/// last row's end.
pub fn row_layout(size: CaptureSize, pitch: usize) -> (res: Result<(usize, usize)>)
    ensures
        res == spec_row_layout(size, pitch),
        res is Ok <==> {
            &&& 0 < 4 * size.width <= pitch
            &&& size.height > 0
            &&& (size.height - 1) * pitch + 4 * size.width <= isize::MAX
        },
        res matches Ok((bytes, span)) ==> span == (size.height - 1) * pitch + bytes,
        res matches Ok((bytes, span)) ==> bytes == 4 * size.width && bytes * size.height <= span
            <= isize::MAX && span <= pitch * size.height,
{
    proof {
        lemma_row_layout_bounds(size, pitch);
    }
    let bytes = match (size.width as usize).checked_mul(4) {
        Some(b) => b,
        None => return Err(CaptureError::InvalidFrame("row size overflow")),
    };
    if bytes == 0 || size.height == 0 || pitch < bytes {
        return Err(CaptureError::InvalidFrame("invalid row pitch or image size"));
    }
    let rows_before_last = size.height as usize - 1;
    let span = match rows_before_last.checked_mul(pitch) {
        Some(n) => match n.checked_add(bytes) {
            Some(m) => m,
            None => return Err(CaptureError::InvalidFrame("mapped size overflow")),
        },
        None => {
            assert((size.height - 1) * pitch + bytes > isize::MAX);
            return Err(CaptureError::InvalidFrame("mapped size overflow"));
        },
    };
    if span > isize::MAX as usize {
        return Err(CaptureError::InvalidFrame("mapped size overflow"));
    }
    Ok((bytes, span))
}

/// The packed rows fit in the span that `row_layout` checks, and the span
/// lies within `height` whole pitches.
pub proof fn lemma_row_layout_bounds(size: CaptureSize, pitch: usize)
    ensures
        spec_row_layout(size, pitch) matches Ok((bytes, span)) ==> bytes == 4 * size.width
            && bytes * size.height <= span <= isize::MAX && span <= pitch * size.height,
{
    if let Ok((bytes, span)) = spec_row_layout(size, pitch) {
        let h = size.height as int;
        let b = bytes as int;
        let p = pitch as int;
        assert(b * h <= (h - 1) * p + b && (h - 1) * p + b <= p * h) by (nonlinear_arith)
            requires
                h >= 1,
                p >= b,
        ;
    }
}

/// The source channel of output channel `c`: blue-green-red-alpha becomes
/// red-green-blue-alpha.
pub open spec fn channel_source(c: int) -> int {
    if c == 0 {
        2
    } else if c == 2 {
        0
    } else {
        c
    }
}

/// The index in the mapped rows of byte `i` of the packed RGBA output, for rows
/// of `bytes` packed bytes that lie `pitch` bytes apart.
pub open spec fn source_index(i: int, bytes: int, pitch: int) -> int {
    let row = i / bytes;
    let k = i % bytes;
    row * pitch + (k - k % 4) + channel_source(k % 4)
}

/// The packed RGBA pixels of `size` that mapped BGRA rows `pitch` bytes apart
/// hold; the padding after each row is skipped.
pub open spec fn rgba_rows(source: Seq<u8>, size: CaptureSize, pitch: usize) -> Seq<u8> {
    let bytes = 4 * size.width;
    Seq::new((bytes * size.height) as nat, |i: int| source[source_index(i, bytes, pitch as int)])
}

/// What `decode_pixels` returns.
pub open spec fn spec_decode_pixels(source: Seq<u8>, size: CaptureSize, pitch: usize) -> std::result::Result<
    Seq<u8>,
    CaptureError,
> {
    match spec_row_layout(size, pitch) {
        Err(e) => Err(e),
        Ok((bytes, span)) => if source.len() < span {
            Err(CaptureError::InvalidFrame("mapped buffer is shorter than its rows"))
        } else {
            Ok(rgba_rows(source, size, pitch))
        },
    }
}

proof fn lemma_source_index(row: int, p: int, c: int, bytes: int, pitch: int)
    requires
        0 <= row,
        0 <= p,
        0 <= c < 4,
        4 * p + c < bytes,
    ensures
        source_index(row * bytes + 4 * p + c, bytes, pitch) == row * pitch + 4 * p + channel_source(c),
{
    lemma_fundamental_div_mod_converse(row * bytes + 4 * p + c, bytes, row, 4 * p + c);
    lemma_fundamental_div_mod_converse(4 * p + c, 4, p, c);
}

/// Byte `i` of the packed output is read from row `i / bytes` of the source,
/// at an offset inside that row.
proof fn lemma_source_index_in_row(i: int, bytes: int, pitch: int, h: int) -> (rk: (int, int))
    requires
        bytes > 0,
        bytes % 4 == 0,
        0 <= i < bytes * h,
    ensures
        0 <= rk.0 < h,
        0 <= rk.1 < bytes,
        source_index(i, bytes, pitch) == rk.0 * pitch + rk.1,
{
    let r = i / bytes;
    let k = i % bytes;
    assert(i == bytes * r + k && 0 <= k < bytes) by {
        vstd::arithmetic::div_mod::lemma_fundamental_div_mod(i, bytes);
        vstd::arithmetic::div_mod::lemma_mod_bound(i, bytes);
    }
    assert(0 <= r < h) by (nonlinear_arith)
        requires
            i == bytes * r + k,
            0 <= k < bytes,
            0 <= i < bytes * h,
            bytes > 0,
    ;
    let q = k / 4;
    let m = k % 4;
    assert(k == 4 * q + m && 0 <= m < 4) by {
        vstd::arithmetic::div_mod::lemma_fundamental_div_mod(k, 4);
    }
    assert(4 * q + 4 <= bytes) by {
        vstd::arithmetic::div_mod::lemma_fundamental_div_mod(bytes, 4);
    }
    (r, 4 * q + channel_source(m))
}

/// Byte `k` of row `r` of mapped rows `pitch` bytes apart.
pub open spec fn row_byte(source: Seq<u8>, pitch: usize, r: int, k: int) -> u8 {
    source[r * pitch + k]
}

/// Decoding reads nothing but the bytes of the rows: two mapped buffers that
/// agree on every row byte decode to the same pixels, whatever their row
/// padding holds.
pub proof fn lemma_decode_ignores_padding(
    first: Seq<u8>,
    second: Seq<u8>,
    size: CaptureSize,
    pitch: usize,
)
    requires
        spec_row_layout(size, pitch) is Ok,
        forall|r: int, k: int|
            0 <= r < size.height && 0 <= k < 4 * size.width ==> #[trigger] row_byte(
                first,
                pitch,
                r,
                k,
            ) == row_byte(second, pitch, r, k),
    ensures
        rgba_rows(first, size, pitch) == rgba_rows(second, size, pitch),
{
    let bytes = 4 * size.width;
    let h = size.height as int;
    assert forall|i: int| 0 <= i < bytes * size.height implies first[source_index(
        i,
        bytes,
        pitch as int,
    )] == second[source_index(i, bytes, pitch as int)] by {
        let rk = lemma_source_index_in_row(i, bytes, pitch as int, h);
        assert(row_byte(first, pitch, rk.0, rk.1) == row_byte(second, pitch, rk.0, rk.1));
    }
    assert(rgba_rows(first, size, pitch) =~= rgba_rows(second, size, pitch));
}

/// Byte `c` of pixel `p` of row `r` in packed rows of `width` pixels.
pub open spec fn packed_byte(pixels: Seq<u8>, width: u32, r: int, p: int, c: int) -> u8 {
    pixels[r * (4 * width) + 4 * p + c]
}

/// Byte `c` of pixel `p` of row `r` in mapped rows `pitch` bytes apart.
pub open spec fn mapped_byte(source: Seq<u8>, pitch: usize, r: int, p: int, c: int) -> u8 {
    source[r * pitch + 4 * p + c]
}

/// `pixels` holds, row by row and with no padding, the pixels of `size` that
/// BGRA rows `pitch` bytes apart in `source` hold, with blue and red
/// exchanged: red, green, blue and alpha come from source bytes 2, 1, 0 and 3
/// of each pixel.
pub open spec fn rgba_of_bgra_rows(pixels: Seq<u8>, source: Seq<u8>, size: CaptureSize, pitch: usize) -> bool {
    &&& pixels.len() == 4 * size.width * size.height
    &&& forall|r: int, p: int|
        0 <= r < size.height && 0 <= p < size.width ==> {
            &&& #[trigger] packed_byte(pixels, size.width, r, p, 0) == mapped_byte(source, pitch, r, p, 2)
            &&& packed_byte(pixels, size.width, r, p, 1) == mapped_byte(source, pitch, r, p, 1)
            &&& packed_byte(pixels, size.width, r, p, 2) == mapped_byte(source, pitch, r, p, 0)
            &&& packed_byte(pixels, size.width, r, p, 3) == mapped_byte(source, pitch, r, p, 3)
        }
}

/// Decoding gives every pixel of every row with its channels reordered from
/// BGRA to RGBA, and it succeeds exactly when the rows have a valid layout and
/// the mapped buffer holds all of them.
pub proof fn lemma_decoded_pixels(source: Seq<u8>, size: CaptureSize, pitch: usize)
    ensures
        spec_decode_pixels(source, size, pitch) is Ok <==> spec_row_layout(size, pitch) is Ok
            && source.len() >= (size.height - 1) * pitch + 4 * size.width,
        spec_decode_pixels(source, size, pitch) matches Ok(pixels) ==> rgba_of_bgra_rows(
            pixels,
            source,
            size,
            pitch,
        ),
{
    if let Ok(pixels) = spec_decode_pixels(source, size, pitch) {
        let bytes = 4 * size.width;
        assert(pixels.len() == 4 * size.width * size.height) by (nonlinear_arith)
            requires
                pixels.len() == bytes * size.height,
                bytes == 4 * size.width,
        ;
        assert forall|r: int, p: int| 0 <= r < size.height && 0 <= p < size.width implies {
            &&& #[trigger] packed_byte(pixels, size.width, r, p, 0) == mapped_byte(source, pitch, r, p, 2)
            &&& packed_byte(pixels, size.width, r, p, 1) == mapped_byte(source, pitch, r, p, 1)
            &&& packed_byte(pixels, size.width, r, p, 2) == mapped_byte(source, pitch, r, p, 0)
            &&& packed_byte(pixels, size.width, r, p, 3) == mapped_byte(source, pitch, r, p, 3)
        } by {
            lemma_source_index(r, p, 0, bytes, pitch as int);
            lemma_source_index(r, p, 1, bytes, pitch as int);
            lemma_source_index(r, p, 2, bytes, pitch as int);
            lemma_source_index(r, p, 3, bytes, pitch as int);
            assert(r * bytes + 4 * p + 3 < bytes * size.height) by (nonlinear_arith)
                requires
                    0 <= r < size.height,
                    0 <= p < size.width,
                    bytes == 4 * size.width,
            ;
            let i = r * bytes + 4 * p;
            assert(pixels == rgba_rows(source, size, pitch));
            assert(packed_byte(pixels, size.width, r, p, 0) == pixels[i]);
            assert(pixels[i] == source[source_index(i, bytes, pitch as int)]);
            assert(pixels[i + 1] == source[source_index(i + 1, bytes, pitch as int)]);
            assert(pixels[i + 2] == source[source_index(i + 2, bytes, pitch as int)]);
            assert(pixels[i + 3] == source[source_index(i + 3, bytes, pitch as int)]);
        }
        assert(pixels.len() == 4 * size.width * size.height);
        assert(rgba_of_bgra_rows(pixels, source, size, pitch));
    }
}

/// Decodes mapped BGRA texture rows, `pitch` bytes apart, into packed RGBA
/// pixels, skipping the padding after each row.
pub fn decode_pixels(source: &[u8], size: CaptureSize, pitch: usize) -> (res: Result<Vec<u8>>)
    ensures
        match spec_decode_pixels(source@, size, pitch) {
            Ok(pixels) => res matches Ok(v) && v@ == pixels,
            Err(e) => res == Err::<Vec<u8>, CaptureError>(e),
        },
        res is Ok <==> spec_row_layout(size, pitch) is Ok && source@.len() >= (size.height - 1)
            * pitch + 4 * size.width,
        res matches Ok(v) ==> rgba_of_bgra_rows(v@, source@, size, pitch),
{
    proof {
        lemma_decoded_pixels(source@, size, pitch);
    }
    let (bytes, span) = row_layout(size, pitch)?;
    if source.len() < span {
        return Err(CaptureError::InvalidFrame("mapped buffer is shorter than its rows"));
    }
    let height = size.height as usize;
    let width = size.width as usize;
    let ghost w = width as int;
    let ghost h = height as int;
    let ghost pt = pitch as int;
    proof {
        assert((h - 1) * pt >= (h - 1) * bytes) by (nonlinear_arith)
            requires
                pt >= bytes,
                h >= 1,
        ;
        assert(h * bytes == (h - 1) * bytes + bytes) by (nonlinear_arith);
    }
    let mut output: Vec<u8> = Vec::new();
    let mut row: usize = 0;
    while row < height
        invariant
            bytes == 4 * w,
            w == size.width,
            h == size.height,
            width == w,
            height == h,
            h >= 1,
            pt == pitch,
            pitch >= bytes,
            span == (h - 1) * pt + bytes,
            span <= source@.len(),
            span <= isize::MAX,
            h * bytes <= span,
            0 <= row <= h,
            output@.len() == row * bytes,
            forall|i: int|
                0 <= i < output@.len() ==> output@[i] == #[trigger] source@[source_index(
                    i,
                    bytes as int,
                    pt,
                )],
        decreases h - row,
    {
        proof {
            lemma_mul_inequality(row as int, h - 1, pt);
            lemma_mul_inequality(row as int + 1, h, bytes as int);
            assert((row + 1) * bytes == row * bytes + bytes) by (nonlinear_arith);
        }
        let base = row * pitch;
        let mut p: usize = 0;
        while p < width
            invariant
                bytes == 4 * w,
                w == size.width,
                h == size.height,
                width == w,
                height == h,
                pt == pitch,
                span == (h - 1) * pt + bytes,
                span <= source@.len(),
                span <= isize::MAX,
                0 <= row < h,
                base == row * pt,
                row * pt <= (h - 1) * pt,
                row * bytes + bytes <= h * bytes,
                h * bytes <= span,
                0 <= p <= w,
                output@.len() == row * bytes + 4 * p,
                forall|i: int|
                    0 <= i < output@.len() ==> output@[i] == #[trigger] source@[source_index(
                        i,
                        bytes as int,
                        pt,
                    )],
            decreases w - p,
        {
            let at = base + 4 * p;
            let ghost start = output@.len() as int;
            proof {
                lemma_source_index(row as int, p as int, 0, bytes as int, pt);
                lemma_source_index(row as int, p as int, 1, bytes as int, pt);
                lemma_source_index(row as int, p as int, 2, bytes as int, pt);
                lemma_source_index(row as int, p as int, 3, bytes as int, pt);
            }
            output.push(source[at + 2]);
            output.push(source[at + 1]);
            output.push(source[at]);
            output.push(source[at + 3]);
            assert forall|i: int|
                0 <= i < output@.len() implies output@[i] == #[trigger] source@[source_index(
                i,
                bytes as int,
                pt,
            )] by {
                if i >= start {
                    assert(i == row * bytes + 4 * p + (i - start));
                }
            }
            p = p + 1;
        }
        row = row + 1;
    }
    proof {
        assert(output@.len() == bytes * size.height) by (nonlinear_arith)
            requires
                output@.len() == row * bytes,
                row == size.height,
        ;
    }
    assert(output@ =~= rgba_rows(source@, size, pitch));
    Ok(output)
}

/// Decodes mapped BGRA texture rows, `pitch` bytes apart, into an RGBA image of
/// `size`, skipping the padding after each row.
pub fn decode_rows(source: &[u8], size: CaptureSize, pitch: usize) -> (res: Result<DynamicImage>)
    ensures
        match spec_decode_pixels(source@, size, pitch) {
            Ok(pixels) => res == Ok::<DynamicImage, CaptureError>(
                rgba_image(size.width, size.height, pixels),
            ),
            Err(e) => res == Err::<DynamicImage, CaptureError>(e),
        },
{
    let pixels = decode_pixels(source, size, pitch)?;
    proof {
        let w = size.width as int;
        let h = size.height as int;
        assert(4 * w * h == (4 * w) * h) by (nonlinear_arith);
    }
    match rgba_image_from_raw(size.width, size.height, pixels) {
        Some(image) => Ok(image),
        None => Err(CaptureError::InvalidFrame("invalid RGBA image layout")),
    }
}

/// The end of a bounded frame channel that the capture thread reads.
#[verifier::external_type_specification]
#[verifier::external_body]
#[verifier::reject_recursive_types(T)]
pub struct ExReceiver<T>(Receiver<T>);

/// How a bounded wait on the frame channel ended.
pub enum FrameWait<T> {
    /// A value arrived.
    Received(T),
    /// Nothing arrived within the timeout.
    TimedOut,
    /// Every sender is gone and the channel is empty.
    Disconnected,
}

/// Calls `std::sync::mpsc::Receiver::recv_timeout` and tells its outcomes
/// apart. Which outcome comes back depends on timing and on the senders, so
/// nothing is stated of it.
#[verifier::external_body]
fn wait_on_channel<T>(receiver: &Receiver<T>, timeout: Duration) -> FrameWait<T> {
    match receiver.recv_timeout(timeout) {
        Ok(value) => FrameWait::Received(value),
        Err(RecvTimeoutError::Timeout) => FrameWait::TimedOut,
        Err(RecvTimeoutError::Disconnected) => FrameWait::Disconnected,
    }
}

/// What a frame wait that ended with `outcome` yields: a received result as it
/// was sent, a timeout error that carries the timeout, or the closed-channel
/// error.
pub open spec fn spec_frame_wait_result<T>(outcome: FrameWait<Result<T>>, timeout: Duration) -> Result<T> {
    match outcome {
        FrameWait::Received(result) => result,
        FrameWait::TimedOut => Err(CaptureError::CaptureTimeout(timeout)),
        FrameWait::Disconnected => Err(CaptureError::FrameChannelClosed),
    }
}

/// Turns the outcome of a bounded frame wait into the capture result.
pub fn frame_wait_result<T>(outcome: FrameWait<Result<T>>, timeout: Duration) -> (res: Result<T>)
    ensures
        res == spec_frame_wait_result(outcome, timeout),
        outcome matches FrameWait::Received(sent) ==> res == sent,
        outcome is TimedOut ==> res == Err::<T, CaptureError>(CaptureError::CaptureTimeout(timeout)),
        outcome is Disconnected ==> res == Err::<T, CaptureError>(CaptureError::FrameChannelClosed),
{
    match outcome {
        FrameWait::Received(result) => result,
        FrameWait::TimedOut => Err(CaptureError::CaptureTimeout(timeout)),
        FrameWait::Disconnected => Err(CaptureError::FrameChannelClosed),
    }
}

/// Waits at most `timeout` for the capture thread's result. Errors that the
/// thread sent come back unchanged; see `frame_wait_result` for each outcome.
pub fn receive<T>(receiver: &Receiver<Result<T>>, timeout: Duration) -> Result<T> {
    let outcome = wait_on_channel(receiver, timeout);
    frame_wait_result(outcome, timeout)
}

/// The crop that covers all valid content of a frame.
pub open spec fn full_crop(content: CaptureSize) -> WindowRect {
    WindowRect { left: 0, top: 0, right: content.width as i32, bottom: content.height as i32 }
}

/// Without a crop the whole valid content is captured at native resolution:
/// for a content size that the native API reported, the full-content crop
/// passes every check that the frame itself passes and selects an image of the
/// content's size.
pub proof fn lemma_full_crop_is_valid(
    native: NativeSize,
    item: CaptureSize,
    texture: CaptureSize,
)
    ensures
        spec_size(native) matches Ok(content) ==> (item == content && content_fits_texture(
            content,
            texture,
        ) ==> spec_validate_crop(item, content, texture, full_crop(content)) == Ok::<
            CaptureSize,
            CaptureError,
        >(content)),
{
}

/// A requested crop is used exactly as given, never clamped to the content;
/// only a missing crop defaults to all valid content. The frame is accepted
/// exactly when its content size is positive and its frame time is not
/// negative, and the content size is reported unchanged.
pub proof fn lemma_frame_context_keeps_requested_crop(
    content: NativeSize,
    system_relative_time_100ns: i64,
    crop: Option<WindowRect>,
)
    ensures
        spec_frame_context(content, system_relative_time_100ns, crop) is Ok <==> content.width > 0
            && content.height > 0 && system_relative_time_100ns >= 0,
        spec_frame_context(content, system_relative_time_100ns, crop) matches Ok((s, c)) ==> {
            &&& s.width == content.width
            &&& s.height == content.height
            &&& crop matches Some(requested) ==> c == requested
            &&& crop is None ==> c == WindowRect {
                left: 0,
                top: 0,
                right: content.width,
                bottom: content.height,
            }
        },
{
}

/// What `frame_context` returns: the content size of the received frame and
/// the crop to apply, the requested one or else all valid content.
pub open spec fn spec_frame_context(
    content: NativeSize,
    system_relative_time_100ns: i64,
    crop: Option<WindowRect>,
) -> std::result::Result<(CaptureSize, WindowRect), CaptureError> {
    match spec_size(content) {
        Err(e) => Err(e),
        Ok(content_size) => if system_relative_time_100ns < 0 {
            Err(CaptureError::InvalidFrame("negative frame timestamp"))
        } else {
            Ok(
                (
                    content_size,
                    match crop {
                        Some(c) => c,
                        None => full_crop(content_size),
                    },
                ),
            )
        },
    }
}

/// Checks what a received frame reports, its content size and its frame time,
/// and picks the crop: the requested one, or without one all valid content.
pub fn frame_context(
    content: NativeSize,
    system_relative_time_100ns: i64,
    crop: Option<WindowRect>,
) -> (res: Result<(CaptureSize, WindowRect)>)
    ensures
        res == spec_frame_context(content, system_relative_time_100ns, crop),
        res is Ok <==> content.width > 0 && content.height > 0 && system_relative_time_100ns >= 0,
        res matches Ok((s, c)) ==> s.width == content.width && s.height == content.height,
        res matches Ok((s, c)) ==> (crop matches Some(requested) ==> c == requested),
        res matches Ok((s, c)) ==> (crop is None ==> c == WindowRect {
            left: 0,
            top: 0,
            right: content.width,
            bottom: content.height,
        }),
{
    let content_size = size(content)?;
    if system_relative_time_100ns < 0 {
        return Err(CaptureError::InvalidFrame("negative frame timestamp"));
    }
    let crop = match crop {
        Some(c) => c,
        None => WindowRect {
            left: 0,
            top: 0,
            right: content_size.width as i32,
            bottom: content_size.height as i32,
        },
    };
    Ok((content_size, crop))
}

/// The DXGI format number of 8-bit BGRA with normalized channels, the only
/// texture format that the decoder reads.
pub const BGRA8_UNORM_FORMAT: i32 = 87;

/// What a source texture's description says of its layout.
#[derive(Clone, Copy, Debug, PartialEq, Eq, Structural)]
pub struct TextureLayout {
    pub format: i32,
    pub sample_count: u32,
    pub array_size: u32,
    pub mip_levels: u32,
}

/// The texture holds one plain 8-bit BGRA image: no multisampling, no array,
/// no mipmaps.
pub open spec fn supported_layout(layout: TextureLayout) -> bool {
    &&& layout.format == BGRA8_UNORM_FORMAT
    &&& layout.sample_count == 1
    &&& layout.array_size == 1
    &&& layout.mip_levels == 1
}

/// The source box of a texture copy, with exclusive right and bottom edges.
#[derive(Clone, Copy, Debug, PartialEq, Eq, Structural)]
pub struct CopyRegion {
    pub left: u32,
    pub top: u32,
    pub right: u32,
    pub bottom: u32,
}

/// How to copy the cropped part of a frame texture into a staging texture.
#[derive(Clone, Copy, Debug, PartialEq, Eq, Structural)]
pub struct TextureCopy {
    /// The size of the whole source texture.
    pub texture_size: CaptureSize,
    /// The size of the staging texture and of the image.
    pub image_size: CaptureSize,
    /// The part of the source texture to copy.
    pub region: CopyRegion,
}

/// The copy region that a crop selects.
pub open spec fn crop_region(crop: WindowRect) -> CopyRegion {
    CopyRegion {
        left: crop.left as u32,
        top: crop.top as u32,
        right: crop.right as u32,
        bottom: crop.bottom as u32,
    }
}

/// What `plan_texture_copy` returns: the crop checks first, then the layout
/// check.
pub open spec fn spec_plan_texture_copy(
    item: CaptureSize,
    content: CaptureSize,
    texture: CaptureSize,
    layout: TextureLayout,
    crop: WindowRect,
) -> std::result::Result<TextureCopy, CaptureError> {
    match spec_validate_crop(item, content, texture, crop) {
        Err(e) => Err(e),
        Ok(image_size) => if !supported_layout(layout) {
            Err(CaptureError::InvalidFrame("unsupported texture format or layout"))
        } else {
            Ok(TextureCopy { texture_size: texture, image_size, region: crop_region(crop) })
        },
    }
}

/// Decides how the cropped part of a frame texture is copied out, or why it
/// cannot be: the frame and crop checks of `validate_crop`, then the texture's
/// layout.
pub fn plan_texture_copy(
    item: CaptureSize,
    content: CaptureSize,
    texture: CaptureSize,
    layout: TextureLayout,
    crop: WindowRect,
) -> (res: Result<TextureCopy>)
    ensures
        res == spec_plan_texture_copy(item, content, texture, layout, crop),
        res is Ok <==> validate_crop_accepts(item, content, texture, crop) && layout.format
            == BGRA8_UNORM_FORMAT && layout.sample_count == 1 && layout.array_size == 1
            && layout.mip_levels == 1,
        res matches Ok(plan) ==> plan.texture_size == texture && plan.region.left == crop.left
            && plan.region.top == crop.top && plan.region.right == crop.right
            && plan.region.bottom == crop.bottom,
        res matches Ok(plan) ==> plan.region.right - plan.region.left == plan.image_size.width
            && plan.region.bottom - plan.region.top == plan.image_size.height
            && plan.region.right <= texture.width && plan.region.bottom <= texture.height,
{
    let image_size = validate_crop(item, content, texture, crop)?;
    if layout.format != BGRA8_UNORM_FORMAT || layout.sample_count != 1 || layout.array_size != 1
        || layout.mip_levels != 1 {
        return Err(CaptureError::InvalidFrame("unsupported texture format or layout"));
    }
    Ok(TextureCopy {
        texture_size: texture,
        image_size,
        region: CopyRegion {
            left: crop.left as u32,
            top: crop.top as u32,
            right: crop.right as u32,
            bottom: crop.bottom as u32,
        },
    })
}

/// The event registrations of a capture session and whether its native
/// resources were released.
#[derive(Clone, Copy, Debug, PartialEq, Eq, Structural)]
pub struct SessionRegistrations {
    /// The token of the frame-arrived handler on the frame pool, if registered.
    pub frame_handler: Option<i64>,
    /// The token of the closed handler on the capture item, if registered.
    pub closed_handler: Option<i64>,
    /// The session was closed already.
    pub closed: bool,
}

/// What closing a capture session has to do.
#[derive(Clone, Copy, Debug, PartialEq, Eq, Structural)]
pub struct CloseSteps {
    /// Remove the frame-arrived handler with this token.
    pub remove_frame_handler: Option<i64>,
    /// Remove the closed handler with this token.
    pub remove_closed_handler: Option<i64>,
    /// Close the capture session, if one was created, and the frame pool.
    pub release: bool,
}

/// No step at all.
pub open spec fn no_steps() -> CloseSteps {
    CloseSteps { remove_frame_handler: None, remove_closed_handler: None, release: false }
}

/// The registrations and steps that closing a session in state `r` leaves and
/// takes: nothing once closed; otherwise every registered handler is removed,
/// the native resources are released, and the session counts as closed.
pub open spec fn spec_begin_close(r: SessionRegistrations) -> (SessionRegistrations, CloseSteps) {
    if r.closed {
        (r, no_steps())
    } else {
        (
            SessionRegistrations { frame_handler: None, closed_handler: None, closed: true },
            CloseSteps {
                remove_frame_handler: r.frame_handler,
                remove_closed_handler: r.closed_handler,
                release: true,
            },
        )
    }
}

impl SessionRegistrations {
    /// A session with nothing registered yet.
    pub fn new() -> (res: Self)
        ensures
            res == (SessionRegistrations { frame_handler: None, closed_handler: None, closed: false }),
    {
        SessionRegistrations { frame_handler: None, closed_handler: None, closed: false }
    }

    /// Marks the session closed and returns what closing it has to do; a
    /// session that was closed already needs nothing more.
    pub fn begin_close(&mut self) -> (steps: CloseSteps)
        ensures
            (*final(self), steps) == spec_begin_close(*old(self)),
            final(self).closed,
            !old(self).closed ==> final(self).frame_handler is None && final(self).closed_handler is None,
            old(self).closed ==> *final(self) == *old(self),
            !old(self).closed ==> steps.release && steps.remove_frame_handler
                == old(self).frame_handler && steps.remove_closed_handler == old(self).closed_handler,
            old(self).closed ==> !steps.release && steps.remove_frame_handler is None
                && steps.remove_closed_handler is None,
    {
        if self.closed {
            return CloseSteps { remove_frame_handler: None, remove_closed_handler: None, release: false };
        }
        self.closed = true;
        let steps = CloseSteps {
            remove_frame_handler: self.frame_handler,
            remove_closed_handler: self.closed_handler,
            release: true,
        };
        self.frame_handler = None;
        self.closed_handler = None;
        steps
    }
}

/// The first close of a session releases its capture session and frame pool
/// whatever was registered, removes exactly the handlers that were registered
/// and leaves none behind; a closed session stays as it is and needs nothing.
pub proof fn lemma_first_close_releases(r: SessionRegistrations)
    ensures
        !r.closed ==> {
            let (after, steps) = spec_begin_close(r);
            &&& steps.release
            &&& steps.remove_frame_handler == r.frame_handler
            &&& steps.remove_closed_handler == r.closed_handler
            &&& after.closed
            &&& after.frame_handler is None
            &&& after.closed_handler is None
        },
        r.closed ==> {
            let (after, steps) = spec_begin_close(r);
            &&& !steps.release
            &&& steps.remove_frame_handler is None
            &&& steps.remove_closed_handler is None
            &&& after == r
        },
{
}

/// Closing a session twice does nothing the second time, and closing never
/// removes a handler that was not registered.
pub proof fn lemma_close_is_idempotent(r: SessionRegistrations)
    ensures
        spec_begin_close(spec_begin_close(r).0).1 == no_steps(),
        spec_begin_close(spec_begin_close(r).0).0 == spec_begin_close(r).0,
        spec_begin_close(r).1.remove_frame_handler is Some ==> spec_begin_close(r).1.remove_frame_handler == r.frame_handler,
        spec_begin_close(r).1.remove_closed_handler is Some ==> spec_begin_close(r).1.remove_closed_handler == r.closed_handler,
{
}

/// The first failure among the results of cleanup steps, in the order the
/// steps ran, or success when every step succeeded.
pub open spec fn spec_first_failure<E>(results: Seq<std::result::Result<(), E>>) -> std::result::Result<(), E>
    decreases results.len(),
{
    if results.len() == 0 {
        Ok(())
    } else if results[0] is Err {
        results[0]
    } else {
        spec_first_failure(results.drop_first())
    }
}

/// Cleanup succeeds exactly when every step succeeded; otherwise it reports
/// one of the failures, and no step before that one failed.
pub proof fn lemma_first_failure_is_first_error<E>(results: Seq<std::result::Result<(), E>>)
    ensures
        spec_first_failure(results) is Ok <==> forall|i: int|
            0 <= i < results.len() ==> results[i] is Ok,
        spec_first_failure(results) is Err ==> exists|i: int|
            0 <= i < results.len() && spec_first_failure(results) == results[i] && forall|j: int|
                0 <= j < i ==> results[j] is Ok,
    decreases results.len(),
{
    if results.len() > 0 {
        let rest = results.drop_first();
        lemma_first_failure_is_first_error(rest);
        if results[0] is Err {
            assert(!(forall|i: int| 0 <= i < results.len() ==> results[i] is Ok) ) by {
                assert(!(results[0] is Ok));
            }
        } else {
            if spec_first_failure(rest) is Err {
                let k = choose|k: int|
                    0 <= k < rest.len() && spec_first_failure(rest) == rest[k] && forall|j: int|
                        0 <= j < k ==> rest[j] is Ok;
                assert(results[k + 1] == rest[k]);
                assert forall|j: int| 0 <= j < k + 1 implies results[j] is Ok by {
                    if j > 0 {
                        assert(results[j] == rest[j - 1]);
                    }
                }
            } else {
                assert forall|i: int| 0 <= i < results.len() implies results[i] is Ok by {
                    if i > 0 {
                        assert(results[i] == rest[i - 1]);
                    }
                }
            }
            if !(spec_first_failure(rest) is Ok) {
                let k = choose|k: int|
                    0 <= k < rest.len() && spec_first_failure(rest) == rest[k] && forall|j: int|
                        0 <= j < k ==> rest[j] is Ok;
                assert(results[k + 1] == rest[k]);
            }
        }
    }
}

/// Keeps the first failure of a series of cleanup steps; later failures are
/// dropped.
pub fn first_failure<E>(results: Vec<std::result::Result<(), E>>) -> (res: std::result::Result<(), E>)
    ensures
        res == spec_first_failure(results@),
        res is Ok <==> forall|i: int| 0 <= i < results@.len() ==> results@[i] is Ok,
        res is Err ==> exists|i: int|
            0 <= i < results@.len() && res == results@[i] && forall|j: int|
                0 <= j < i ==> results@[j] is Ok,
{
    proof {
        lemma_first_failure_is_first_error(results@);
    }
    let mut rest = results;
    while rest.len() > 0
        invariant
            spec_first_failure(rest@) == spec_first_failure(results@),
        decreases rest.len(),
    {
        let ghost before = rest@;
        let step = rest.remove(0);
        assert(rest@ =~= before.drop_first());
        if step.is_err() {
            proof {
                lemma_first_failure_is_first_error(results@);
            }
            return step;
        }
    }
    Ok(())
}

} // verus!
