//! Pixel filters on one planar YUV 4:2:0 frame: the luma plane, then the two
//! chroma planes of half the width and half the height, without padding.
//!
//! A frame carries no dimensions. The filters that need them estimate them
//! from the frame's length, as if the picture were square.

use vstd::prelude::*;
use vstd::slice::{slice_subrange, slice_to_vec};
use vstd::string::*;
use vstd::utf8::decode_utf8;
use crate::bytes::push_all;
use crate::error::MediaError;
use crate::text::{
    find_byte, first_index, lowercase_of, parse_i32, parse_i32_spec, str_eq, text_before,
    to_lowercase,
};

verus! {

/// The number of luma samples that a frame of `len` bytes is taken to hold:
/// two thirds of its length.
pub open spec fn estimated_pixels(len: int) -> int {
    len * 2 / 3
}

/// Whether `root` is the whole part of the square root of `n`.
pub open spec fn is_sqrt_floor(n: int, root: int) -> bool {
    0 <= root && root * root <= n < (root + 1) * (root + 1)
}

/// The whole part of the square root of `n`.
pub open spec fn sqrt_floor(n: int) -> int {
    choose|root: int| is_sqrt_floor(n, root)
}

/// The width that a frame of `len` bytes is taken to have: the whole part of
/// the square root of its luma samples.
pub open spec fn estimated_width(len: int) -> int {
    sqrt_floor(estimated_pixels(len))
}

/// The height that a frame of `len` bytes is taken to have: its luma samples
/// divided by the width, and 0 where the width is 0.
pub open spec fn estimated_height(len: int) -> int {
    if estimated_width(len) == 0 {
        0
    } else {
        estimated_pixels(len) / estimated_width(len)
    }
}

/// The `width` bytes of `data` from `start` on, or nothing where they do not
/// lie within `data`.
pub open spec fn row(data: Seq<u8>, start: int, width: int) -> Seq<u8> {
    if 0 <= start && 0 <= width && start + width <= data.len() {
        data.subrange(start, start + width)
    } else {
        Seq::empty()
    }
}

/// The first `rows` rows of a rectangle cut from a plane: the plane starts at
/// `base` and has rows of `stride` bytes; the rectangle starts at column `x` of
/// row `y` and is `width` wide.
pub open spec fn cropped_rows(
    data: Seq<u8>,
    base: int,
    stride: int,
    x: int,
    y: int,
    width: int,
    rows: nat,
) -> Seq<u8>
    decreases rows,
{
    if rows == 0 {
        Seq::empty()
    } else {
        cropped_rows(data, base, stride, x, y, width, (rows - 1) as nat) + row(
            data,
            base + (y + rows - 1) * stride + x,
            width,
        )
    }
}

/// The first `rows` rows of a plane, each turned end for end.
pub open spec fn mirrored_rows(data: Seq<u8>, base: int, width: int, rows: nat) -> Seq<u8>
    decreases rows,
{
    if rows == 0 {
        Seq::empty()
    } else {
        mirrored_rows(data, base, width, (rows - 1) as nat) + row(
            data,
            base + (rows - 1) * width,
            width,
        ).reverse()
    }
}

/// The last `count` rows of a plane of `rows` rows, the last row first.
pub open spec fn upturned_rows(data: Seq<u8>, base: int, width: int, rows: int, count: nat) -> Seq<
    u8,
>
    decreases count,
{
    if count == 0 {
        Seq::empty()
    } else {
        upturned_rows(data, base, width, rows, (count - 1) as nat) + row(
            data,
            base + (rows - count) * width,
            width,
        )
    }
}

/// Whether the rectangle of `width` by `height` at (`x`, `y`) lies within a
/// frame of `len` bytes, by the frame's estimated dimensions.
pub open spec fn crop_in_bounds(len: int, width: int, height: int, x: int, y: int) -> bool {
    0 <= x && 0 <= y && 0 <= width && 0 <= height && x + width <= estimated_width(len) && y
        + height <= estimated_height(len)
}

/// The frame cut down to the rectangle of `width` by `height` at (`x`, `y`):
/// that rectangle of the luma plane row by row, then of each chroma plane the
/// rectangle at half the coordinates and half the size. An empty frame is
/// left as it is, and a rectangle out of bounds is an error.
pub open spec fn crop_spec(data: Seq<u8>, width: int, height: int, x: int, y: int) -> Result<
    Seq<u8>,
    MediaError,
> {
    let w = estimated_width(data.len() as int);
    let h = estimated_height(data.len() as int);
    if data.len() == 0 {
        Ok(data)
    } else if !crop_in_bounds(data.len() as int, width, height, x, y) {
        Err(MediaError::CropOutOfBounds)
    } else {
        Ok(
            cropped_rows(data, 0, w, x, y, width, height as nat) + cropped_rows(
                data,
                w * h,
                w / 2,
                x / 2,
                y / 2,
                width / 2,
                (height / 2) as nat,
            ) + cropped_rows(
                data,
                w * h + (w * h) / 4,
                w / 2,
                x / 2,
                y / 2,
                width / 2,
                (height / 2) as nat,
            ),
        )
    }
}

/// The frame with every row of every plane turned end for end. What lies
/// behind the planes of the estimated dimensions is dropped.
pub open spec fn hflip_spec(data: Seq<u8>) -> Seq<u8> {
    let w = estimated_width(data.len() as int);
    let h = estimated_height(data.len() as int);
    if data.len() == 0 {
        data
    } else {
        mirrored_rows(data, 0, w, h as nat) + mirrored_rows(data, w * h, w / 2, (h / 2) as nat)
            + mirrored_rows(data, w * h + (w * h) / 4, w / 2, (h / 2) as nat)
    }
}

/// The frame with the rows of every plane in reverse order. What lies behind
/// the planes of the estimated dimensions is dropped.
pub open spec fn vflip_spec(data: Seq<u8>) -> Seq<u8> {
    let w = estimated_width(data.len() as int);
    let h = estimated_height(data.len() as int);
    if data.len() == 0 {
        data
    } else {
        upturned_rows(data, 0, w, h, h as nat) + upturned_rows(
            data,
            w * h,
            w / 2,
            h / 2,
            (h / 2) as nat,
        ) + upturned_rows(data, w * h + (w * h) / 4, w / 2, h / 2, (h / 2) as nat)
    }
}

/// A sample moved by `adjustment` and held within 0 and 255.
pub open spec fn brightened(sample: u8, adjustment: int) -> u8 {
    if sample + adjustment < 0 {
        0u8
    } else if sample + adjustment > 255 {
        255u8
    } else {
        (sample + adjustment) as u8
    }
}

/// The frame with every byte of every plane moved by `adjustment`.
pub open spec fn brightness_spec(data: Seq<u8>, adjustment: int) -> Seq<u8> {
    Seq::new(data.len(), |i: int| brightened(data[i], adjustment))
}

/// The frame with every byte replaced by what `curve` holds for it.
pub open spec fn contrast_spec(data: Seq<u8>, curve: Seq<u8>) -> Seq<u8> {
    Seq::new(data.len(), |i: int| curve[data[i] as int])
}

/// There is one whole part of a square root.
pub proof fn lemma_sqrt_floor_unique(n: int, root: int)
    requires
        is_sqrt_floor(n, root),
    ensures
        sqrt_floor(n) == root,
{
    let other = sqrt_floor(n);
    assert(is_sqrt_floor(n, other));
    assert(other == root) by (nonlinear_arith)
        requires
            0 <= root,
            0 <= other,
            root * root <= n < (root + 1) * (root + 1),
            other * other <= n < (other + 1) * (other + 1),
    ;
}

/// The whole part of the square root of `n`.
pub fn integer_sqrt(n: u64) -> (root: u64)
    ensures
        root as int == sqrt_floor(n as int),
        is_sqrt_floor(n as int, root as int),
        root < 0x1_0000_0000,
{
    let mut lo: u64 = 0;
    let mut hi: u64 = 0x1_0000_0000;
    assert(hi * hi > n) by (nonlinear_arith)
        requires
            hi == 0x1_0000_0000,
            n <= 0xFFFF_FFFF_FFFF_FFFF,
    ;
    while hi - lo > 1
        invariant
            lo < hi <= 0x1_0000_0000,
            lo * lo <= n < hi * hi,
        decreases hi - lo,
    {
        let mid = lo + (hi - lo) / 2;
        assert(mid * mid <= 0xFFFF_FFFF * 0xFFFF_FFFF) by (nonlinear_arith)
            requires
                mid <= 0xFFFF_FFFF,
        ;
        if mid * mid <= n {
            lo = mid;
        } else {
            hi = mid;
        }
    }
    proof {
        assert(hi == lo + 1);
        lemma_sqrt_floor_unique(n as int, lo as int);
    }
    lo
}

/// The product of a row number and a row length.
fn product(a: u64, b: u64) -> (p: u128)
    requires
        a <= 0x1_FFFF_FFFF,
        b <= 0xFFFF_FFFF,
    ensures
        p == a * b,
        p <= 0xFFFF_FFFF_FFFF_FFFF_FFFF,
{
    assert(a * b <= 0x1_FFFF_FFFF * 0xFFFF_FFFF) by (nonlinear_arith)
        requires
            a <= 0x1_FFFF_FFFF,
            b <= 0xFFFF_FFFF,
    ;
    a as u128 * b as u128
}

/// The luma samples that a frame of `len` bytes is taken to hold.
pub fn estimate_pixels(len: usize) -> (pixels: u64)
    ensures
        pixels as int == estimated_pixels(len as int),
{
    let n = len as u64;
    2 * (n / 3) + (2 * (n % 3)) / 3
}

/// The width and the height that a frame of `len` bytes is taken to have.
pub fn estimate_dimensions(len: usize) -> (dims: (u64, u64))
    ensures
        dims.0 as int == estimated_width(len as int),
        dims.1 as int == estimated_height(len as int),
        dims.0 < 0x1_0000_0000,
        dims.1 <= dims.0 + 2,
        dims.0 * dims.1 <= estimated_pixels(len as int),
        estimated_pixels(len as int) <= len,
{
    let pixels = estimate_pixels(len);
    let width = integer_sqrt(pixels);
    if width == 0 {
        (0, 0)
    } else {
        let height = pixels / width;
        assert(width * height <= pixels && height <= width + 2) by (nonlinear_arith)
            requires
                width > 0,
                height == pixels / width,
                0 <= width * width <= pixels < (width + 1) * (width + 1),
        ;
        (width, height)
    }
}

/// Appends the `width` bytes of `data` from `start` on, where they lie within
/// `data`.
fn push_row(out: &mut Vec<u8>, data: &[u8], start: u128, width: u64)
    ensures
        final(out)@ == old(out)@ + row(data@, start as int, width as int),
{
    let len = data.len();
    if start <= len as u128 && width as u128 <= len as u128 - start {
        let from = start as usize;
        push_all(out, slice_subrange(data, from, from + width as usize));
    } else {
        assert(out@ =~= old(out)@ + row(data@, start as int, width as int));
    }
}

/// Appends the `width` bytes of `data` from `start` on, last byte first, where
/// they lie within `data`.
fn push_row_mirrored(out: &mut Vec<u8>, data: &[u8], start: u128, width: u64)
    ensures
        final(out)@ == old(out)@ + row(data@, start as int, width as int).reverse(),
{
    let len = data.len();
    if start <= len as u128 && width as u128 <= len as u128 - start {
        let from = start as usize;
        let count = width as usize;
        let ghost line = row(data@, start as int, width as int);
        let mut k: usize = 0;
        while k < count
            invariant
                k <= count,
                from + count <= data@.len() == len,
                line == data@.subrange(from as int, from + count),
                out@ == old(out)@ + line.reverse().subrange(0, k as int),
            decreases count - k,
        {
            out.push(data[from + (count - 1 - k)]);
            k += 1;
            assert(out@ =~= old(out)@ + line.reverse().subrange(0, k as int));
        }
        assert(line.reverse().subrange(0, count as int) =~= line.reverse());
    } else {
        assert(row(data@, start as int, width as int).reverse() =~= Seq::<u8>::empty());
        assert(out@ =~= old(out)@ + row(data@, start as int, width as int).reverse());
    }
}

/// Appends a rectangle cut from a plane, row by row.
fn push_cropped_rows(
    out: &mut Vec<u8>,
    data: &[u8],
    base: u64,
    stride: u64,
    x: u64,
    y: u64,
    width: u64,
    rows: u64,
)
    requires
        stride < 0x1_0000_0000,
        x <= 0x7FFF_FFFF,
        y + rows <= 0x1_FFFF_FFFF,
    ensures
        final(out)@ == old(out)@ + cropped_rows(
            data@,
            base as int,
            stride as int,
            x as int,
            y as int,
            width as int,
            rows as nat,
        ),
{
    let mut k: u64 = 0;
    assert(out@ =~= old(out)@ + cropped_rows(
        data@,
        base as int,
        stride as int,
        x as int,
        y as int,
        width as int,
        0,
    ));
    while k < rows
        invariant
            k <= rows,
            stride < 0x1_0000_0000,
            x <= 0x7FFF_FFFF,
            y + rows <= 0x1_FFFF_FFFF,
            out@ == old(out)@ + cropped_rows(
                data@,
                base as int,
                stride as int,
                x as int,
                y as int,
                width as int,
                k as nat,
            ),
        decreases rows - k,
    {
        let line = product(y + k, stride);
        let start: u128 = base as u128 + line + x as u128;
        let ghost before = out@;
        push_row(out, data, start, width);
        k += 1;
        assert(out@ =~= old(out)@ + cropped_rows(
            data@,
            base as int,
            stride as int,
            x as int,
            y as int,
            width as int,
            k as nat,
        ));
    }
}

/// Appends the rows of a plane, each turned end for end.
fn push_mirrored_rows(out: &mut Vec<u8>, data: &[u8], base: u64, width: u64, rows: u64)
    requires
        width < 0x1_0000_0000,
        rows <= 0x1_FFFF_FFFF,
    ensures
        final(out)@ == old(out)@ + mirrored_rows(
            data@,
            base as int,
            width as int,
            rows as nat,
        ),
{
    let mut k: u64 = 0;
    assert(out@ =~= old(out)@ + mirrored_rows(data@, base as int, width as int, 0));
    while k < rows
        invariant
            k <= rows,
            width < 0x1_0000_0000,
            rows <= 0x1_FFFF_FFFF,
            out@ == old(out)@ + mirrored_rows(data@, base as int, width as int, k as nat),
        decreases rows - k,
    {
        let line = product(k, width);
        let start: u128 = base as u128 + line;
        push_row_mirrored(out, data, start, width);
        k += 1;
        assert(out@ =~= old(out)@ + mirrored_rows(data@, base as int, width as int, k as nat));
    }
}

/// Appends the rows of a plane, the last row first.
fn push_upturned_rows(out: &mut Vec<u8>, data: &[u8], base: u64, width: u64, rows: u64)
    requires
        width < 0x1_0000_0000,
        rows <= 0x1_FFFF_FFFF,
    ensures
        final(out)@ == old(out)@ + upturned_rows(
            data@,
            base as int,
            width as int,
            rows as int,
            rows as nat,
        ),
{
    let mut k: u64 = 0;
    assert(out@ =~= old(out)@ + upturned_rows(data@, base as int, width as int, rows as int, 0));
    while k < rows
        invariant
            k <= rows,
            width < 0x1_0000_0000,
            rows <= 0x1_FFFF_FFFF,
            out@ == old(out)@ + upturned_rows(
                data@,
                base as int,
                width as int,
                rows as int,
                k as nat,
            ),
        decreases rows - k,
    {
        let line = product(rows - 1 - k, width);
        let start: u128 = base as u128 + line;
        push_row(out, data, start, width);
        k += 1;
        assert(out@ =~= old(out)@ + upturned_rows(
            data@,
            base as int,
            width as int,
            rows as int,
            k as nat,
        ));
    }
}

/// Cuts the frame down to the rectangle of `crop_w` by `crop_h` at
/// (`crop_x`, `crop_y`).
pub fn apply_crop_filter(frame_data: &[u8], crop_w: i32, crop_h: i32, crop_x: i32, crop_y: i32) -> (result:
    Result<Vec<u8>, MediaError>)
    ensures
        match crop_spec(frame_data@, crop_w as int, crop_h as int, crop_x as int, crop_y as int) {
            Ok(bytes) => result matches Ok(out) && out@ == bytes,
            Err(error) => result == Err::<Vec<u8>, MediaError>(error),
        },
{
    let len = frame_data.len();
    if len < 1 {
        return Ok(slice_to_vec(frame_data));
    }
    let (width, height) = estimate_dimensions(len);
    if crop_x < 0 || crop_y < 0 || crop_w < 0 || crop_h < 0 {
        return Err(MediaError::CropOutOfBounds);
    }
    let x = crop_x as u64;
    let y = crop_y as u64;
    let w = crop_w as u64;
    let h = crop_h as u64;
    if x + w > width || y + h > height {
        return Err(MediaError::CropOutOfBounds);
    }
    let luma = width * height;
    let mut out: Vec<u8> = Vec::new();
    push_cropped_rows(&mut out, frame_data, 0, width, x, y, w, h);
    push_cropped_rows(&mut out, frame_data, luma, width / 2, x / 2, y / 2, w / 2, h / 2);
    push_cropped_rows(&mut out, frame_data, luma + luma / 4, width / 2, x / 2, y / 2, w / 2, h / 2);
    Ok(out)
}

/// Turns every row of every plane end for end.
pub fn apply_hflip_filter(frame_data: &[u8]) -> (out: Vec<u8>)
    ensures
        out@ == hflip_spec(frame_data@),
{
    let len = frame_data.len();
    if len < 1 {
        return slice_to_vec(frame_data);
    }
    let (width, height) = estimate_dimensions(len);
    let luma = width * height;
    let mut out: Vec<u8> = Vec::new();
    push_mirrored_rows(&mut out, frame_data, 0, width, height);
    push_mirrored_rows(&mut out, frame_data, luma, width / 2, height / 2);
    push_mirrored_rows(&mut out, frame_data, luma + luma / 4, width / 2, height / 2);
    out
}

/// Puts the rows of every plane in reverse order.
pub fn apply_vflip_filter(frame_data: &[u8]) -> (out: Vec<u8>)
    ensures
        out@ == vflip_spec(frame_data@),
{
    let len = frame_data.len();
    if len < 1 {
        return slice_to_vec(frame_data);
    }
    let (width, height) = estimate_dimensions(len);
    let luma = width * height;
    let mut out: Vec<u8> = Vec::new();
    push_upturned_rows(&mut out, frame_data, 0, width, height);
    push_upturned_rows(&mut out, frame_data, luma, width / 2, height / 2);
    push_upturned_rows(&mut out, frame_data, luma + luma / 4, width / 2, height / 2);
    out
}

/// Moves every byte of every plane by `adjustment`, holding it within 0 and
/// 255.
pub fn apply_brightness_filter(frame_data: &[u8], adjustment: i32) -> (out: Vec<u8>)
    ensures
        out@ == brightness_spec(frame_data@, adjustment as int),
{
    let len = frame_data.len();
    let mut out: Vec<u8> = Vec::new();
    let mut i: usize = 0;
    while i < len
        invariant
            len == frame_data@.len(),
            i <= len,
            out@ == brightness_spec(frame_data@, adjustment as int).subrange(0, i as int),
        decreases len - i,
    {
        let moved: i64 = frame_data[i] as i64 + adjustment as i64;
        let held: u8 = if moved < 0 {
            0
        } else if moved > 255 {
            255
        } else {
            moved as u8
        };
        out.push(held);
        i += 1;
        assert(out@ =~= brightness_spec(frame_data@, adjustment as int).subrange(0, i as int));
    }
    assert(out@ =~= brightness_spec(frame_data@, adjustment as int));
    out
}

/// Replaces every byte of every plane by what `curve` holds for it. The curve
/// of a contrast setting holds, for each sample, the sample moved away from
/// or towards the middle grey by the setting's factor.
pub fn apply_contrast_filter(frame_data: &[u8], curve: &[u8; 256]) -> (out: Vec<u8>)
    ensures
        out@ == contrast_spec(frame_data@, curve@),
{
    let len = frame_data.len();
    let mut out: Vec<u8> = Vec::new();
    let mut i: usize = 0;
    while i < len
        invariant
            len == frame_data@.len(),
            i <= len,
            out@ == contrast_spec(frame_data@, curve@).subrange(0, i as int),
        decreases len - i,
    {
        out.push(curve[frame_data[i] as usize]);
        i += 1;
        assert(out@ =~= contrast_spec(frame_data@, curve@).subrange(0, i as int));
    }
    assert(out@ =~= contrast_spec(frame_data@, curve@));
    out
}

/// `a` over `b`, rounded to the nearest whole number, a half upwards.
pub open spec fn rounded_ratio(a: int, b: int) -> int {
    (2 * a + b) / (2 * b)
}

/// Every `step`-th byte of `data` from `from` on, as far as `to` and the end of
/// `data`.
pub open spec fn sampled(data: Seq<u8>, from: int, to: int, step: int) -> Seq<u8>
    decreases
        (if from < to {
            to - from
        } else {
            0
        }),
{
    if from < 0 || from >= to || step <= 0 || from >= data.len() {
        Seq::empty()
    } else {
        seq![data[from]] + sampled(data, from + step, to, step)
    }
}

/// Every byte of `data` from `from` up to `to`, `count` times over.
pub open spec fn repeated(data: Seq<u8>, from: int, to: int, count: nat) -> Seq<u8>
    decreases to - from,
{
    if from < 0 || from >= to || from >= data.len() {
        Seq::empty()
    } else {
        Seq::new(count, |i: int| data[from]) + repeated(data, from + 1, to, count)
    }
}

/// `s` filled up to `len` bytes with copies of its last byte, or of 128 where
/// it is empty; `s` itself where it is long enough.
pub open spec fn padded(s: Seq<u8>, len: int) -> Seq<u8> {
    if s.len() >= len {
        s
    } else {
        s + Seq::new(
            (len - s.len()) as nat,
            |i: int|
                if s.len() > 0 {
                    s.last()
                } else {
                    128u8
                },
        )
    }
}

/// The smaller of two numbers.
pub open spec fn smaller(a: int, b: int) -> int {
    if a < b {
        a
    } else {
        b
    }
}

/// The frame resampled towards `width` by `height`, by the nearest sample and
/// without regard to rows. Where the target holds fewer samples than the
/// frame is taken to hold, every `step`-th byte is kept, `step` being the
/// ratio of the two in whole numbers; else every byte is repeated that many
/// times. The luma part is filled up to the target's samples, then the whole
/// to one and a half times that. A frame too short to hold a sample, and a
/// negative dimension, leave the frame as it is.
pub open spec fn scale_spec(data: Seq<u8>, width: int, height: int) -> Seq<u8> {
    let len = data.len() as int;
    let pixels = estimated_pixels(len);
    let target = width * height;
    let chroma = target / 4;
    if pixels <= 0 || width < 0 || height < 0 {
        data
    } else if target == 0 {
        Seq::empty()
    } else if target < pixels {
        let step = rounded_ratio(pixels, target);
        let luma = padded(sampled(data, 0, target, step), target);
        padded(luma + sampled(data, target, target + chroma, step), target + 2 * chroma)
    } else {
        let repeat = rounded_ratio(target, pixels) as nat;
        let luma_end = smaller(len, target);
        let luma = padded(repeated(data, 0, luma_end, repeat), target);
        padded(
            luma + repeated(data, luma_end, smaller(len, luma_end + chroma), repeat),
            target + 2 * chroma,
        )
    }
}

/// Appends every `step`-th byte of `data` from `from` on, as far as `to`.
fn push_sampled(out: &mut Vec<u8>, data: &[u8], from: u64, to: u64, step: u128)
    requires
        step <= 0xFFFF_FFFF_FFFF_FFFF_FFFF,
    ensures
        final(out)@ == old(out)@ + sampled(data@, from as int, to as int, step as int),
{
    let len = data.len();
    let mut i: u128 = from as u128;
    let ghost all = sampled(data@, from as int, to as int, step as int);
    assert(out@ =~= old(out)@ + Seq::<u8>::empty());
    while i < to as u128 && i < len as u128 && step > 0
        invariant
            len == data@.len(),
            step <= 0xFFFF_FFFF_FFFF_FFFF_FFFF,
            i <= 0x1_FFFF_FFFF_FFFF_FFFF_FFFF,
            exists|done: Seq<u8>|
                out@ == old(out)@ + done && done + sampled(data@, i as int, to as int, step as int)
                    == all,
        decreases
            (if i < to {
                to - i
            } else {
                0
            }),
    {
        let ghost done = choose|done: Seq<u8>|
            out@ == old(out)@ + done && done + sampled(data@, i as int, to as int, step as int)
                == all;
        out.push(data[i as usize]);
        proof {
            let next = done.push(data@[i as int]);
            assert(out@ =~= old(out)@ + next);
            assert(next + sampled(data@, i + step, to as int, step as int) =~= done + sampled(
                data@,
                i as int,
                to as int,
                step as int,
            ));
        }
        i = i + step;
    }
    proof {
        let done = choose|done: Seq<u8>|
            out@ == old(out)@ + done && done + sampled(data@, i as int, to as int, step as int)
                == all;
        assert(sampled(data@, i as int, to as int, step as int) =~= Seq::<u8>::empty());
        assert(done =~= all);
    }
}

/// Appends every byte of `data` from `from` up to `to`, `count` times over.
fn push_repeated(out: &mut Vec<u8>, data: &[u8], from: usize, to: usize, count: u64)
    ensures
        final(out)@ == old(out)@ + repeated(data@, from as int, to as int, count as nat),
{
    let len = data.len();
    let mut i: usize = from;
    let ghost all = repeated(data@, from as int, to as int, count as nat);
    assert(out@ =~= old(out)@ + Seq::<u8>::empty());
    while i < to && i < len
        invariant
            len == data@.len(),
            exists|done: Seq<u8>|
                out@ == old(out)@ + done && done + repeated(
                    data@,
                    i as int,
                    to as int,
                    count as nat,
                ) == all,
        decreases to as int - i as int,
    {
        let ghost done = choose|done: Seq<u8>|
            out@ == old(out)@ + done && done + repeated(data@, i as int, to as int, count as nat)
                == all;
        let byte = data[i];
        let mut k: u64 = 0;
        while k < count
            invariant
                k <= count,
                out@ == old(out)@ + done + Seq::new(k as nat, |j: int| byte),
            decreases count - k,
        {
            out.push(byte);
            k += 1;
            assert(out@ =~= old(out)@ + done + Seq::new(k as nat, |j: int| byte));
        }
        proof {
            let copies = Seq::new(count as nat, |j: int| data@[i as int]);
            assert(copies =~= Seq::new(count as nat, |j: int| byte));
            let next = done + copies;
            assert(out@ =~= old(out)@ + next);
            assert(next + repeated(data@, i + 1, to as int, count as nat) =~= done + repeated(
                data@,
                i as int,
                to as int,
                count as nat,
            ));
        }
        i += 1;
    }
    proof {
        let done = choose|done: Seq<u8>|
            out@ == old(out)@ + done && done + repeated(data@, i as int, to as int, count as nat)
                == all;
        assert(repeated(data@, i as int, to as int, count as nat) =~= Seq::<u8>::empty());
        assert(done =~= all);
    }
}

/// Fills `out` up to `len` bytes with copies of its last byte, or of 128 where
/// it is empty.
fn pad_to(out: &mut Vec<u8>, len: u64)
    ensures
        final(out)@ == padded(old(out)@, len as int),
{
    let fill: u8 = if out.len() > 0 {
        out[out.len() - 1]
    } else {
        128
    };
    let ghost start = out@;
    if (out.len() as u64) < len {
        while (out.len() as u64) < len
            invariant
                start == old(out)@,
                start.len() < len,
                start.len() <= out@.len() <= len,
                out@ == start + Seq::new((out@.len() - start.len()) as nat, |i: int| fill),
            decreases len - out@.len(),
        {
            out.push(fill);
            assert(out@ =~= start + Seq::new((out@.len() - start.len()) as nat, |i: int| fill));
        }
        assert(out@ =~= padded(start, len as int));
    }
}

/// Resamples the frame towards `target_width` by `target_height`. This keeps
/// or repeats single samples; it is no resampling of a picture.
pub fn apply_scale_filter(frame_data: &[u8], target_width: i32, target_height: i32) -> (out: Vec<
    u8,
>)
    ensures
        out@ == scale_spec(frame_data@, target_width as int, target_height as int),
{
    let len = frame_data.len();
    let pixels = estimate_pixels(len);
    if pixels == 0 || target_width < 0 || target_height < 0 {
        return slice_to_vec(frame_data);
    }
    let width = target_width as u64;
    let height = target_height as u64;
    assert(width * height <= 0x7FFF_FFFF * 0x7FFF_FFFF) by (nonlinear_arith)
        requires
            width <= 0x7FFF_FFFF,
            height <= 0x7FFF_FFFF,
    ;
    let target: u64 = width * height;
    let chroma: u64 = target / 4;
    let mut out: Vec<u8> = Vec::new();
    if target == 0 {
        return out;
    }
    if target < pixels {
        let step: u128 = (2 * pixels as u128 + target as u128) / (2 * target as u128);
        push_sampled(&mut out, frame_data, 0, target, step);
        pad_to(&mut out, target);
        push_sampled(&mut out, frame_data, target, target + chroma, step);
        pad_to(&mut out, target + 2 * chroma);
    } else {
        let repeat: u64 = ((2 * target as u128 + pixels as u128) / (2 * pixels as u128)) as u64;
        let luma_end: usize = if (len as u64) < target {
            len
        } else {
            target as usize
        };
        push_repeated(&mut out, frame_data, 0, luma_end, repeat);
        pad_to(&mut out, target);
        let chroma_end: usize = if chroma > (len - luma_end) as u64 {
            len
        } else {
            luma_end + chroma as usize
        };
        push_repeated(&mut out, frame_data, luma_end, chroma_end, repeat);
        pad_to(&mut out, target + 2 * chroma);
    }
    out
}

/// What a filter string asks for.
#[derive(Debug, Clone, Copy, PartialEq, Eq, Structural)]
pub enum VideoFilter {
    /// `scale` or `resize` with a width and a height.
    Scale { width: i32, height: i32 },
    /// `crop` with a width, a height and the corner.
    Crop { width: i32, height: i32, x: i32, y: i32 },
    /// `hflip`.
    HFlip,
    /// `vflip`.
    VFlip,
    /// `brightness` with its adjustment.
    Brightness(i32),
    /// `contrast` with a parameter, whatever that holds.
    Contrast,
    /// Anything else: the frame passes unchanged.
    Passthrough,
}

/// The name of a filter string: what stands before its first `=`, in
/// lowercase.
pub open spec fn filter_name(filter: Seq<u8>) -> Seq<char> {
    lowercase_of(decode_utf8(filter.subrange(0, first_index(filter, 0, 0x3Du8))))
}

/// The parameters of a filter string: what stands between its first `=` and
/// its second, or its end; none where it has no `=`.
pub open spec fn filter_parameters(filter: Seq<u8>) -> Option<Seq<u8>> {
    let first = first_index(filter, 0, 0x3Du8);
    if first >= filter.len() {
        None
    } else {
        Some(filter.subrange(first + 1, first_index(filter, first + 1, 0x3Du8)))
    }
}

/// The `n`-th of the fields that colons divide `parameters` into, counted from
/// 0; none where there are not so many.
pub open spec fn nth_field(parameters: Seq<u8>, n: nat) -> Option<Seq<u8>>
    decreases n,
{
    let colon = first_index(parameters, 0, 0x3Au8);
    if n == 0 {
        Some(parameters.subrange(0, colon))
    } else if colon >= parameters.len() {
        None
    } else {
        nth_field(parameters.subrange(colon + 1, parameters.len() as int), (n - 1) as nat)
    }
}

/// The number in the `n`-th field of `parameters`, where there is such a field
/// and it holds a number.
pub open spec fn nth_number(parameters: Seq<u8>, n: nat) -> Option<i32> {
    match nth_field(parameters, n) {
        Some(field) => parse_i32_spec(field),
        None => None,
    }
}

/// What the filter of the name `name`, written in lowercase, with the
/// parameters `parameters` asks for. A filter whose parameters are missing or
/// hold no numbers asks for nothing.
pub open spec fn filter_of(name: Seq<char>, parameters: Option<Seq<u8>>) -> VideoFilter {
    if name == "scale"@ || name == "resize"@ {
        match parameters {
            Some(p) => match (nth_number(p, 0), nth_number(p, 1)) {
                (Some(width), Some(height)) => VideoFilter::Scale { width, height },
                _ => VideoFilter::Passthrough,
            },
            None => VideoFilter::Passthrough,
        }
    } else if name == "crop"@ {
        match parameters {
            Some(p) => match (nth_number(p, 0), nth_number(p, 1), nth_number(p, 2), nth_number(p, 3)) {
                (Some(width), Some(height), Some(x), Some(y)) => VideoFilter::Crop {
                    width,
                    height,
                    x,
                    y,
                },
                _ => VideoFilter::Passthrough,
            },
            None => VideoFilter::Passthrough,
        }
    } else if name == "hflip"@ {
        VideoFilter::HFlip
    } else if name == "vflip"@ {
        VideoFilter::VFlip
    } else if name == "brightness"@ {
        match parameters {
            Some(p) => match parse_i32_spec(p) {
                Some(adjustment) => VideoFilter::Brightness(adjustment),
                None => VideoFilter::Passthrough,
            },
            None => VideoFilter::Passthrough,
        }
    } else if name == "contrast"@ {
        match parameters {
            Some(_) => VideoFilter::Contrast,
            None => VideoFilter::Passthrough,
        }
    } else {
        VideoFilter::Passthrough
    }
}

/// What a filter string asks for.
pub open spec fn parse_filter_spec(filter: Seq<u8>) -> VideoFilter {
    filter_of(filter_name(filter), filter_parameters(filter))
}

/// The frame after the filter `filter`. The contrast filter goes by `curve`,
/// and without one it lets the frame pass.
pub open spec fn filtered(data: Seq<u8>, filter: VideoFilter, curve: Option<Seq<u8>>) -> Result<
    Seq<u8>,
    MediaError,
> {
    match filter {
        VideoFilter::Scale { width, height } => Ok(scale_spec(data, width as int, height as int)),
        VideoFilter::Crop { width, height, x, y } => crop_spec(
            data,
            width as int,
            height as int,
            x as int,
            y as int,
        ),
        VideoFilter::HFlip => Ok(hflip_spec(data)),
        VideoFilter::VFlip => Ok(vflip_spec(data)),
        VideoFilter::Brightness(adjustment) => Ok(brightness_spec(data, adjustment as int)),
        VideoFilter::Contrast => match curve {
            Some(table) => Ok(contrast_spec(data, table)),
            None => Ok(data),
        },
        VideoFilter::Passthrough => Ok(data),
    }
}

/// The view of a contrast curve, where there is one.
pub open spec fn curve_view(curve: Option<&[u8; 256]>) -> Option<Seq<u8>> {
    match curve {
        Some(table) => Some(table@),
        None => None,
    }
}

/// Whether `result` is what `expected` says: the same bytes, or the same
/// error.
pub open spec fn gives(result: Result<Vec<u8>, MediaError>, expected: Result<Seq<u8>, MediaError>) -> bool {
    match expected {
        Ok(bytes) => result matches Ok(out) && out@ == bytes,
        Err(error) => result == Err::<Vec<u8>, MediaError>(error),
    }
}

/// The `n`-th of the fields that colons divide `parameters` into.
fn field<'a>(parameters: &'a [u8], n: usize) -> (found: Option<&'a [u8]>)
    ensures
        match nth_field(parameters@, n as nat) {
            Some(bytes) => found matches Some(f) && f@ == bytes,
            None => found is None,
        },
{
    let mut rest: &[u8] = parameters;
    let mut k: usize = 0;
    while k < n
        invariant
            k <= n,
            nth_field(rest@, (n - k) as nat) == nth_field(parameters@, n as nat),
        decreases n - k,
    {
        let colon = find_byte(rest, 0, 0x3A);
        if colon >= rest.len() {
            return None;
        }
        rest = slice_subrange(rest, colon + 1, rest.len());
        k += 1;
    }
    let colon = find_byte(rest, 0, 0x3A);
    Some(slice_subrange(rest, 0, colon))
}

/// The number in the `n`-th field of `parameters`.
fn number(parameters: &[u8], n: usize) -> (found: Option<i32>)
    ensures
        found == nth_number(parameters@, n as nat),
{
    match field(parameters, n) {
        Some(bytes) => parse_i32(bytes),
        None => None,
    }
}

/// The view of parameters, where there are any.
pub open spec fn parameters_view(parameters: Option<&[u8]>) -> Option<Seq<u8>> {
    match parameters {
        Some(p) => Some(p@),
        None => None,
    }
}

/// What the filter of the name `name`, written in lowercase, with the
/// parameters `parameters` asks for.
pub fn filter_from_parts(name: &str, parameters: Option<&[u8]>) -> (filter: VideoFilter)
    ensures
        filter == filter_of(name@, parameters_view(parameters)),
{
    if str_eq(name, "scale") || str_eq(name, "resize") {
        match parameters {
            Some(p) => match (number(p, 0), number(p, 1)) {
                (Some(width), Some(height)) => VideoFilter::Scale { width, height },
                _ => VideoFilter::Passthrough,
            },
            None => VideoFilter::Passthrough,
        }
    } else if str_eq(name, "crop") {
        match parameters {
            Some(p) => match (number(p, 0), number(p, 1), number(p, 2), number(p, 3)) {
                (Some(width), Some(height), Some(x), Some(y)) => VideoFilter::Crop {
                    width,
                    height,
                    x,
                    y,
                },
                _ => VideoFilter::Passthrough,
            },
            None => VideoFilter::Passthrough,
        }
    } else if str_eq(name, "hflip") {
        VideoFilter::HFlip
    } else if str_eq(name, "vflip") {
        VideoFilter::VFlip
    } else if str_eq(name, "brightness") {
        match parameters {
            Some(p) => match parse_i32(p) {
                Some(adjustment) => VideoFilter::Brightness(adjustment),
                None => VideoFilter::Passthrough,
            },
            None => VideoFilter::Passthrough,
        }
    } else if str_eq(name, "contrast") {
        match parameters {
            Some(_) => VideoFilter::Contrast,
            None => VideoFilter::Passthrough,
        }
    } else {
        VideoFilter::Passthrough
    }
}

/// The parameters of a filter string, as they are written.
pub fn filter_parameter_text(filter_string: &str) -> (parameters: Option<Vec<u8>>)
    ensures
        match filter_parameters(filter_string.spec_bytes()) {
            Some(bytes) => parameters matches Some(p) && p@ == bytes,
            None => parameters is None,
        },
{
    let bytes = filter_string.as_bytes();
    let first = find_byte(bytes, 0, 0x3D);
    if first >= bytes.len() {
        None
    } else {
        let second = find_byte(bytes, first + 1, 0x3D);
        Some(slice_to_vec(slice_subrange(bytes, first + 1, second)))
    }
}

/// Reads what a filter string asks for: a name, and behind `=` its parameters,
/// divided by colons.
pub fn parse_video_filter(filter_string: &str) -> (filter: VideoFilter)
    ensures
        filter == parse_filter_spec(filter_string.spec_bytes()),
{
    let bytes = filter_string.as_bytes();
    let first = find_byte(bytes, 0, 0x3D);
    let name = to_lowercase(text_before(filter_string, first));
    if first >= bytes.len() {
        filter_from_parts(name.as_str(), None)
    } else {
        let second = find_byte(bytes, first + 1, 0x3D);
        filter_from_parts(name.as_str(), Some(slice_subrange(bytes, first + 1, second)))
    }
}

/// Applies the filter `filter` to one frame.
pub fn apply_filter(frame_data: &[u8], filter: VideoFilter, contrast: Option<&[u8; 256]>) -> (result:
    Result<Vec<u8>, MediaError>)
    ensures
        gives(result, filtered(frame_data@, filter, curve_view(contrast))),
{
    match filter {
        VideoFilter::Scale { width, height } => Ok(apply_scale_filter(frame_data, width, height)),
        VideoFilter::Crop { width, height, x, y } => apply_crop_filter(
            frame_data,
            width,
            height,
            x,
            y,
        ),
        VideoFilter::HFlip => Ok(apply_hflip_filter(frame_data)),
        VideoFilter::VFlip => Ok(apply_vflip_filter(frame_data)),
        VideoFilter::Brightness(adjustment) => Ok(apply_brightness_filter(frame_data, adjustment)),
        VideoFilter::Contrast => match contrast {
            Some(curve) => Ok(apply_contrast_filter(frame_data, curve)),
            None => Ok(slice_to_vec(frame_data)),
        },
        VideoFilter::Passthrough => Ok(slice_to_vec(frame_data)),
    }
}

/// Applies the filter that `filter_string` asks for to one frame. An unknown
/// filter, and one whose parameters cannot be read, lets the frame pass; only
/// a crop out of bounds fails. The contrast filter goes by `contrast`, the
/// curve of its parameter, and lets the frame pass where there is none.
pub fn apply_video_filter(
    frame_data: &[u8],
    filter_string: &str,
    contrast: Option<&[u8; 256]>,
) -> (result: Result<Vec<u8>, MediaError>)
    ensures
        gives(
            result,
            filtered(
                frame_data@,
                parse_filter_spec(filter_string.spec_bytes()),
                curve_view(contrast),
            ),
        ),
{
    apply_filter(frame_data, parse_video_filter(filter_string), contrast)
}

/// A brightness adjustment of 0 changes nothing.
pub proof fn lemma_brightness_zero(data: Seq<u8>)
    ensures
        brightness_spec(data, 0) == data,
{
    assert(brightness_spec(data, 0) =~= data);
}

/// A brightness adjustment of 255 or more makes every byte 255.
pub proof fn lemma_brightness_saturates(data: Seq<u8>, adjustment: int)
    requires
        adjustment >= 255,
    ensures
        brightness_spec(data, adjustment).len() == data.len(),
        forall|i: int| 0 <= i < data.len() ==> brightness_spec(data, adjustment)[i] == 255,
{
}

/// A brightness adjustment of -255 or less makes every byte 0.
pub proof fn lemma_brightness_darkens(data: Seq<u8>, adjustment: int)
    requires
        adjustment <= -255,
    ensures
        brightness_spec(data, adjustment).len() == data.len(),
        forall|i: int| 0 <= i < data.len() ==> brightness_spec(data, adjustment)[i] == 0,
{
}

/// The contrast filter with the curve that holds every value for itself
/// changes nothing.
pub proof fn lemma_contrast_identity(data: Seq<u8>, curve: Seq<u8>)
    requires
        curve.len() == 256,
        forall|v: int| 0 <= v < 256 ==> curve[v] == v,
    ensures
        contrast_spec(data, curve) == data,
{
    assert(contrast_spec(data, curve) =~= data);
}

/// The rows of a rectangle that lies within its plane, and the plane within
/// the frame, are all there: the rectangle has `rows` times `width` bytes.
pub proof fn lemma_cropped_rows_len(
    data: Seq<u8>,
    base: int,
    stride: int,
    x: int,
    y: int,
    width: int,
    rows: nat,
)
    requires
        0 <= base,
        0 <= x,
        0 <= y,
        0 <= width,
        x + width <= stride,
        base + (y + rows) * stride <= data.len(),
    ensures
        cropped_rows(data, base, stride, x, y, width, rows).len() == rows * width,
    decreases rows,
{
    if rows > 0 {
        let before = (rows - 1) as nat;
        assert((y + before) * stride <= (y + rows) * stride && (y + rows) * stride == (y + rows
            - 1) * stride + stride && rows * width == before * width + width)
            by (nonlinear_arith)
            requires
                before == rows - 1,
                0 <= stride,
                0 <= y,
        ;
        lemma_cropped_rows_len(data, base, stride, x, y, width, before);
        let start = base + (y + rows - 1) * stride + x;
        assert(row(data, start, width).len() == width);
    } else {
        assert(rows * width == 0) by (nonlinear_arith)
            requires
                rows == 0,
        ;
    }
}

/// A crop within bounds, of even width and even height, of a frame that is
/// not empty yields exactly one and a half times width times height bytes.
pub proof fn lemma_crop_len(data: Seq<u8>, width: int, height: int, x: int, y: int)
    requires
        data.len() > 0,
        crop_in_bounds(data.len() as int, width, height, x, y),
        width % 2 == 0,
        height % 2 == 0,
    ensures
        crop_spec(data, width, height, x, y) is Ok,
        crop_spec(data, width, height, x, y)->Ok_0.len() == width * height * 3 / 2,
{
    let len = data.len() as int;
    let pixels = estimated_pixels(len);
    let w = estimated_width(len);
    let h = estimated_height(len);
    assert(w * h <= pixels && 0 <= w && 0 <= h) by {
        lemma_estimated_area(len);
    }
    let luma = w * h;
    let quarter = luma / 4;
    assert((w / 2) * (h / 2) <= quarter && (y + height) * w <= luma && (y / 2 + height / 2) * (w
        / 2) <= (w / 2) * (h / 2) && width * height == 4 * ((width / 2) * (height / 2)))
        by (nonlinear_arith)
        requires
            luma == w * h,
            quarter == luma / 4,
            0 <= w,
            0 <= h,
            0 <= y,
            0 <= height,
            0 <= width,
            y + height <= h,
            width % 2 == 0,
            height % 2 == 0,
    ;
    lemma_cropped_rows_len(data, 0, w, x, y, width, height as nat);
    lemma_cropped_rows_len(data, luma, w / 2, x / 2, y / 2, width / 2, (height / 2) as nat);
    lemma_cropped_rows_len(
        data,
        luma + quarter,
        w / 2,
        x / 2,
        y / 2,
        width / 2,
        (height / 2) as nat,
    );
    let first = cropped_rows(data, 0, w, x, y, width, height as nat);
    let second = cropped_rows(data, luma, w / 2, x / 2, y / 2, width / 2, (height / 2) as nat);
    let third = cropped_rows(
        data,
        luma + quarter,
        w / 2,
        x / 2,
        y / 2,
        width / 2,
        (height / 2) as nat,
    );
    let half = (height / 2) * (width / 2);
    assert(first.len() == height * width);
    assert(second.len() == half);
    assert(third.len() == half);
    assert(height * width + half + half == width * height * 3 / 2) by (nonlinear_arith)
        requires
            half == (height / 2) * (width / 2),
            width * height == 4 * ((width / 2) * (height / 2)),
    ;
    assert(crop_spec(data, width, height, x, y)->Ok_0 == first + second + third);
}

/// The estimated dimensions are not negative, and the picture that they span
/// holds no more samples than the frame is taken to hold.
pub proof fn lemma_estimated_area(len: int)
    requires
        0 <= len,
    ensures
        0 <= estimated_width(len),
        0 <= estimated_height(len),
        estimated_width(len) * estimated_height(len) <= estimated_pixels(len),
        estimated_pixels(len) * 3 <= len * 2,
{
    let pixels = estimated_pixels(len);
    lemma_sqrt_floor_exists(pixels);
    let w = sqrt_floor(pixels);
    assert(is_sqrt_floor(pixels, w));
    if w > 0 {
        let h = pixels / w;
        assert(w * h <= pixels && 0 <= h) by (nonlinear_arith)
            requires
                w > 0,
                0 <= pixels,
                h == pixels / w,
        ;
    }
}

/// Every number that is not negative has a whole part of its square root.
pub proof fn lemma_sqrt_floor_exists(n: int)
    requires
        0 <= n,
    ensures
        is_sqrt_floor(n, sqrt_floor(n)),
    decreases n,
{
    if n == 0 {
        assert(is_sqrt_floor(0, 0));
    } else {
        lemma_sqrt_floor_exists(n - 1);
        let r = sqrt_floor(n - 1);
        assert(is_sqrt_floor(n - 1, r));
        if n < (r + 1) * (r + 1) {
            assert(is_sqrt_floor(n, r));
        } else {
            assert(is_sqrt_floor(n, r + 1)) by (nonlinear_arith)
                requires
                    0 <= r,
                    r * r <= n - 1 < (r + 1) * (r + 1),
                    n >= (r + 1) * (r + 1),
            ;
        }
    }
}

} // verus!
