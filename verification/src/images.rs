//! Frames as image files: the name of the file of a frame, the image formats
//! that frames are saved in, and the samples of a picture without its alpha
//! channel.

use vstd::prelude::*;
use vstd::string::*;
use crate::error::MediaError;
use crate::text::{lowercase_of, str_eq, to_lowercase};

verus! {

/// How frames are to be saved as images.
#[derive(Debug, Clone)]
pub struct SaveFramesOptions {
    /// The directory that takes the images.
    pub output_dir: String,
    /// The image format: `png`, `jpg`, `jpeg` or `bmp`. `png` where none is
    /// given.
    pub image_format: Option<String>,
    /// What the file names start with. `frame` where nothing is given.
    pub filename_prefix: Option<String>,
    /// The number of digits that a frame number is filled up to. 4 where none
    /// is given.
    pub frame_number_digits: Option<u32>,
}

/// The image formats that frames are saved in.
#[derive(Debug, Clone, Copy, PartialEq, Eq, Structural)]
pub enum ImageKind {
    Png,
    Jpeg,
    Bmp,
}

/// The image format that `name`, written in lowercase, names.
pub open spec fn image_kind_of(name: Seq<char>) -> Result<ImageKind, MediaError> {
    if name == "png"@ {
        Ok(ImageKind::Png)
    } else if name == "jpg"@ || name == "jpeg"@ {
        Ok(ImageKind::Jpeg)
    } else if name == "bmp"@ {
        Ok(ImageKind::Bmp)
    } else {
        Err(MediaError::UnsupportedImageFormat)
    }
}

/// The text of one decimal digit.
pub open spec fn digit_text(digit: nat) -> Seq<char> {
    if digit == 0 {
        "0"@
    } else if digit == 1 {
        "1"@
    } else if digit == 2 {
        "2"@
    } else if digit == 3 {
        "3"@
    } else if digit == 4 {
        "4"@
    } else if digit == 5 {
        "5"@
    } else if digit == 6 {
        "6"@
    } else if digit == 7 {
        "7"@
    } else if digit == 8 {
        "8"@
    } else {
        "9"@
    }
}

/// The number of decimal digits of `n`.
pub open spec fn digit_count(n: nat) -> nat
    decreases n,
{
    if n < 10 {
        1
    } else {
        1 + digit_count(n / 10)
    }
}

/// The decimal digits of `n` as text.
pub open spec fn decimal_text(n: nat) -> Seq<char>
    decreases n,
{
    if n < 10 {
        digit_text(n)
    } else {
        decimal_text(n / 10) + digit_text(n % 10)
    }
}

/// `count` zeros as text.
pub open spec fn zeros_text(count: nat) -> Seq<char>
    decreases count,
{
    if count == 0 {
        Seq::empty()
    } else {
        zeros_text((count - 1) as nat) + "0"@
    }
}

/// The number `n` as text, filled up with zeros in front to `digits` digits.
pub open spec fn padded_number(n: nat, digits: nat) -> Seq<char> {
    zeros_text(
        if digit_count(n) < digits {
            (digits - digit_count(n)) as nat
        } else {
            0
        },
    ) + decimal_text(n)
}

/// The name of the image file of a frame: the prefix, an underscore, the
/// frame's number filled up with zeros to `digits` digits, a dot, and the
/// extension.
pub open spec fn image_file_name_spec(
    prefix: Seq<char>,
    frame_number: u32,
    digits: u32,
    extension: Seq<char>,
) -> Seq<char> {
    prefix + "_"@ + padded_number(frame_number as nat, digits as nat) + "."@ + extension
}

/// The samples of `pixels` pixels without their alpha channel: of every four
/// bytes the first three.
pub open spec fn rgb_of_rgba_spec(rgba: Seq<u8>, pixels: nat) -> Seq<u8> {
    Seq::new(3 * pixels, |i: int| rgba[i / 3 * 4 + i % 3])
}

/// The image format that `name`, taken as written, names.
pub fn image_kind_from_name(name: &str) -> (kind: Result<ImageKind, MediaError>)
    ensures
        kind == image_kind_of(name@),
{
    if str_eq(name, "png") {
        Ok(ImageKind::Png)
    } else if str_eq(name, "jpg") || str_eq(name, "jpeg") {
        Ok(ImageKind::Jpeg)
    } else if str_eq(name, "bmp") {
        Ok(ImageKind::Bmp)
    } else {
        Err(MediaError::UnsupportedImageFormat)
    }
}

/// The image format that `name` names, whatever the case of its letters.
pub fn image_kind(name: &str) -> (kind: Result<ImageKind, MediaError>)
    ensures
        kind == image_kind_of(lowercase_of(name@)),
{
    let lower = to_lowercase(name);
    image_kind_from_name(lower.as_str())
}

/// The text of one decimal digit.
fn digit_str(digit: u32) -> (text: &'static str)
    requires
        digit < 10,
    ensures
        text@ == digit_text(digit as nat),
{
    if digit == 0 {
        "0"
    } else if digit == 1 {
        "1"
    } else if digit == 2 {
        "2"
    } else if digit == 3 {
        "3"
    } else if digit == 4 {
        "4"
    } else if digit == 5 {
        "5"
    } else if digit == 6 {
        "6"
    } else if digit == 7 {
        "7"
    } else if digit == 8 {
        "8"
    } else {
        "9"
    }
}

/// Appends the decimal digits of `n`.
fn append_decimal(text: &mut String, n: u32)
    ensures
        final(text)@ == old(text)@ + decimal_text(n as nat),
    decreases n,
{
    if n >= 10 {
        append_decimal(text, n / 10);
    }
    text.append(digit_str(n % 10));
    assert(text@ =~= old(text)@ + decimal_text(n as nat));
}

/// Counts the decimal digits of `n`.
fn count_digits(n: u32) -> (count: u32)
    ensures
        count == digit_count(n as nat),
        1 <= count <= 10,
    decreases n,
{
    if n < 10 {
        1
    } else {
        proof {
            lemma_digit_count_bound(n as nat / 10);
        }
        1 + count_digits(n / 10)
    }
}

/// A number below a billion has nine digits at most.
proof fn lemma_digit_count_bound(n: nat)
    requires
        n < 1_000_000_000,
    ensures
        digit_count(n) <= 9,
{
    reveal_with_fuel(digit_count, 10);
}

/// The name of the image file of the frame `frame_number`.
pub fn image_file_name(prefix: &str, frame_number: u32, digits: u32, extension: &str) -> (name:
    String)
    ensures
        name@ == image_file_name_spec(prefix@, frame_number, digits, extension@),
{
    let mut name = prefix.to_string();
    name.append("_");
    let count = count_digits(frame_number);
    let fill: u32 = if count < digits {
        digits - count
    } else {
        0
    };
    let ghost before = name@;
    let mut k: u32 = 0;
    while k < fill
        invariant
            k <= fill,
            name@ == before + zeros_text(k as nat),
        decreases fill - k,
    {
        name.append("0");
        k += 1;
        assert(name@ =~= before + zeros_text(k as nat));
    }
    append_decimal(&mut name, frame_number);
    name.append(".");
    name.append(extension);
    assert(name@ =~= image_file_name_spec(prefix@, frame_number, digits, extension@));
    name
}

/// What the options settle: the image format, the prefix of the file names,
/// the digits of a frame number and the extension of the files, which is the
/// format's name in lowercase.
pub open spec fn save_plan_spec(
    options: SaveFramesOptions,
    plan: Result<(ImageKind, String, u32, String), MediaError>,
) -> bool {
    let format = match options.image_format {
        Some(name) => lowercase_of(name@),
        None => lowercase_of("png"@),
    };
    match image_kind_of(format) {
        Err(error) => plan matches Err(e) && e == error,
        Ok(kind) => plan matches Ok(settled) && {
            &&& settled.0 == kind
            &&& settled.1@ == (match options.filename_prefix {
                Some(prefix) => prefix@,
                None => "frame"@,
            })
            &&& settled.2 == (match options.frame_number_digits {
                Some(digits) => digits,
                None => 4u32,
            })
            &&& settled.3@ == format
        },
    }
}

/// Settles how frames are saved: the image format, the prefix, the digits and
/// the extension.
pub fn save_plan(options: &SaveFramesOptions) -> (plan: Result<
    (ImageKind, String, u32, String),
    MediaError,
>)
    ensures
        save_plan_spec(*options, plan),
{
    let extension = match &options.image_format {
        Some(name) => to_lowercase(name.as_str()),
        None => to_lowercase("png"),
    };
    let kind = match image_kind_from_name(extension.as_str()) {
        Ok(kind) => kind,
        Err(error) => {
            return Err(error);
        },
    };
    let prefix = match &options.filename_prefix {
        Some(prefix) => prefix.clone(),
        None => "frame".to_string(),
    };
    let digits = match options.frame_number_digits {
        Some(digits) => digits,
        None => 4,
    };
    Ok((kind, prefix, digits, extension))
}

/// Takes the alpha channel out of `pixels` pixels.
pub fn rgb_of_rgba(rgba: &[u8], pixels: usize) -> (rgb: Vec<u8>)
    requires
        4 * pixels <= rgba@.len(),
    ensures
        rgb@ == rgb_of_rgba_spec(rgba@, pixels as nat),
{
    let mut rgb: Vec<u8> = Vec::new();
    let mut k: usize = 0;
    let _ = rgba.len();
    while k < pixels
        invariant
            k <= pixels,
            4 * pixels <= rgba@.len() <= usize::MAX,
            rgb@ == rgb_of_rgba_spec(rgba@, k as nat),
        decreases pixels - k,
    {
        rgb.push(rgba[4 * k]);
        rgb.push(rgba[4 * k + 1]);
        rgb.push(rgba[4 * k + 2]);
        k += 1;
        assert(rgb@ =~= rgb_of_rgba_spec(rgba@, k as nat));
    }
    rgb
}

/// Takes the alpha channel out of a picture of `width` by `height`, where
/// `rgba` holds all of it: four bytes for every pixel.
pub fn rgb_of_picture(rgba: &[u8], width: u32, height: u32) -> (rgb: Option<Vec<u8>>)
    ensures
        match rgb {
            Some(bytes) => 4 * (width * height) <= rgba@.len() && bytes@ == rgb_of_rgba_spec(
                rgba@,
                (width * height) as nat,
            ),
            None => 4 * (width * height) > rgba@.len(),
        },
{
    assert(width * height <= 0xFFFF_FFFF * 0xFFFF_FFFF) by (nonlinear_arith)
        requires
            width <= 0xFFFF_FFFF,
            height <= 0xFFFF_FFFF,
    ;
    let pixels: u64 = width as u64 * height as u64;
    assert(pixels == width * height);
    if pixels > (rgba.len() / 4) as u64 {
        None
    } else {
        Some(rgb_of_rgba(rgba, pixels as usize))
    }
}

} // verus!
