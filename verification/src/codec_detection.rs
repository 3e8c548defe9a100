//! Detection of the codec, the dimensions and the frame rate of a stream from
//! its first bytes, and the figures by which a duration is estimated.
//!
//! Detection never fails: a stream that does not show what its format
//! promises yields empty names and unknown fields.

use vstd::prelude::*;
use vstd::slice::slice_subrange;
use vstd::string::*;
use vstd::utf8::{decode_utf8, encode_utf8_decode_utf8, valid_utf8};
use crate::bytes::{has_bytes_at, read_u16_le, read_u32_le, starts_with_at, u16_at, u32_at};
use crate::format::{extension_of, path_extension, MediaFormat, MediaFormatView};
use crate::format_parsers::{
    detect_y4m_fields, ebml_magic, find_y4m_header_end, y4m_detected_fields, y4m_header_end,
};
use crate::text::{str_eq, text_of};
use crate::types::FrameRate;

verus! {

/// What detection yields: the codec's name, its class, the dimensions, the
/// frame rate, the sample rate and the channels.
pub type CodecDetectionResult = (
    String,
    String,
    Option<i32>,
    Option<i32>,
    Option<FrameRate>,
    Option<i32>,
    Option<i32>,
);

/// What detection yields, as contracts see it.
pub struct Detection {
    pub codec_name: Seq<char>,
    pub codec_type: Seq<char>,
    pub width: Option<i32>,
    pub height: Option<i32>,
    pub frame_rate: Option<FrameRate>,
    pub sample_rate: Option<i32>,
    pub channels: Option<i32>,
}

/// A detection result as contracts see it.
pub open spec fn detection_view(result: CodecDetectionResult) -> Detection {
    Detection {
        codec_name: result.0@,
        codec_type: result.1@,
        width: result.2,
        height: result.3,
        frame_rate: result.4,
        sample_rate: result.5,
        channels: result.6,
    }
}

/// The detection that found nothing.
pub open spec fn nothing_detected() -> Detection {
    Detection {
        codec_name: Seq::empty(),
        codec_type: Seq::empty(),
        width: None,
        height: None,
        frame_rate: None,
        sample_rate: None,
        channels: None,
    }
}

/// The detection of a video stream.
pub open spec fn video_detected(
    codec_name: Seq<char>,
    width: Option<i32>,
    height: Option<i32>,
    frame_rate: Option<FrameRate>,
) -> Detection {
    Detection {
        codec_name,
        codec_type: "video"@,
        width,
        height,
        frame_rate,
        sample_rate: None,
        channels: None,
    }
}

/// The codec that the FourCC at bytes 16 to 20 of an IVF header names: a known
/// codec by its short name, any other FourCC as it is written, and `unknown`
/// where it is no text.
pub open spec fn ivf_codec_name(data: Seq<u8>) -> Seq<char> {
    if has_bytes_at(data, 16, "AV01".spec_bytes()) {
        "av1"@
    } else if has_bytes_at(data, 16, "VP90".spec_bytes()) {
        "vp9"@
    } else if has_bytes_at(data, 16, "VP80".spec_bytes()) {
        "vp8"@
    } else if valid_utf8(data.subrange(16, 20)) {
        decode_utf8(data.subrange(16, 20))
    } else {
        "unknown"@
    }
}

/// What an IVF stream shows: behind the signature `DKIF`, the codec of the
/// FourCC, the width at bytes 24 to 26 and the height at bytes 26 to 28; the
/// frame rate is taken to be 30 where the number at bytes 28 to 32 is not 0.
pub open spec fn ivf_detection(data: Seq<u8>) -> Detection {
    if data.len() >= 32 && has_bytes_at(data, 0, "DKIF".spec_bytes()) {
        video_detected(
            ivf_codec_name(data),
            Some(u16_at(data, 24) as i32),
            Some(u16_at(data, 26) as i32),
            if u32_at(data, 28) > 0 {
                Some(FrameRate { num: 30, den: 1 })
            } else {
                None
            },
        )
    } else {
        nothing_detected()
    }
}

/// What a Matroska stream shows: behind the EBML magic number nothing is
/// read, and the codec is guessed from the file's extension.
pub open spec fn matroska_detection(data: Seq<u8>, extension: Option<Seq<char>>) -> Detection {
    if data.len() >= 4 && has_bytes_at(data, 0, ebml_magic()) {
        if extension == Some("webm"@) {
            video_detected("vp9"@, None, None, None)
        } else if extension == Some("mkv"@) {
            video_detected("h264"@, None, None, None)
        } else {
            Detection {
                codec_name: "unknown"@,
                codec_type: "unknown"@,
                width: None,
                height: None,
                frame_rate: None,
                sample_rate: None,
                channels: None,
            }
        }
    } else {
        nothing_detected()
    }
}

/// What a Y4M stream shows: raw video, with the fields that its header line
/// gives; a header line that is no text gives none.
pub open spec fn y4m_detection(data: Seq<u8>) -> Detection {
    match y4m_header_end(data) {
        Some(end) => {
            let header = data.subrange(0, end);
            let fields = if valid_utf8(header) {
                y4m_detected_fields(header)
            } else {
                (None, None, None)
            };
            video_detected("raw"@, fields.0, fields.1, fields.2)
        },
        None => nothing_detected(),
    }
}

/// What a stream of the format `format` shows in its first bytes `data`, the
/// file having the extension `extension`.
pub open spec fn detection_spec(
    data: Seq<u8>,
    format: MediaFormatView,
    extension: Option<Seq<char>>,
) -> Detection {
    match format {
        MediaFormatView::Ivf => ivf_detection(data),
        MediaFormatView::Matroska => matroska_detection(data, extension),
        MediaFormatView::Y4m => y4m_detection(data),
        MediaFormatView::Unknown(_) => nothing_detected(),
    }
}

/// The result that found nothing.
fn nothing() -> (result: CodecDetectionResult)
    ensures
        detection_view(result) == nothing_detected(),
{
    (String::new(), String::new(), None, None, None, None, None)
}

/// Detects what an IVF stream shows.
pub fn detect_ivf_codec(data: &[u8]) -> (result: CodecDetectionResult)
    ensures
        detection_view(result) == ivf_detection(data@),
{
    broadcast use encode_utf8_decode_utf8;

    if data.len() >= 32 && starts_with_at(data, 0, "DKIF".as_bytes()) {
        let codec_name = if starts_with_at(data, 16, "AV01".as_bytes()) {
            "av1".to_string()
        } else if starts_with_at(data, 16, "VP90".as_bytes()) {
            "vp9".to_string()
        } else if starts_with_at(data, 16, "VP80".as_bytes()) {
            "vp8".to_string()
        } else {
            match text_of(slice_subrange(data, 16, 20)) {
                Some(fourcc) => {
                    assert(decode_utf8(fourcc.spec_bytes()) == fourcc@);
                    fourcc.to_string()
                },
                None => "unknown".to_string(),
            }
        };
        let width = read_u16_le(data, 24) as i32;
        let height = read_u16_le(data, 26) as i32;
        let frame_rate = if read_u32_le(data, 28) > 0 {
            Some(FrameRate { num: 30, den: 1 })
        } else {
            None
        };
        (codec_name, "video".to_string(), Some(width), Some(height), frame_rate, None, None)
    } else {
        nothing()
    }
}

/// The view of an extension, where there is one.
pub open spec fn extension_view(extension: Option<&str>) -> Option<Seq<char>> {
    match extension {
        Some(ext) => Some(ext@),
        None => None,
    }
}

/// Detects what a Matroska stream shows, the file having the extension
/// `extension`.
pub fn detect_matroska_codec(data: &[u8], extension: Option<&str>) -> (result: CodecDetectionResult)
    ensures
        detection_view(result) == matroska_detection(data@, extension_view(extension)),
{
    let magic: [u8; 4] = [0x1A, 0x45, 0xDF, 0xA3];
    assert(magic@ =~= ebml_magic());
    if data.len() >= 4 && starts_with_at(data, 0, magic.as_slice()) {
        let is_webm = match extension {
            Some(ext) => str_eq(ext, "webm"),
            None => false,
        };
        let is_mkv = match extension {
            Some(ext) => str_eq(ext, "mkv"),
            None => false,
        };
        if is_webm {
            ("vp9".to_string(), "video".to_string(), None, None, None, None, None)
        } else if is_mkv {
            ("h264".to_string(), "video".to_string(), None, None, None, None, None)
        } else {
            ("unknown".to_string(), "unknown".to_string(), None, None, None, None, None)
        }
    } else {
        nothing()
    }
}

/// Detects what a Y4M stream shows.
pub fn detect_y4m_codec(data: &[u8]) -> (result: CodecDetectionResult)
    ensures
        detection_view(result) == y4m_detection(data@),
{
    match find_y4m_header_end(data) {
        Some(end) => {
            let header = slice_subrange(data, 0, end);
            let fields = match text_of(header) {
                Some(_) => detect_y4m_fields(header),
                None => (None, None, None),
            };
            ("raw".to_string(), "video".to_string(), fields.0, fields.1, fields.2, None, None)
        },
        None => nothing(),
    }
}

/// Detects what a stream of the format `format` shows in its first bytes, the
/// file having the extension `extension`.
pub fn detect_codec(data: &[u8], format: &MediaFormat, extension: Option<&str>) -> (result:
    CodecDetectionResult)
    ensures
        detection_view(result) == detection_spec(data@, format@, extension_view(extension)),
{
    match format {
        MediaFormat::Ivf => detect_ivf_codec(data),
        MediaFormat::Matroska => detect_matroska_codec(data, extension),
        MediaFormat::Y4m => detect_y4m_codec(data),
        MediaFormat::Unknown(_) => nothing(),
    }
}

/// Detects what a stream of the format `format` shows in its first bytes, for
/// the file that `path` names. Only a Matroska stream is judged by the
/// extension of the path.
pub fn detect_codec_from_data(data: &[u8], format: &MediaFormat, path: &str) -> (result:
    CodecDetectionResult)
    ensures
        detection_view(result) == detection_spec(data@, format@, extension_of(path@)),
{
    let extension = path_extension(path);
    match &extension {
        Some(ext) => detect_codec(data, format, Some(ext.as_str())),
        None => detect_codec(data, format, None),
    }
}

/// The bits that a codec is taken to spend on a pixel, in hundredths: 10 for
/// AV1 and H.265, 15 for VP9, 20 for VP8 and H.264, 150 for raw video, and 20
/// for any other.
pub open spec fn bits_per_pixel_spec(codec_name: Seq<char>) -> u32 {
    if codec_name == "av1"@ || codec_name == "h265"@ {
        10
    } else if codec_name == "vp9"@ {
        15
    } else if codec_name == "raw"@ {
        150
    } else {
        20
    }
}

/// The bits that the codec `codec_name` is taken to spend on a pixel, in
/// hundredths.
pub fn bits_per_pixel_hundredths(codec_name: &str) -> (hundredths: u32)
    ensures
        hundredths == bits_per_pixel_spec(codec_name@),
{
    if str_eq(codec_name, "av1") || str_eq(codec_name, "h265") {
        10
    } else if str_eq(codec_name, "vp9") {
        15
    } else if str_eq(codec_name, "raw") {
        150
    } else {
        20
    }
}

/// The pixels of a picture for the estimate of a duration: a width that is
/// not known counts as 640, a height as 480.
pub fn assumed_pixels(width: Option<i32>, height: Option<i32>) -> (pixels: i64)
    ensures
        pixels == (match width {
            Some(w) => w as int,
            None => 640,
        }) * (match height {
            Some(h) => h as int,
            None => 480,
        }),
{
    let w: i64 = match width {
        Some(w) => w as i64,
        None => 640,
    };
    let h: i64 = match height {
        Some(h) => h as i64,
        None => 480,
    };
    assert(-0x8000_0000 * 0x8000_0000 <= w * h <= 0x8000_0000 * 0x8000_0000) by (nonlinear_arith)
        requires
            -0x8000_0000 <= w <= 0x8000_0000,
            -0x8000_0000 <= h <= 0x8000_0000,
    ;
    w * h
}

/// An unknown format never yields a stream: whatever the bytes and the
/// extension, nothing is detected.
pub proof fn lemma_unknown_format_detects_nothing(
    data: Seq<u8>,
    name: Seq<char>,
    extension: Option<Seq<char>>,
)
    ensures
        detection_spec(data, MediaFormatView::Unknown(name), extension) == nothing_detected(),
{
}

} // verus!
